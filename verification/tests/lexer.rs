//! The scanner: token classes, two-character operators, literals, line
//! counting, and lexical errors.

use threeaddr::error::Error;
use threeaddr::lexer::Lexer;
use threeaddr::lexer::Tag;
use threeaddr::lexer::Token;
use threeaddr::lexer::Word;

fn scan_all(src: &[u8]) -> Vec<Token> {
    let mut lex = Lexer::new(src.to_vec());
    let mut out = Vec::new();
    loop {
        match lex.scan().unwrap() {
            Token::Eof => return out,
            t => out.push(t),
        }
    }
}

#[test]
fn single_character_tokens() {
    let toks = scan_all(b"{ } ( ) ; = + - * / < > !");
    let expected = [
        '{', '}', '(', ')', ';', '=', '+', '-', '*', '/', '<', '>', '!',
    ];
    assert_eq!(toks.len(), expected.len());
    for (t, c) in toks.iter().zip(expected.iter()) {
        assert_eq!(t.get_tag(), Some(*c as u32));
        assert_eq!(t.to_string(), c.to_string());
    }
}

#[test]
fn operator_words_pair_up() {
    let toks = scan_all(b"&& || == <= >=");
    let tags = [Tag::And, Tag::Or, Tag::Eq_, Tag::Le, Tag::Ge];
    assert_eq!(toks.len(), 5);
    for (t, tag) in toks.iter().zip(tags.iter()) {
        assert_eq!(t.get_tag(), Some(tag.code()));
    }
    assert_eq!(toks[0].to_string(), "&&");
    assert_eq!(toks[3].to_string(), "<=");
}

#[test]
fn lone_ampersand_stays_single() {
    let toks = scan_all(b"& |");
    assert_eq!(toks[0].get_tag(), Some('&' as u32));
    assert_eq!(toks[1].get_tag(), Some('|' as u32));
}

#[test]
fn integer_literal() {
    let toks = scan_all(b"305");
    assert_eq!(toks.len(), 1);
    match &toks[0] {
        Token::Num(n) => assert_eq!(n.value, 305),
        _ => panic!("expected an integer literal"),
    }
    assert_eq!(toks[0].to_string(), "305");
}

#[test]
fn largest_integer_fits() {
    let toks = scan_all(b"4294967295");
    match &toks[0] {
        Token::Num(n) => assert_eq!(n.value, u32::MAX),
        _ => panic!("expected an integer literal"),
    }
}

#[test]
fn integer_overflow_is_a_lexical_error() {
    let mut lex = Lexer::new(b"4294967296".to_vec());
    assert!(matches!(lex.scan(), Err(Error::Lexical(1))));
}

#[test]
fn real_literal_keeps_its_text() {
    let toks = scan_all(b"2.5 3.25");
    assert_eq!(toks[0].get_tag(), Some(Tag::Real.code()));
    assert_eq!(toks[0].to_string(), "2.5");
    assert_eq!(toks[1].to_string(), "3.25");
}

#[test]
fn a_bare_trailing_point_leaves_a_whole_number_text() {
    let toks = scan_all(b"2.");
    assert_eq!(toks.len(), 1);
    assert_eq!(toks[0].get_tag(), Some(Tag::Real.code()));
    assert_eq!(toks[0].to_string(), "2");
}

#[test]
fn reserved_words_and_identifiers() {
    let toks = scan_all(b"if else while do break true false int float bool char foo foo2");
    let tags = [
        Tag::If.code(),
        Tag::Else.code(),
        Tag::While.code(),
        Tag::Do.code(),
        Tag::Break.code(),
        Tag::True.code(),
        Tag::False.code(),
        Tag::Basic.code(),
        Tag::Basic.code(),
        Tag::Basic.code(),
        Tag::Basic.code(),
        Tag::Id.code(),
        Tag::Id.code(),
    ];
    assert_eq!(toks.len(), tags.len());
    for (t, code) in toks.iter().zip(tags.iter()) {
        assert_eq!(t.get_tag(), Some(*code));
    }
    assert_eq!(toks[11].to_string(), "foo");
    assert_eq!(toks[12].to_string(), "foo2");
}

#[test]
fn a_seen_identifier_is_reused() {
    let mut lex = Lexer::new(b"abc abc".to_vec());
    let t1 = lex.scan().unwrap();
    let t2 = lex.scan().unwrap();
    assert_eq!(t1.to_string(), "abc");
    assert_eq!(t2.to_string(), "abc");
    assert_eq!(t2.get_tag(), Some(Tag::Id.code()));
}

#[test]
fn newlines_count_lines() {
    let mut lex = Lexer::new(b"a\n b\n\n c".to_vec());
    assert_eq!(lex.line_num, 1);
    lex.scan().unwrap();
    lex.scan().unwrap();
    assert_eq!(lex.line_num, 2);
    lex.scan().unwrap();
    assert_eq!(lex.line_num, 4);
}

#[test]
fn non_ascii_byte_is_a_lexical_error() {
    let mut lex = Lexer::new(vec![b'a', b' ', 0xE9]);
    assert!(lex.scan().is_ok());
    assert!(matches!(lex.scan(), Err(Error::Lexical(1))));
}

#[test]
fn type_words_carry_the_type() {
    let toks = scan_all(b"float");
    match &toks[0] {
        Token::Word(Word::Type(t)) => assert_eq!(t.get_width(), 8),
        _ => panic!("expected a type word"),
    }
}

#[test]
fn end_of_input_is_eof() {
    let mut lex = Lexer::new(b"  \t\n ".to_vec());
    assert!(matches!(lex.scan().unwrap(), Token::Eof));
    assert!(matches!(lex.scan().unwrap(), Token::Eof));
}
