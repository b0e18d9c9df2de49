//! Textual forms: decimal ids, instruction lines, token and expression
//! renderings.

use threeaddr::emit::Gen;
use threeaddr::emit::Instr;
use threeaddr::emit::emit_label;
use threeaddr::emit::new_label;
use threeaddr::ir::Expr;
use threeaddr::ir::Id;
use threeaddr::lexer::Num;
use threeaddr::lexer::Real;
use threeaddr::lexer::Tag;
use threeaddr::lexer::Token;
use threeaddr::lexer::TokenBase;
use threeaddr::lexer::Word;
use threeaddr::lexer::WordBase;
use threeaddr::lexer::word_true;
use threeaddr::text::dec_u32;
use threeaddr::text::label_string;
use threeaddr::text::temp_string;
use threeaddr::types::type_int;

#[test]
fn decimal_rendering() {
    assert_eq!(dec_u32(0), "0");
    assert_eq!(dec_u32(7), "7");
    assert_eq!(dec_u32(10), "10");
    assert_eq!(dec_u32(305), "305");
    assert_eq!(dec_u32(u32::MAX), "4294967295");
}

#[test]
fn temp_and_label_names() {
    assert_eq!(temp_string(1), "t1");
    assert_eq!(temp_string(42), "t42");
    assert_eq!(label_string(1), "L1");
    assert_eq!(label_string(107), "L107");
}

#[test]
fn instruction_lines() {
    assert_eq!(Instr::Label(5).to_string(), "L5:");
    assert_eq!(Instr::Goto(9).to_string(), "goto L9");
    assert_eq!(
        Instr::Cond("a < 10".to_string(), 3).to_string(),
        "if a < 10 goto L3"
    );
    assert_eq!(
        Instr::CondFalse("x".to_string(), 2).to_string(),
        "iffalse x goto L2"
    );
    assert_eq!(
        Instr::Assign("a".to_string(), "1 + t1".to_string()).to_string(),
        "a = 1 + t1"
    );
}

#[test]
fn token_rendering() {
    assert_eq!(Token::Token(TokenBase::new('+' as u32)).to_string(), "+");
    assert_eq!(Token::Num(Num::new(12)).to_string(), "12");
    assert_eq!(Token::Real(Real::new("2.5".to_string())).to_string(), "2.5");
    assert_eq!(Token::Word(Word::Word(word_true())).to_string(), "true");
    assert_eq!(Num::new(12).to_string(), "12");
    assert_eq!(Real::new("0.5".to_string()).to_string(), "0.5");
    assert_eq!(Word::new("abc".to_string(), Tag::Id.code()).to_string(), "abc");
}

#[test]
fn expression_rendering() {
    let plus = Token::Token(TokenBase::new('+' as u32));
    let star = Token::Token(TokenBase::new('*' as u32));
    let one = Expr::constant(Token::Num(Num::new(1)), type_int());
    let two = Expr::constant(Token::Num(Num::new(2)), type_int());
    let three = Expr::constant(Token::Num(Num::new(3)), type_int());
    let prod = Expr::arith(star, two, three, 1).unwrap();
    let sum = Expr::arith(plus, one, prod, 1).unwrap();
    assert_eq!(sum.to_string(), "1 + 2 * 3");
    assert_eq!(sum.get_type(), type_int());
    let a = Expr::Id(Id::new(WordBase::new("a".to_string(), Tag::Id.code()), type_int(), 4));
    assert_eq!(a.to_string(), "a");
}

#[test]
fn labels_count_from_one_and_never_issue_the_sentinel() {
    let mut g = Gen::new();
    let l1 = new_label(&mut g);
    let l2 = new_label(&mut g);
    assert_eq!(l1, 1);
    assert_eq!(l2, 2);
    assert_ne!(l1, 0);
    emit_label(&mut g, l1);
    assert_eq!(g.code, vec![Instr::Label(1)]);
}
