//! The statement engine driven directly through its constructors and the
//! whole-program translation, without the parser.

use threeaddr::emit::Gen;
use threeaddr::emit::Instr;
use threeaddr::error::Error;
use threeaddr::ir::constant_true;
use threeaddr::ir::translate;
use threeaddr::ir::Expr;
use threeaddr::ir::Id;
use threeaddr::ir::Stmt;
use threeaddr::lexer::Num;
use threeaddr::lexer::Tag;
use threeaddr::lexer::Token;
use threeaddr::lexer::TokenBase;
use threeaddr::lexer::WordBase;
use threeaddr::types::type_bool;
use threeaddr::types::type_int;

fn int_id(name: &str, offset: u32) -> Id {
    Id::new(WordBase::new(name.to_string(), Tag::Id.code()), type_int(), offset)
}

fn num(v: u32) -> Expr {
    Expr::constant(Token::Num(Num::new(v)), type_int())
}

#[test]
fn a_hand_built_loop_translates_whole() {
    // while (a < 10) { break; }  built from the node constructors.
    let lt = Token::Token(TokenBase::new('<' as u32));
    let guard = Expr::rel(lt, Expr::Id(int_id("a", 4)), num(10), 1).unwrap();
    let body = Stmt::sequence(Stmt::break_stmt(1), Stmt::Null);
    let w = Stmt::while_stmt(guard, body, 1).unwrap();
    let code = translate(&w).unwrap();
    assert_eq!(
        code,
        vec![
            Instr::Label(1),
            Instr::CondFalse("a < 10".to_string(), 2),
            Instr::Label(3),
            Instr::Goto(2),
            Instr::Goto(1),
            Instr::Label(2),
        ]
    );
}

#[test]
fn a_hand_built_conditional_translates_whole() {
    // if (true) a = 1; else a = 2;
    let s1 = Stmt::assign(int_id("a", 4), num(1), 1).unwrap();
    let s2 = Stmt::assign(int_id("a", 4), num(2), 1).unwrap();
    let s = Stmt::if_else(constant_true(), s1, s2, 1).unwrap();
    let code = translate(&s).unwrap();
    assert_eq!(
        code,
        vec![
            Instr::Label(1),
            Instr::Label(3),
            Instr::Assign("a".to_string(), "1".to_string()),
            Instr::Goto(2),
            Instr::Label(4),
            Instr::Assign("a".to_string(), "2".to_string()),
            Instr::Label(2),
        ]
    );
}

#[test]
fn one_armed_conditional_on_a_constant_guard() {
    let body = Stmt::assign(int_id("a", 4), num(1), 1).unwrap();
    let s = Stmt::if_stmt(constant_true(), body, 1).unwrap();
    let code = translate(&s).unwrap();
    // `true` with only a false label emits nothing: the body follows its
    // entry label directly.
    assert_eq!(
        code,
        vec![
            Instr::Label(1),
            Instr::Label(3),
            Instr::Assign("a".to_string(), "1".to_string()),
            Instr::Label(2),
        ]
    );
}

#[test]
fn constructors_reject_type_mismatches() {
    let bang = Token::Token(TokenBase::new('!' as u32));
    assert_eq!(
        Stmt::assign(int_id("a", 4), constant_true(), 7).unwrap_err(),
        Error::TypeError(7)
    );
    assert_eq!(
        Stmt::if_stmt(num(1), Stmt::Null, 8).unwrap_err(),
        Error::TypeError(8)
    );
    assert_eq!(
        Stmt::while_stmt(num(1), Stmt::Null, 9).unwrap_err(),
        Error::TypeError(9)
    );
    assert_eq!(Expr::not(bang, num(1), 2).unwrap_err(), Error::TypeError(2));
}

#[test]
fn is_null_marks_only_the_empty_statement() {
    assert!(Stmt::Null.is_null());
    assert!(!Stmt::break_stmt(1).is_null());
    assert!(!Stmt::sequence(Stmt::Null, Stmt::Null).is_null());
}

#[test]
fn statement_gen_respects_the_caller_contract() {
    // A bare break generated with an explicit break target emits one goto.
    let mut g = Gen::new();
    let s = Stmt::break_stmt(1);
    s.gen(&mut g, 7, 8, 9);
    assert_eq!(g.code, vec![Instr::Goto(9)]);
    assert_eq!(g.labels, 0);
}

#[test]
fn type_checked_bool_assignment() {
    let c = Id::new(WordBase::new("c".to_string(), Tag::Id.code()), type_bool(), 1);
    let s = Stmt::assign(c, constant_true(), 1).unwrap();
    let code = translate(&s).unwrap();
    assert_eq!(
        code,
        vec![
            Instr::Label(1),
            Instr::Assign("c".to_string(), "true".to_string()),
            Instr::Label(2),
        ]
    );
}
