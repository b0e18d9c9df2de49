//! The jumping protocol: the generic test emission rule, per-variant jumps,
//! and the materialisation of boolean values.

use threeaddr::emit::Gen;
use threeaddr::emit::Instr;
use threeaddr::ir::constant_false;
use threeaddr::ir::constant_true;
use threeaddr::ir::Expr;
use threeaddr::ir::Id;
use threeaddr::lexer::word_and;
use threeaddr::lexer::word_minus;
use threeaddr::lexer::word_or;
use threeaddr::lexer::Tag;
use threeaddr::lexer::Token;
use threeaddr::lexer::TokenBase;
use threeaddr::lexer::Word;
use threeaddr::lexer::WordBase;
use threeaddr::types::type_bool;
use threeaddr::types::type_char;
use threeaddr::types::type_int;

fn bool_id(name: &str) -> Expr {
    Expr::Id(Id::new(WordBase::new(name.to_string(), Tag::Id.code()), type_bool(), 4))
}

fn and_tok() -> Token {
    Token::Word(Word::Word(word_and()))
}

fn or_tok() -> Token {
    Token::Word(Word::Word(word_or()))
}

fn lt_tok() -> Token {
    Token::Token(TokenBase::new('<' as u32))
}

#[test]
fn emit_jumps_with_both_labels_emits_exactly_two() {
    let mut g = Gen::new();
    let e = bool_id("x");
    e.emit_jumps(&mut g, "x".to_string(), 3, 4);
    assert_eq!(g.code, vec![Instr::Cond("x".to_string(), 3), Instr::Goto(4)]);
}

#[test]
fn emit_jumps_with_true_label_only_emits_exactly_one() {
    let mut g = Gen::new();
    let e = bool_id("x");
    e.emit_jumps(&mut g, "x".to_string(), 3, 0);
    assert_eq!(g.code, vec![Instr::Cond("x".to_string(), 3)]);
}

#[test]
fn emit_jumps_with_false_label_only_emits_exactly_one() {
    let mut g = Gen::new();
    let e = bool_id("x");
    e.emit_jumps(&mut g, "x".to_string(), 0, 4);
    assert_eq!(g.code, vec![Instr::CondFalse("x".to_string(), 4)]);
}

#[test]
fn emit_jumps_with_both_sentinels_emits_nothing() {
    let mut g = Gen::new();
    let e = bool_id("x");
    e.emit_jumps(&mut g, "x".to_string(), 0, 0);
    assert_eq!(g.code, vec![]);
}

#[test]
fn constant_true_jumps_only_to_its_true_label() {
    // Dead branches are never emitted: `true` with both labels set emits one
    // goto, with only a false label set it emits nothing.
    let mut g = Gen::new();
    constant_true().jumping(&mut g, 3, 4);
    assert_eq!(g.code, vec![Instr::Goto(3)]);
    let mut g = Gen::new();
    constant_true().jumping(&mut g, 0, 4);
    assert_eq!(g.code, vec![]);
}

#[test]
fn constant_false_jumps_only_to_its_false_label() {
    let mut g = Gen::new();
    constant_false().jumping(&mut g, 3, 4);
    assert_eq!(g.code, vec![Instr::Goto(4)]);
    let mut g = Gen::new();
    constant_false().jumping(&mut g, 3, 0);
    assert_eq!(g.code, vec![]);
}

#[test]
fn identifier_condition_uses_the_generic_rule() {
    let mut g = Gen::new();
    bool_id("ok").jumping(&mut g, 0, 7);
    assert_eq!(g.code, vec![Instr::CondFalse("ok".to_string(), 7)]);
}

#[test]
fn and_routes_the_left_false_exit() {
    // x && y with an explicit false label: both operands jump to it.
    let e = Expr::and(and_tok(), bool_id("x"), bool_id("y"), 1).unwrap();
    let mut g = Gen::new();
    e.jumping(&mut g, 0, 9);
    assert_eq!(
        g.code,
        vec![
            Instr::CondFalse("x".to_string(), 9),
            Instr::CondFalse("y".to_string(), 9),
        ]
    );
}

#[test]
fn and_allocates_a_false_label_when_the_sentinel_is_given() {
    // x && y with fall-through on false: a fresh label catches the left
    // operand's false exit and is emitted after the right operand.
    let e = Expr::and(and_tok(), bool_id("x"), bool_id("y"), 1).unwrap();
    let mut g = Gen::new();
    e.jumping(&mut g, 5, 0);
    assert_eq!(
        g.code,
        vec![
            Instr::CondFalse("x".to_string(), 1),
            Instr::Cond("y".to_string(), 5),
            Instr::Label(1),
        ]
    );
}

#[test]
fn or_routes_the_left_true_exit() {
    let e = Expr::or(or_tok(), bool_id("x"), bool_id("y"), 1).unwrap();
    let mut g = Gen::new();
    e.jumping(&mut g, 0, 9);
    assert_eq!(
        g.code,
        vec![
            Instr::Cond("x".to_string(), 1),
            Instr::CondFalse("y".to_string(), 9),
            Instr::Label(1),
        ]
    );
}

#[test]
fn not_swaps_the_labels() {
    let bang = Token::Token(TokenBase::new('!' as u32));
    let e = Expr::not(bang, bool_id("x"), 1).unwrap();
    let mut g = Gen::new();
    e.jumping(&mut g, 3, 4);
    assert_eq!(
        g.code,
        vec![Instr::Cond("x".to_string(), 4), Instr::Goto(3)]
    );
}

#[test]
fn rel_reduces_its_operands_before_testing() {
    // (1 + 2) < a: the arithmetic operand is materialised into a temporary
    // and the test is over the temporary.
    let plus = Token::Token(TokenBase::new('+' as u32));
    let one = Expr::constant(Token::Num(threeaddr::lexer::Num::new(1)), type_int());
    let two = Expr::constant(Token::Num(threeaddr::lexer::Num::new(2)), type_int());
    let sum = Expr::arith(plus, one, two, 1).unwrap();
    let a = Expr::Id(Id::new(WordBase::new("a".to_string(), Tag::Id.code()), type_int(), 4));
    let e = Expr::rel(lt_tok(), sum, a, 1).unwrap();
    let mut g = Gen::new();
    e.jumping(&mut g, 0, 6);
    assert_eq!(
        g.code,
        vec![
            Instr::Assign("t1".to_string(), "1 + 2".to_string()),
            Instr::CondFalse("t1 < a".to_string(), 6),
        ]
    );
}

#[test]
fn logical_gen_materialises_true_and_false() {
    // The protocol of `Logical.gen()` on `true && false`: jumping(0, f),
    // t = true, goto a, f:, t = false, a:.
    let e = Expr::and(and_tok(), constant_true(), constant_false(), 1).unwrap();
    let mut g = Gen::new();
    let r = e.gen(&mut g);
    assert_eq!(
        g.code,
        vec![
            Instr::Goto(1),
            Instr::Assign("t1".to_string(), "true".to_string()),
            Instr::Goto(2),
            Instr::Label(1),
            Instr::Assign("t1".to_string(), "false".to_string()),
            Instr::Label(2),
        ]
    );
    assert_eq!(r.to_string(), "t1");
}

#[test]
fn true_and_false_ultimately_assigns_false() {
    // Materialisation correctness on `true && false`: executing the emitted
    // code, following gotos and labels, the value finally assigned into the
    // result temporary is `false`.
    let e = Expr::and(and_tok(), constant_true(), constant_false(), 1).unwrap();
    let mut g = Gen::new();
    let r = e.gen(&mut g);
    let temp = r.to_string();
    let mut pc = 0usize;
    let mut value: Option<String> = None;
    let mut steps = 0;
    while pc < g.code.len() && steps < 100 {
        steps += 1;
        match &g.code[pc] {
            Instr::Goto(l) => {
                pc = g
                    .code
                    .iter()
                    .position(|i| matches!(i, Instr::Label(k) if k == l))
                    .unwrap();
            }
            Instr::Assign(x, rhs) => {
                if *x == temp {
                    value = Some(rhs.clone());
                }
                pc += 1;
            }
            _ => {
                pc += 1;
            }
        }
    }
    assert_eq!(value, Some("false".to_string()));
}

#[test]
fn negating_a_char_promotes_to_int() {
    let c = Expr::Id(Id::new(WordBase::new("c".to_string(), Tag::Id.code()), type_char(), 1));
    let e = Expr::unary(Token::Word(Word::Word(word_minus())), c, 1).unwrap();
    assert_eq!(e.get_type(), type_int());
    assert_eq!(e.to_string(), "minus c");
}

#[test]
fn reduce_of_a_simple_operand_emits_nothing() {
    let mut g = Gen::new();
    let r = bool_id("x").reduce(&mut g);
    assert_eq!(g.code, vec![]);
    assert_eq!(r.to_string(), "x");
}
