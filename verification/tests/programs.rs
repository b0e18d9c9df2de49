//! Whole programs through the driver: lowering of nested expressions, loop
//! shape, break resolution, and materialised boolean assignments.

use threeaddr::emit::Instr;
use threeaddr::error::Error;
use threeaddr::lexer::Lexer;
use threeaddr::parser::Parser;

fn run(src: &[u8]) -> Result<Vec<Instr>, Error> {
    let lex = Lexer::new(src.to_vec());
    let mut parser = Parser::new(lex)?;
    parser.program()
}

fn asg(x: &str, rhs: &str) -> Instr {
    Instr::Assign(x.to_string(), rhs.to_string())
}

#[test]
fn empty_block() {
    let code = run(b"{}").unwrap();
    assert_eq!(code, vec![Instr::Label(1), Instr::Label(2)]);
}

#[test]
fn assign_lowers_nested_product_through_a_temp() {
    // `a = 1 + 2 * 3;`: the inner product is reduced into a temporary, the
    // sum stays in the assignment's right-hand side.
    let code = run(b"{ int a; a = 1 + 2 * 3; }").unwrap();
    assert_eq!(
        code,
        vec![
            Instr::Label(1),
            asg("t1", "2 * 3"),
            asg("a", "1 + t1"),
            Instr::Label(2),
        ]
    );
}

#[test]
fn both_operands_nested_take_two_temps() {
    let code = run(b"{ int a; a = (1 + 2) * (3 - 4); }").unwrap();
    assert_eq!(
        code,
        vec![
            Instr::Label(1),
            asg("t1", "1 + 2"),
            asg("t2", "3 - 4"),
            asg("a", "t1 * t2"),
            Instr::Label(2),
        ]
    );
}

#[test]
fn unary_minus_renders_as_the_word_minus() {
    let code = run(b"{ int a; a = -5; }").unwrap();
    assert_eq!(
        code,
        vec![Instr::Label(1), asg("a", "minus 5"), Instr::Label(2)]
    );
}

#[test]
fn while_loop_shape() {
    // Guard test at the loop's begin label, body instructions, trailing goto
    // back to begin.
    let code = run(b"{ int a; a = 0; while (a < 10) { a = a + 1; } }").unwrap();
    assert_eq!(
        code,
        vec![
            Instr::Label(1),
            asg("a", "0"),
            Instr::Label(3),
            Instr::CondFalse("a < 10".to_string(), 2),
            Instr::Label(4),
            asg("a", "a + 1"),
            Instr::Goto(3),
            Instr::Label(2),
        ]
    );
}

#[test]
fn break_jumps_to_the_loop_callers_after_label() {
    let code = run(b"{ int a; a = 0; while (a < 10) { a = a + 1; break; } }").unwrap();
    assert_eq!(
        code,
        vec![
            Instr::Label(1),
            asg("a", "0"),
            Instr::Label(3),
            Instr::CondFalse("a < 10".to_string(), 2),
            Instr::Label(4),
            asg("a", "a + 1"),
            Instr::Label(5),
            Instr::Goto(2),
            Instr::Goto(3),
            Instr::Label(2),
        ]
    );
}

#[test]
fn break_binds_to_the_innermost_loop() {
    let code = run(
        b"{ int a; a = 0; while (a < 10) { while (a < 5) { break; } a = a + 1; } }",
    )
    .unwrap();
    // The outer loop's after label is 2; the inner loop's after label is
    // label 5, threaded by the sequencing inside the outer body.  The break's
    // goto must name the inner loop's after label, not 2.
    let break_goto = code
        .iter()
        .filter_map(|i| match i {
            Instr::Goto(l) => Some(*l),
            _ => None,
        })
        .collect::<Vec<_>>();
    // gotos: break -> inner after (5), inner trailing -> inner begin (4),
    // outer trailing -> outer begin (3).
    assert_eq!(break_goto, vec![5, 4, 3]);
}

#[test]
fn if_skips_to_after_when_false() {
    let code = run(b"{ int a; a = 0; if (a < 1) a = 2; }").unwrap();
    assert_eq!(
        code,
        vec![
            Instr::Label(1),
            asg("a", "0"),
            Instr::Label(3),
            Instr::CondFalse("a < 1".to_string(), 2),
            Instr::Label(4),
            asg("a", "2"),
            Instr::Label(2),
        ]
    );
}

#[test]
fn if_else_threads_both_arms_to_after() {
    let code = run(b"{ int a; if (a < 1) a = 2; else a = 3; }").unwrap();
    assert_eq!(
        code,
        vec![
            Instr::Label(1),
            Instr::CondFalse("a < 1".to_string(), 4),
            Instr::Label(3),
            asg("a", "2"),
            Instr::Goto(2),
            Instr::Label(4),
            asg("a", "3"),
            Instr::Label(2),
        ]
    );
}

#[test]
fn boolean_assignment_materialises_through_a_temp() {
    let code = run(b"{ int a; bool c; c = a * 2 < 10; }").unwrap();
    assert_eq!(
        code,
        vec![
            Instr::Label(1),
            asg("t2", "a * 2"),
            Instr::CondFalse("t2 < 10".to_string(), 3),
            asg("t1", "true"),
            Instr::Goto(4),
            Instr::Label(3),
            asg("t1", "false"),
            Instr::Label(4),
            asg("c", "t1"),
            Instr::Label(2),
        ]
    );
}

#[test]
fn short_circuit_and_in_a_condition() {
    let code = run(b"{ int a; bool c; if (a < 1 && c) a = 2; }").unwrap();
    assert_eq!(
        code,
        vec![
            Instr::Label(1),
            Instr::CondFalse("a < 1".to_string(), 2),
            Instr::CondFalse("c".to_string(), 2),
            Instr::Label(3),
            asg("a", "2"),
            Instr::Label(2),
        ]
    );
}

#[test]
fn float_promotion_in_a_mixed_sum() {
    let code = run(b"{ float f; f = 1 + 2.5; }").unwrap();
    assert_eq!(
        code,
        vec![Instr::Label(1), asg("f", "1 + 2.5"), Instr::Label(2)]
    );
}

#[test]
fn inner_scope_shadows_in_program_text() {
    let code = run(b"{ int x; { float x; x = 1; } x = 2; }").unwrap();
    let assigns = code
        .iter()
        .filter(|i| matches!(i, Instr::Assign(..)))
        .cloned()
        .collect::<Vec<_>>();
    assert_eq!(assigns, vec![asg("x", "1"), asg("x", "2")]);
}

#[test]
fn leading_empty_statements_are_skipped_without_labels() {
    let code = run(b"{ int a; ; ; a = 1; }").unwrap();
    assert_eq!(
        code,
        vec![Instr::Label(1), asg("a", "1"), Instr::Label(2)]
    );
}
