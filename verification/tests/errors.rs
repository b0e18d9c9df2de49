//! The error taxonomy: each variant reached from the input that provokes it,
//! and the fail-fast discipline.

use threeaddr::emit::Instr;
use threeaddr::error::Error;
use threeaddr::lexer::Lexer;
use threeaddr::parser::Parser;

fn run(src: &[u8]) -> Result<Vec<Instr>, Error> {
    let lex = Lexer::new(src.to_vec());
    let mut parser = Parser::new(lex)?;
    parser.program()
}

#[test]
fn break_outside_a_loop_is_rejected_at_parse_time() {
    assert_eq!(run(b"{ break; }"), Err(Error::UnenclosedBreak(1)));
}

#[test]
fn break_after_a_loop_is_rejected_too() {
    assert_eq!(
        run(b"{ int a; while (a < 1) a = 1; break; }"),
        Err(Error::UnenclosedBreak(1))
    );
}

#[test]
fn undeclared_identifier_in_an_assignment_target() {
    assert_eq!(
        run(b"{ x = 1; }"),
        Err(Error::Undeclared(1, "x".to_string()))
    );
}

#[test]
fn undeclared_identifier_in_an_expression() {
    assert_eq!(
        run(b"{ int a; a = b + 1; }"),
        Err(Error::Undeclared(1, "b".to_string()))
    );
}

#[test]
fn a_declaration_is_not_visible_outside_its_block() {
    assert_eq!(
        run(b"{ int a; { int b; b = 1; } b = 2; }"),
        Err(Error::Undeclared(1, "b".to_string()))
    );
}

#[test]
fn bool_operand_in_arithmetic_is_a_type_error() {
    assert_eq!(run(b"{ int a; a = true + 1; }"), Err(Error::TypeError(1)));
}

#[test]
fn unary_minus_on_bool_is_a_type_error() {
    assert_eq!(run(b"{ int a; a = -true; }"), Err(Error::TypeError(1)));
}

#[test]
fn logical_operand_must_be_bool() {
    assert_eq!(
        run(b"{ bool b; b = true && 1; }"),
        Err(Error::TypeError(1))
    );
}

#[test]
fn not_operand_must_be_bool() {
    assert_eq!(run(b"{ bool b; b = !1; }"), Err(Error::TypeError(1)));
}

#[test]
fn relational_operands_must_have_equal_types() {
    assert_eq!(
        run(b"{ bool b; b = 1 < true; }"),
        Err(Error::TypeError(1))
    );
}

#[test]
fn assignment_types_must_be_compatible() {
    assert_eq!(run(b"{ int a; a = true; }"), Err(Error::TypeError(1)));
    assert_eq!(run(b"{ bool b; b = 1; }"), Err(Error::TypeError(1)));
}

#[test]
fn numeric_cross_assignment_is_allowed() {
    assert!(run(b"{ int a; float f; f = a; a = f; }").is_ok());
}

#[test]
fn if_condition_must_be_bool() {
    assert_eq!(run(b"{ int a; if (a) a = 1; }"), Err(Error::TypeError(1)));
}

#[test]
fn while_guard_must_be_bool() {
    assert_eq!(
        run(b"{ int a; while (a) a = 1; }"),
        Err(Error::TypeError(1))
    );
}

#[test]
fn type_errors_carry_their_line() {
    assert_eq!(
        run(b"{ int a;\n a = true;\n }"),
        Err(Error::TypeError(2))
    );
}

#[test]
fn a_missing_brace_is_a_syntax_error() {
    assert!(matches!(run(b"int a;"), Err(Error::Syntax(1, _))));
}

#[test]
fn a_stray_token_is_a_syntax_error() {
    assert!(matches!(
        run(b"{ int a; a = ; }"),
        Err(Error::Syntax(1, _))
    ));
}

#[test]
fn an_unclosed_block_is_a_syntax_error() {
    assert!(matches!(run(b"{ int a; a = 1;"), Err(Error::Syntax(1, _))));
}

#[test]
fn a_non_ascii_byte_is_a_lexical_error() {
    let mut src = b"{ int a; a = 1".to_vec();
    src.push(0xC3);
    src.extend_from_slice(b"; }");
    assert!(matches!(run(&src), Err(Error::Lexical(1))));
}

#[test]
fn error_lines_are_reported() {
    let e = run(b"{\n int a;\n x = 1;\n }").unwrap_err();
    assert_eq!(e.line(), 3);
    assert_eq!(e, Error::Undeclared(3, "x".to_string()));
}
