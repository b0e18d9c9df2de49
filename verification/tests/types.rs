//! The type system: widths, the numeric predicate, and the promotion rule.

use threeaddr::types::max;
use threeaddr::types::numeric;
use threeaddr::types::type_bool;
use threeaddr::types::type_char;
use threeaddr::types::type_float;
use threeaddr::types::type_int;
use threeaddr::types::Type;
use threeaddr::types::TypeBase;

#[test]
fn widths() {
    assert_eq!(type_int().get_width(), 4);
    assert_eq!(type_float().get_width(), 8);
    assert_eq!(type_char().get_width(), 1);
    assert_eq!(type_bool().get_width(), 1);
}

#[test]
fn numeric_kinds() {
    assert!(numeric(&type_int()));
    assert!(numeric(&type_float()));
    assert!(numeric(&type_char()));
    assert!(!numeric(&type_bool()));
}

#[test]
fn promotion_int_float_gives_float() {
    assert_eq!(TypeBase::max(&type_int(), &type_float()), Some(type_float()));
    assert_eq!(TypeBase::max(&type_float(), &type_int()), Some(type_float()));
}

#[test]
fn promotion_char_int_gives_int() {
    assert_eq!(TypeBase::max(&type_char(), &type_int()), Some(type_int()));
    assert_eq!(TypeBase::max(&type_int(), &type_char()), Some(type_int()));
}

#[test]
fn promotion_char_char_gives_char() {
    assert_eq!(TypeBase::max(&type_char(), &type_char()), Some(type_char()));
}

#[test]
fn promotion_rejects_bool() {
    assert_eq!(TypeBase::max(&type_bool(), &type_int()), None);
    assert_eq!(TypeBase::max(&type_float(), &type_bool()), None);
    assert_eq!(TypeBase::max(&type_bool(), &type_bool()), None);
}

#[test]
fn free_max_agrees() {
    assert_eq!(max(&type_char(), &type_float()), Some(type_float()));
    assert_eq!(max(&type_bool(), &type_char()), None);
}

#[test]
fn lexemes() {
    assert_eq!(type_int().lexeme(), "int");
    assert_eq!(type_float().lexeme(), "float");
    assert_eq!(TypeBase::new(Type::Bool, 1).lexeme(), "bool");
}
