//! The scoped symbol table and the frame-offset rule.

use threeaddr::ir::Id;
use threeaddr::lexer::Tag;
use threeaddr::lexer::WordBase;
use threeaddr::symbols::declare;
use threeaddr::symbols::Env;
use threeaddr::types::type_float;
use threeaddr::types::type_int;

fn ident(name: &str) -> WordBase {
    WordBase::new(name.to_string(), Tag::Id.code())
}

#[test]
fn offsets_int_then_float() {
    // `int a; float b;` in one scope: the slot is reserved before the offset
    // is recorded, so offset(a) = 4 and offset(b) = 12.
    let mut env = Env::new(None);
    let used = declare(&mut env, 0, ident("a"), type_int());
    assert_eq!(used, 4);
    let used = declare(&mut env, used, ident("b"), type_float());
    assert_eq!(used, 12);
    let a = env.get(&ident("a")).unwrap();
    let b = env.get(&ident("b")).unwrap();
    assert_eq!(a.offset, 4);
    assert_eq!(b.offset, 12);
    assert_eq!(a.type_, type_int());
    assert_eq!(b.type_, type_float());
}

#[test]
fn get_walks_the_scope_chain() {
    let mut outer = Env::new(None);
    outer.put(ident("x"), Id::new(ident("x"), type_int(), 4));
    outer.put(ident("y"), Id::new(ident("y"), type_int(), 8));
    let inner = Env::new(Some(Box::new(outer)));
    let y = inner.get(&ident("y")).unwrap();
    assert_eq!(y.offset, 8);
    assert!(inner.get(&ident("z")).is_none());
}

#[test]
fn inner_scope_shadows_outer() {
    let mut outer = Env::new(None);
    outer.put(ident("x"), Id::new(ident("x"), type_int(), 4));
    let mut inner = Env::new(Some(Box::new(outer)));
    inner.put(ident("x"), Id::new(ident("x"), type_float(), 12));
    let x = inner.get(&ident("x")).unwrap();
    assert_eq!(x.offset, 12);
    assert_eq!(x.type_, type_float());
}

#[test]
fn later_put_shadows_earlier_in_same_scope() {
    let mut env = Env::new(None);
    env.put(ident("x"), Id::new(ident("x"), type_int(), 4));
    env.put(ident("x"), Id::new(ident("x"), type_int(), 8));
    assert_eq!(env.get(&ident("x")).unwrap().offset, 8);
}

#[test]
fn popping_a_scope_restores_the_parent() {
    let mut outer = Env::new(None);
    outer.put(ident("x"), Id::new(ident("x"), type_int(), 4));
    let inner = Env::new(Some(Box::new(outer)));
    let restored = *inner.prev.unwrap();
    assert_eq!(restored.get(&ident("x")).unwrap().offset, 4);
}
