//! A one-pass syntax-directed translator for a small imperative language,
//! producing linear three-address code.
//!
//! The heart of the crate is the expression engine in [`ir`], which generates
//! short-circuit boolean code through a "jumping" (label-target) protocol, and
//! the statement engine built on top of it.  Both are specified exactly: every
//! `gen`, `reduce` and `jumping` operation carries an `ensures` clause that
//! pins down the precise instruction sequence it appends to the output stream
//! and the precise evolution of the temporary and label allocators.

pub mod emit;
pub mod error;
pub mod ir;
pub mod lexer;
pub mod parser;
pub mod symbols;
pub mod text;
pub mod types;
