//! The type system: a closed set of four primitive semantic types and the
//! numeric promotion rule used by the expression engine.

use vstd::prelude::*;

verus! {

/// The kind of a semantic type.  Equality of types is equality of kinds.
#[derive(Debug, Clone, Copy, PartialEq, Eq, Structural)]
pub enum Type {
    Int,
    Float,
    Char,
    Bool,
}

/// The storage width in bytes that a declaration of this kind reserves.
pub open spec fn width_of(k: Type) -> u32 {
    match k {
        Type::Int => 4,
        Type::Float => 8,
        Type::Char => 1,
        Type::Bool => 1,
    }
}

/// The canonical lexeme naming a kind in source programs.
pub open spec fn lexeme_of(k: Type) -> Seq<char> {
    match k {
        Type::Int => "int"@,
        Type::Float => "float"@,
        Type::Char => "char"@,
        Type::Bool => "bool"@,
    }
}

/// `true` for the kinds that may appear as arithmetic operands.
pub open spec fn is_numeric(k: Type) -> bool {
    k == Type::Int || k == Type::Float || k == Type::Char
}

/// The promotion (least upper bound) of two numeric kinds: `float` absorbs
/// everything, `int` absorbs `char`, and any non-numeric operand is rejected.
pub open spec fn promote(k1: Type, k2: Type) -> Option<Type> {
    if !is_numeric(k1) || !is_numeric(k2) {
        None
    } else if k1 == Type::Float || k2 == Type::Float {
        Some(Type::Float)
    } else if k1 == Type::Int || k2 == Type::Int {
        Some(Type::Int)
    } else {
        Some(Type::Char)
    }
}

/// The promotion of two kinds, as a canonical `TypeBase`.
pub open spec fn promote_base(k1: Type, k2: Type) -> Option<TypeBase> {
    match promote(k1, k2) {
        Some(k) => Some(canonical(k)),
        None => None,
    }
}

/// A semantic type together with its storage width.
#[derive(Debug, Clone, Copy, PartialEq, Eq, Structural)]
pub struct TypeBase {
    pub kind: Type,
    pub width: u32,
}

/// The canonical `TypeBase` for a kind: its width is the kind's width.
pub open spec fn canonical(k: Type) -> TypeBase {
    TypeBase { kind: k, width: width_of(k) }
}

impl TypeBase {
    /// A well-formed type carries its kind's width.
    pub open spec fn wf(self) -> bool {
        self.width == width_of(self.kind)
    }

    pub fn new(k: Type, wid: u32) -> (t: TypeBase)
        ensures
            t == (TypeBase { kind: k, width: wid }),
    {
        TypeBase { kind: k, width: wid }
    }

    pub fn get_width(&self) -> (w: u32)
        ensures
            w == self.width,
    {
        self.width
    }

    /// The canonical lexeme of this type's kind.
    pub fn lexeme(&self) -> (s: String)
        ensures
            s@ == lexeme_of(self.kind),
    {
        match self.kind {
            Type::Int => "int".to_owned(),
            Type::Float => "float".to_owned(),
            Type::Char => "char".to_owned(),
            Type::Bool => "bool".to_owned(),
        }
    }

    /// Numeric promotion.  Returns the canonical promoted type, or `None`
    /// when either operand is non-numeric.
    pub fn max(p1: &TypeBase, p2: &TypeBase) -> (r: Option<TypeBase>)
        ensures
            r == promote_base(p1.kind, p2.kind),
            r is Some ==> r.unwrap().wf(),
    {
        let r = if !numeric(p1) || !numeric(p2) {
            None
        } else if p1.kind == Type::Float || p2.kind == Type::Float {
            Some(type_float())
        } else if p1.kind == Type::Int || p2.kind == Type::Int {
            Some(type_int())
        } else {
            Some(type_char())
        };
        r
    }
}

/// The canonical `int` type (width 4).
pub fn type_int() -> (t: TypeBase)
    ensures
        t == canonical(Type::Int),
{
    TypeBase { kind: Type::Int, width: 4 }
}

/// The canonical `float` type (width 8).
pub fn type_float() -> (t: TypeBase)
    ensures
        t == canonical(Type::Float),
{
    TypeBase { kind: Type::Float, width: 8 }
}

/// The canonical `char` type (width 1).
pub fn type_char() -> (t: TypeBase)
    ensures
        t == canonical(Type::Char),
{
    TypeBase { kind: Type::Char, width: 1 }
}

/// The canonical `bool` type (width 1).
pub fn type_bool() -> (t: TypeBase)
    ensures
        t == canonical(Type::Bool),
{
    TypeBase { kind: Type::Bool, width: 1 }
}

/// `true` exactly when `p` is one of the numeric kinds `int`, `float`, `char`.
pub fn numeric(p: &TypeBase) -> (r: bool)
    ensures
        r == is_numeric(p.kind),
{
    match p.kind {
        Type::Int => true,
        Type::Float => true,
        Type::Char => true,
        Type::Bool => false,
    }
}

/// Numeric promotion as a free function; the same rule as [`TypeBase::max`].
pub fn max(p1: &TypeBase, p2: &TypeBase) -> (r: Option<TypeBase>)
    ensures
        r == promote_base(p1.kind, p2.kind),
{
    TypeBase::max(p1, p2)
}

} // verus!
