//! The translation engine: expression nodes with short-circuit boolean code
//! generation via the jumping (label-target) protocol, and statement nodes
//! with control-flow code generation built on top of them.
//!
//! Every generation operation is specified exactly.  The spec functions
//! [`jumping_spec`], [`gen_spec`], [`reduce_spec`] and [`stmt_gen_spec`] give
//! the precise instruction sequence each operation appends and the precise
//! final values of the temporary and label allocators; the executable
//! operations carry `ensures` clauses equating their effect with those
//! functions.
//!
//! The jumping protocol: `e.jumping(t, f)` emits control transfers realising
//! `e`'s boolean meaning, where either label may be the sentinel 0 meaning
//! "fall through".  In particular `e.jumping(0, f)` either jumps to `f` or
//! falls through, exactly when `e` is false or true respectively — the dual
//! contract (explicit-jump-on-false, fall-through-on-true) on which the
//! materialisation protocol of boolean values relies.

use crate::emit::defines_label;
use crate::emit::emit;
use crate::emit::labels_distinct;
use crate::emit::labels_in_range;
use crate::emit::lemma_label_free;
use crate::emit::lemma_label_free1;
use crate::emit::lemma_label_singleton;
use crate::emit::lemma_labels_concat;
use crate::emit::lemma_labels_concat_defines;
use crate::emit::lemma_labels_range_concat;
use crate::emit::lemma_targets_concat;
use crate::emit::lemma_targets_discharge;
use crate::emit::lemma_targets_widen;
use crate::emit::target_of;
use crate::emit::targets_closed;
use crate::emit::emit_label;
use crate::emit::new_label;
use crate::emit::new_temp;
use crate::emit::Gen;
use crate::emit::Instr;
use crate::emit::InstrSpec;
use crate::error::Error;
use crate::lexer::renderable;
use crate::lexer::token_text;
use crate::lexer::Token;
use crate::lexer::Word;
use crate::lexer::WordBase;
use crate::lexer::word_true;
use crate::lexer::word_false;
use crate::text::temp_string;
use crate::text::temp_text;
use crate::types::canonical;
use crate::types::is_numeric;
use crate::types::promote_base;
use crate::types::type_bool;
use crate::types::type_int;
use crate::types::Type;
use crate::types::TypeBase;
use vstd::prelude::*;
use vstd::string::StringExecFns;

verus! {

/// A declared identifier: its word, its declared type, and its byte offset in
/// the enclosing function's frame.
#[derive(Debug)]
pub struct Id {
    pub word: WordBase,
    pub type_: TypeBase,
    pub offset: u32,
}

impl Clone for Id {
    fn clone(&self) -> (res: Self)
        ensures
            res == *self,
    {
        Id { word: self.word.clone(), type_: self.type_, offset: self.offset }
    }
}

impl Id {
    pub fn new(id: WordBase, p: TypeBase, b: u32) -> (r: Id)
        ensures
            r == (Id { word: id, type_: p, offset: b }),
    {
        Id { word: id, type_: p, offset: b }
    }
}

/// An expression node.  The engine's five operations — `text` (rendering),
/// type lookup, `gen`, `reduce` and `jumping` — dispatch on this union.
#[derive(Debug)]
pub enum Expr {
    /// A literal, carrying its token and type.
    Constant { op: Token, type_: TypeBase },
    /// A declared identifier.
    Id(Id),
    /// A compiler-introduced temporary `tN`.
    Temp { type_: TypeBase, number: u32 },
    /// A binary arithmetic node; its type is the promotion of its operands'.
    Arith { op: Token, left: Box<Expr>, right: Box<Expr>, type_: TypeBase },
    /// A unary arithmetic node; its type is the operand's promoted with `int`
    /// as a floor.
    Unary { op: Token, expr: Box<Expr>, type_: TypeBase },
    /// Short-circuit conjunction; both operands and the result are `bool`.
    And { op: Token, left: Box<Expr>, right: Box<Expr> },
    /// Short-circuit disjunction; both operands and the result are `bool`.
    Or { op: Token, left: Box<Expr>, right: Box<Expr> },
    /// Boolean negation.
    Not { op: Token, expr: Box<Expr> },
    /// A relational test; its operands have equal types, its result is `bool`.
    Rel { op: Token, left: Box<Expr>, right: Box<Expr> },
}

impl Clone for Expr {
    fn clone(&self) -> (res: Self)
        ensures
            res == *self,
        decreases *self,
    {
        match self {
            Expr::Constant { op, type_ } => Expr::Constant { op: op.clone(), type_: *type_ },
            Expr::Id(i) => Expr::Id(i.clone()),
            Expr::Temp { type_, number } => Expr::Temp { type_: *type_, number: *number },
            Expr::Arith { op, left, right, type_ } => Expr::Arith {
                op: op.clone(),
                left: Box::new((**left).clone()),
                right: Box::new((**right).clone()),
                type_: *type_,
            },
            Expr::Unary { op, expr, type_ } => Expr::Unary {
                op: op.clone(),
                expr: Box::new((**expr).clone()),
                type_: *type_,
            },
            Expr::And { op, left, right } => Expr::And {
                op: op.clone(),
                left: Box::new((**left).clone()),
                right: Box::new((**right).clone()),
            },
            Expr::Or { op, left, right } => Expr::Or {
                op: op.clone(),
                left: Box::new((**left).clone()),
                right: Box::new((**right).clone()),
            },
            Expr::Not { op, expr } => Expr::Not {
                op: op.clone(),
                expr: Box::new((**expr).clone()),
            },
            Expr::Rel { op, left, right } => Expr::Rel {
                op: op.clone(),
                left: Box::new((**left).clone()),
                right: Box::new((**right).clone()),
            },
        }
    }
}

/// The node count of an expression, the measure of the engine's recursion and
/// of its allocator consumption.
pub open spec fn esize(e: Expr) -> nat
    decreases e,
{
    match e {
        Expr::Constant { .. } => 1,
        Expr::Id(_) => 1,
        Expr::Temp { .. } => 1,
        Expr::Arith { left, right, .. } => 1 + esize(*left) + esize(*right),
        Expr::Unary { expr, .. } => 1 + esize(*expr),
        Expr::And { left, right, .. } => 1 + esize(*left) + esize(*right),
        Expr::Or { left, right, .. } => 1 + esize(*left) + esize(*right),
        Expr::Not { expr, .. } => 1 + esize(*expr),
        Expr::Rel { left, right, .. } => 1 + esize(*left) + esize(*right),
    }
}

/// The semantic type of an expression.  Logical nodes are `bool` by
/// construction; the others carry their type.
pub open spec fn type_spec(e: Expr) -> TypeBase {
    match e {
        Expr::Constant { type_, .. } => type_,
        Expr::Id(i) => i.type_,
        Expr::Temp { type_, .. } => type_,
        Expr::Arith { type_, .. } => type_,
        Expr::Unary { type_, .. } => type_,
        Expr::And { .. } => canonical(Type::Bool),
        Expr::Or { .. } => canonical(Type::Bool),
        Expr::Not { .. } => canonical(Type::Bool),
        Expr::Rel { .. } => canonical(Type::Bool),
    }
}

/// The canonical rendering of an expression, used as operand and test text in
/// the emitted instructions.
pub open spec fn text_spec(e: Expr) -> Seq<char>
    decreases e,
{
    match e {
        Expr::Constant { op, .. } => token_text(op),
        Expr::Id(i) => i.word.lexeme@,
        Expr::Temp { number, .. } => temp_text(number as nat),
        Expr::Arith { op, left, right, .. } => text_spec(*left) + seq![' '] + token_text(op)
            + seq![' '] + text_spec(*right),
        Expr::Unary { op, expr, .. } => token_text(op) + seq![' '] + text_spec(*expr),
        Expr::And { op, left, right } => text_spec(*left) + seq![' '] + token_text(op) + seq![' ']
            + text_spec(*right),
        Expr::Or { op, left, right } => text_spec(*left) + seq![' '] + token_text(op) + seq![' ']
            + text_spec(*right),
        Expr::Not { op, expr } => token_text(op) + seq![' '] + text_spec(*expr),
        Expr::Rel { op, left, right } => text_spec(*left) + seq![' '] + token_text(op) + seq![' ']
            + text_spec(*right),
    }
}

/// Well-formedness: every operator token is renderable and the typing
/// invariants of the data model hold — an arithmetic node's type is the
/// promotion of its operands', logical operands are `bool`, and relational
/// operands have equal kinds.
pub open spec fn wf_expr(e: Expr) -> bool
    decreases e,
{
    match e {
        Expr::Constant { op, .. } => renderable(op),
        Expr::Id(_) => true,
        Expr::Temp { .. } => true,
        Expr::Arith { op, left, right, type_ } => renderable(op) && wf_expr(*left) && wf_expr(
            *right,
        ) && Some(type_) == promote_base(type_spec(*left).kind, type_spec(*right).kind),
        Expr::Unary { op, expr, type_ } => renderable(op) && wf_expr(*expr) && Some(type_)
            == promote_base(Type::Int, type_spec(*expr).kind),
        Expr::And { op, left, right } => renderable(op) && wf_expr(*left) && wf_expr(*right)
            && type_spec(*left).kind == Type::Bool && type_spec(*right).kind == Type::Bool,
        Expr::Or { op, left, right } => renderable(op) && wf_expr(*left) && wf_expr(*right)
            && type_spec(*left).kind == Type::Bool && type_spec(*right).kind == Type::Bool,
        Expr::Not { op, expr } => renderable(op) && wf_expr(*expr) && type_spec(*expr).kind
            == Type::Bool,
        Expr::Rel { op, left, right } => renderable(op) && wf_expr(*left) && wf_expr(*right)
            && type_spec(*left).kind == type_spec(*right).kind,
    }
}

/// A literal `true`: a constant over the reserved word `true`.
pub open spec fn is_true_const(e: Expr) -> bool {
    e matches Expr::Constant { op: Token::Word(Word::Word(w)), .. } && w.lexeme@ == "true"@
}

/// A literal `false`: a constant over the reserved word `false`.
pub open spec fn is_false_const(e: Expr) -> bool {
    e matches Expr::Constant { op: Token::Word(Word::Word(w)), .. } && w.lexeme@ == "false"@
}

/// The leftmost leaf of an expression: the node its first operand token
/// built.  A parse of an operator chain preserves it, so a production's
/// result is pinned to the token that started it.
pub open spec fn leftmost_leaf(e: Expr) -> Expr
    decreases e,
{
    match e {
        Expr::Arith { left, .. } => leftmost_leaf(*left),
        Expr::Unary { expr, .. } => leftmost_leaf(*expr),
        Expr::And { left, .. } => leftmost_leaf(*left),
        Expr::Or { left, .. } => leftmost_leaf(*left),
        Expr::Not { expr, .. } => leftmost_leaf(*expr),
        Expr::Rel { left, .. } => leftmost_leaf(*left),
        _ => e,
    }
}

/// A simple operand: one that can stand directly in a three-address
/// instruction.  `reduce` always returns one of these.
pub open spec fn is_simple(e: Expr) -> bool {
    e is Constant || e is Id || e is Temp
}

/// What a jumping-protocol step does: the instructions it emits and the final
/// allocator counters.
pub struct JOut {
    pub code: Seq<InstrSpec>,
    pub temps: int,
    pub labels: int,
}

/// What a value-producing step (`gen` or `reduce`) does: the instructions it
/// emits, the text of the produced operand, and the final allocator counters.
pub struct EOut {
    pub code: Seq<InstrSpec>,
    pub text: Seq<char>,
    pub temps: int,
    pub labels: int,
}

/// The generic test emission rule: with both labels set, a conditional jump
/// to the true label then an unconditional one to the false label; with one
/// label set, a single conditional jump; with neither, nothing — the caller
/// relies on textual fall-through.
pub open spec fn emit_jumps_spec(test: Seq<char>, t: int, f: int) -> Seq<InstrSpec> {
    if t != 0 && f != 0 {
        seq![InstrSpec::Cond(test, t), InstrSpec::Goto(f)]
    } else if t != 0 {
        seq![InstrSpec::Cond(test, t)]
    } else if f != 0 {
        seq![InstrSpec::CondFalse(test, f)]
    } else {
        Seq::empty()
    }
}

/// The effect of `e.jumping(t, f)` on a context with counters `tc`, `lc`.
///
/// Constants emit a `goto` to their own label only; value-producing nodes use
/// the generic test rule on their own text; `&&` routes its left operand's
/// false exit to the common false label (allocating one when `f` is the
/// sentinel), `||` symmetrically with the true label; `!` swaps the labels;
/// a relational node reduces both operands and tests their rendering.
pub open spec fn jumping_spec(e: Expr, t: int, f: int, tc: int, lc: int) -> JOut
    decreases esize(e), 0int,
{
    match e {
        Expr::Constant { .. } => JOut {
            code: if is_true_const(e) && t != 0 {
                seq![InstrSpec::Goto(t)]
            } else if is_false_const(e) && f != 0 {
                seq![InstrSpec::Goto(f)]
            } else {
                Seq::empty()
            },
            temps: tc,
            labels: lc,
        },
        Expr::Id(_) => JOut { code: emit_jumps_spec(text_spec(e), t, f), temps: tc, labels: lc },
        Expr::Temp { .. } => JOut {
            code: emit_jumps_spec(text_spec(e), t, f),
            temps: tc,
            labels: lc,
        },
        Expr::Arith { .. } => JOut {
            code: emit_jumps_spec(text_spec(e), t, f),
            temps: tc,
            labels: lc,
        },
        Expr::Unary { .. } => JOut {
            code: emit_jumps_spec(text_spec(e), t, f),
            temps: tc,
            labels: lc,
        },
        Expr::And { left, right, .. } => {
            let lab = if f != 0 {
                f
            } else {
                lc + 1
            };
            let lc1 = if f != 0 {
                lc
            } else {
                lc + 1
            };
            let a = jumping_spec(*left, 0, lab, tc, lc1);
            let b = jumping_spec(*right, t, f, a.temps, a.labels);
            JOut {
                code: a.code + b.code + if f == 0 {
                    seq![InstrSpec::Label(lab)]
                } else {
                    Seq::empty()
                },
                temps: b.temps,
                labels: b.labels,
            }
        },
        Expr::Or { left, right, .. } => {
            let lab = if t != 0 {
                t
            } else {
                lc + 1
            };
            let lc1 = if t != 0 {
                lc
            } else {
                lc + 1
            };
            let a = jumping_spec(*left, lab, 0, tc, lc1);
            let b = jumping_spec(*right, t, f, a.temps, a.labels);
            JOut {
                code: a.code + b.code + if t == 0 {
                    seq![InstrSpec::Label(lab)]
                } else {
                    Seq::empty()
                },
                temps: b.temps,
                labels: b.labels,
            }
        },
        Expr::Not { expr, .. } => jumping_spec(*expr, f, t, tc, lc),
        Expr::Rel { op, left, right } => {
            let a = reduce_spec(*left, tc, lc);
            let b = reduce_spec(*right, a.temps, a.labels);
            JOut {
                code: a.code + b.code + emit_jumps_spec(
                    a.text + seq![' '] + token_text(op) + seq![' '] + b.text,
                    t,
                    f,
                ),
                temps: b.temps,
                labels: b.labels,
            }
        },
    }
}

/// The effect of `e.gen()`: the value-context form of `e`.
///
/// Simple operands emit nothing; arithmetic nodes reduce their operands and
/// rebuild their text over the reduced operands (this is what flattens nested
/// expressions into straight-line code); logical nodes materialise their
/// boolean value through a fresh temporary, a fresh false label and a fresh
/// after label, relying on the dual contract of `jumping(0, f)`.
pub open spec fn gen_spec(e: Expr, tc: int, lc: int) -> EOut
    decreases esize(e), 2int,
{
    match e {
        Expr::Constant { .. } => EOut {
            code: Seq::empty(),
            text: text_spec(e),
            temps: tc,
            labels: lc,
        },
        Expr::Id(_) => EOut { code: Seq::empty(), text: text_spec(e), temps: tc, labels: lc },
        Expr::Temp { .. } => EOut { code: Seq::empty(), text: text_spec(e), temps: tc, labels: lc },
        Expr::Arith { op, left, right, .. } => {
            let a = reduce_spec(*left, tc, lc);
            let b = reduce_spec(*right, a.temps, a.labels);
            EOut {
                code: a.code + b.code,
                text: a.text + seq![' '] + token_text(op) + seq![' '] + b.text,
                temps: b.temps,
                labels: b.labels,
            }
        },
        Expr::Unary { op, expr, .. } => {
            let a = reduce_spec(*expr, tc, lc);
            EOut {
                code: a.code,
                text: token_text(op) + seq![' '] + a.text,
                temps: a.temps,
                labels: a.labels,
            }
        },
        _ => logical_gen_spec(e, tc, lc),
    }
}

/// The materialisation protocol shared by the logical nodes: allocate a false
/// label `f`, an after label `a` and a boolean temporary `t`; emit
/// `jumping(0, f)`, then `t = true`, `goto a`, `f:`, `t = false`, `a:`; the
/// produced operand is `t`.
pub open spec fn logical_gen_spec(e: Expr, tc: int, lc: int) -> EOut
    decreases esize(e), 1int,
{
    let j = jumping_spec(e, 0, lc + 1, tc + 1, lc + 2);
    EOut {
        code: j.code + seq![
            InstrSpec::Assign(temp_text((tc + 1) as nat), "true"@),
            InstrSpec::Goto(lc + 2),
            InstrSpec::Label(lc + 1),
            InstrSpec::Assign(temp_text((tc + 1) as nat), "false"@),
            InstrSpec::Label(lc + 2),
        ],
        text: temp_text((tc + 1) as nat),
        temps: j.temps,
        labels: j.labels,
    }
}

/// The effect of `e.reduce()`: force `e` into a single simple operand.
///
/// A simple operand is returned as it is; an arithmetic node is generated and
/// then materialised into a fresh temporary by `tN = <gen text>`; a logical
/// node's `gen` already produces a temporary, so nothing more is emitted.
pub open spec fn reduce_spec(e: Expr, tc: int, lc: int) -> EOut
    decreases esize(e), 3int,
{
    match e {
        Expr::Constant { .. } => EOut {
            code: Seq::empty(),
            text: text_spec(e),
            temps: tc,
            labels: lc,
        },
        Expr::Id(_) => EOut { code: Seq::empty(), text: text_spec(e), temps: tc, labels: lc },
        Expr::Temp { .. } => EOut { code: Seq::empty(), text: text_spec(e), temps: tc, labels: lc },
        Expr::Arith { .. } => {
            let g = gen_spec(e, tc, lc);
            EOut {
                code: g.code + seq![InstrSpec::Assign(temp_text((g.temps + 1) as nat), g.text)],
                text: temp_text((g.temps + 1) as nat),
                temps: g.temps + 1,
                labels: g.labels,
            }
        },
        Expr::Unary { .. } => {
            let g = gen_spec(e, tc, lc);
            EOut {
                code: g.code + seq![InstrSpec::Assign(temp_text((g.temps + 1) as nat), g.text)],
                text: temp_text((g.temps + 1) as nat),
                temps: g.temps + 1,
                labels: g.labels,
            }
        },
        _ => gen_spec(e, tc, lc),
    }
}

/// Allocator bounds of a jumping step: counters never decrease, at most
/// `esize(e) - 1` temporaries and `3 * esize(e) - 2` labels are consumed.
pub proof fn lemma_jumping_bounds(e: Expr, t: int, f: int, tc: int, lc: int)
    ensures
        tc <= jumping_spec(e, t, f, tc, lc).temps <= tc + esize(e) - 1,
        lc <= jumping_spec(e, t, f, tc, lc).labels <= lc + 3 * esize(e) - 2,
    decreases esize(e), 0int,
{
    match e {
        Expr::And { left, right, .. } => {
            let lab = if f != 0 {
                f
            } else {
                lc + 1
            };
            let lc1 = if f != 0 {
                lc
            } else {
                lc + 1
            };
            let a = jumping_spec(*left, 0, lab, tc, lc1);
            lemma_jumping_bounds(*left, 0, lab, tc, lc1);
            lemma_jumping_bounds(*right, t, f, a.temps, a.labels);
        },
        Expr::Or { left, right, .. } => {
            let lab = if t != 0 {
                t
            } else {
                lc + 1
            };
            let lc1 = if t != 0 {
                lc
            } else {
                lc + 1
            };
            let a = jumping_spec(*left, lab, 0, tc, lc1);
            lemma_jumping_bounds(*left, lab, 0, tc, lc1);
            lemma_jumping_bounds(*right, t, f, a.temps, a.labels);
        },
        Expr::Not { expr, .. } => {
            lemma_jumping_bounds(*expr, f, t, tc, lc);
        },
        Expr::Rel { left, right, .. } => {
            let a = reduce_spec(*left, tc, lc);
            lemma_reduce_bounds(*left, tc, lc);
            lemma_reduce_bounds(*right, a.temps, a.labels);
        },
        _ => {},
    }
}

/// Allocator bounds of a `gen` step: counters never decrease, at most
/// `esize(e)` temporaries (`esize(e) - 1` for arithmetic nodes) and
/// `3 * esize(e)` labels are consumed.
pub proof fn lemma_gen_bounds(e: Expr, tc: int, lc: int)
    ensures
        tc <= gen_spec(e, tc, lc).temps <= tc + esize(e),
        lc <= gen_spec(e, tc, lc).labels <= lc + 3 * esize(e),
        (e is Arith || e is Unary) ==> gen_spec(e, tc, lc).temps <= tc + esize(e) - 1,
    decreases esize(e), 2int,
{
    match e {
        Expr::Arith { left, right, .. } => {
            let a = reduce_spec(*left, tc, lc);
            lemma_reduce_bounds(*left, tc, lc);
            lemma_reduce_bounds(*right, a.temps, a.labels);
        },
        Expr::Unary { expr, .. } => {
            lemma_reduce_bounds(*expr, tc, lc);
        },
        Expr::And { .. } => {
            lemma_jumping_bounds(e, 0, lc + 1, tc + 1, lc + 2);
        },
        Expr::Or { .. } => {
            lemma_jumping_bounds(e, 0, lc + 1, tc + 1, lc + 2);
        },
        Expr::Not { .. } => {
            lemma_jumping_bounds(e, 0, lc + 1, tc + 1, lc + 2);
        },
        Expr::Rel { .. } => {
            lemma_jumping_bounds(e, 0, lc + 1, tc + 1, lc + 2);
        },
        _ => {},
    }
}

/// Allocator bounds of a `reduce` step: counters never decrease, at most
/// `esize(e)` temporaries and `3 * esize(e)` labels are consumed.
pub proof fn lemma_reduce_bounds(e: Expr, tc: int, lc: int)
    ensures
        tc <= reduce_spec(e, tc, lc).temps <= tc + esize(e),
        lc <= reduce_spec(e, tc, lc).labels <= lc + 3 * esize(e),
    decreases esize(e), 3int,
{
    match e {
        Expr::Arith { .. } => {
            lemma_gen_bounds(e, tc, lc);
        },
        Expr::Unary { .. } => {
            lemma_gen_bounds(e, tc, lc);
        },
        Expr::And { .. } => {
            lemma_gen_bounds(e, tc, lc);
        },
        Expr::Or { .. } => {
            lemma_gen_bounds(e, tc, lc);
        },
        Expr::Not { .. } => {
            lemma_gen_bounds(e, tc, lc);
        },
        Expr::Rel { .. } => {
            lemma_gen_bounds(e, tc, lc);
        },
        _ => {},
    }
}

/// A constant over the reserved word `true`, typed `bool`.
pub fn constant_true() -> (e: Expr)
    ensures
        is_true_const(e),
        !is_false_const(e),
        wf_expr(e),
        type_spec(e).kind == Type::Bool,
{
    let e = Expr::Constant { op: Token::Word(Word::Word(word_true())), type_: type_bool() };
    proof {
        reveal_strlit("true");
        reveal_strlit("false");
        assert(!("true"@ =~= "false"@)) by {
            assert("true"@.len() == 4);
            assert("false"@.len() == 5);
        }
    }
    e
}

/// A constant over the reserved word `false`, typed `bool`.
pub fn constant_false() -> (e: Expr)
    ensures
        is_false_const(e),
        !is_true_const(e),
        wf_expr(e),
        type_spec(e).kind == Type::Bool,
{
    let e = Expr::Constant { op: Token::Word(Word::Word(word_false())), type_: type_bool() };
    proof {
        reveal_strlit("true");
        reveal_strlit("false");
        assert(!("true"@ =~= "false"@)) by {
            assert("true"@.len() == 4);
            assert("false"@.len() == 5);
        }
    }
    e
}

impl Expr {
    /// A literal with its token and type.
    pub fn constant(tok: Token, p: TypeBase) -> (e: Expr)
        requires
            renderable(tok),
        ensures
            e == (Expr::Constant { op: tok, type_: p }),
            wf_expr(e),
    {
        Expr::Constant { op: tok, type_: p }
    }

    /// A binary arithmetic node over `x1` and `x2`.  Succeeds exactly when
    /// both operand types are numeric; the node's type is their promotion.
    /// A non-numeric operand is a type error at `line`.
    pub fn arith(tok: Token, x1: Expr, x2: Expr, line: u32) -> (r: Result<Expr, Error>)
        requires
            renderable(tok),
            wf_expr(x1),
            wf_expr(x2),
        ensures
            match r {
                Ok(e) => (e matches Expr::Arith { op: o, left: l, right: rr, type_: ty }
                    && o == tok && *l == x1 && *rr == x2 && ty == promote_base(
                    type_spec(x1).kind,
                    type_spec(x2).kind,
                ).unwrap()) && wf_expr(e),
                Err(er) => er == Error::TypeError(line),
            },
            r is Ok <==> promote_base(type_spec(x1).kind, type_spec(x2).kind) is Some,
    {
        match TypeBase::max(&x1.get_type(), &x2.get_type()) {
            Some(p) => Ok(
                Expr::Arith { op: tok, left: Box::new(x1), right: Box::new(x2), type_: p },
            ),
            None => Err(Error::TypeError(line)),
        }
    }

    /// A unary arithmetic node over `x`.  Succeeds exactly when the operand
    /// type is numeric; the node's type is the operand's promoted with `int`
    /// as a floor (negating a `char` yields an `int`).
    pub fn unary(tok: Token, x: Expr, line: u32) -> (r: Result<Expr, Error>)
        requires
            renderable(tok),
            wf_expr(x),
        ensures
            match r {
                Ok(e) => (e matches Expr::Unary { op: o, expr: ex, type_: ty } && o == tok
                    && *ex == x && ty == promote_base(Type::Int, type_spec(x).kind).unwrap())
                    && wf_expr(e),
                Err(er) => er == Error::TypeError(line),
            },
            r is Ok <==> is_numeric(type_spec(x).kind),
    {
        match TypeBase::max(&type_int(), &x.get_type()) {
            Some(p) => Ok(Expr::Unary { op: tok, expr: Box::new(x), type_: p }),
            None => Err(Error::TypeError(line)),
        }
    }

    /// A short-circuit conjunction.  Both operands must be `bool`, else a
    /// type error at `line`.
    pub fn and(tok: Token, x1: Expr, x2: Expr, line: u32) -> (r: Result<Expr, Error>)
        requires
            renderable(tok),
            wf_expr(x1),
            wf_expr(x2),
        ensures
            match r {
                Ok(e) => (e matches Expr::And { op: o, left: l, right: rr } && o == tok && *l
                    == x1 && *rr == x2) && wf_expr(e),
                Err(er) => er == Error::TypeError(line),
            },
            r is Ok <==> (type_spec(x1).kind == Type::Bool && type_spec(x2).kind == Type::Bool),
    {
        if matches!(x1.get_type().kind, Type::Bool) && matches!(x2.get_type().kind, Type::Bool) {
            Ok(Expr::And { op: tok, left: Box::new(x1), right: Box::new(x2) })
        } else {
            Err(Error::TypeError(line))
        }
    }

    /// A short-circuit disjunction.  Both operands must be `bool`, else a
    /// type error at `line`.
    pub fn or(tok: Token, x1: Expr, x2: Expr, line: u32) -> (r: Result<Expr, Error>)
        requires
            renderable(tok),
            wf_expr(x1),
            wf_expr(x2),
        ensures
            match r {
                Ok(e) => (e matches Expr::Or { op: o, left: l, right: rr } && o == tok && *l
                    == x1 && *rr == x2) && wf_expr(e),
                Err(er) => er == Error::TypeError(line),
            },
            r is Ok <==> (type_spec(x1).kind == Type::Bool && type_spec(x2).kind == Type::Bool),
    {
        if matches!(x1.get_type().kind, Type::Bool) && matches!(x2.get_type().kind, Type::Bool) {
            Ok(Expr::Or { op: tok, left: Box::new(x1), right: Box::new(x2) })
        } else {
            Err(Error::TypeError(line))
        }
    }

    /// A boolean negation.  The operand must be `bool`, else a type error at
    /// `line`.
    pub fn not(tok: Token, x: Expr, line: u32) -> (r: Result<Expr, Error>)
        requires
            renderable(tok),
            wf_expr(x),
        ensures
            match r {
                Ok(e) => (e matches Expr::Not { op: o, expr: ex } && o == tok && *ex == x)
                    && wf_expr(e),
                Err(er) => er == Error::TypeError(line),
            },
            r is Ok <==> type_spec(x).kind == Type::Bool,
    {
        if matches!(x.get_type().kind, Type::Bool) {
            Ok(Expr::Not { op: tok, expr: Box::new(x) })
        } else {
            Err(Error::TypeError(line))
        }
    }

    /// A relational test.  The operand types must be equal, else a type error
    /// at `line`.
    pub fn rel(tok: Token, x1: Expr, x2: Expr, line: u32) -> (r: Result<Expr, Error>)
        requires
            renderable(tok),
            wf_expr(x1),
            wf_expr(x2),
        ensures
            match r {
                Ok(e) => (e matches Expr::Rel { op: o, left: l, right: rr } && o == tok && *l
                    == x1 && *rr == x2) && wf_expr(e),
                Err(er) => er == Error::TypeError(line),
            },
            r is Ok <==> type_spec(x1).kind == type_spec(x2).kind,
    {
        if x1.get_type().kind == x2.get_type().kind {
            Ok(Expr::Rel { op: tok, left: Box::new(x1), right: Box::new(x2) })
        } else {
            Err(Error::TypeError(line))
        }
    }

    /// The expression's semantic type.
    pub fn get_type(&self) -> (t: TypeBase)
        ensures
            t == type_spec(*self),
    {
        match self {
            Expr::Constant { type_, .. } => *type_,
            Expr::Id(i) => i.type_,
            Expr::Temp { type_, .. } => *type_,
            Expr::Arith { type_, .. } => *type_,
            Expr::Unary { type_, .. } => *type_,
            _ => type_bool(),
        }
    }

    /// The canonical rendering of the expression.
    pub fn to_string(&self) -> (s: String)
        requires
            wf_expr(*self),
        ensures
            s@ == text_spec(*self),
        decreases esize(*self), 0int,
    {
        match self {
            Expr::Constant { op, .. } => op.to_string(),
            Expr::Id(i) => i.word.lexeme.clone(),
            Expr::Temp { number, .. } => temp_string(*number),
            Expr::Arith { op, left, right, .. } => infix_text(left, op, right),
            Expr::Unary { op, expr, .. } => prefix_text(op, expr),
            Expr::And { op, left, right } => infix_text(left, op, right),
            Expr::Or { op, left, right } => infix_text(left, op, right),
            Expr::Not { op, expr } => prefix_text(op, expr),
            Expr::Rel { op, left, right } => infix_text(left, op, right),
        }
    }

    /// The generic test emission rule over a rendered test `T`: both labels
    /// set emits `if T goto L<t>` then `goto L<f>` (exactly 2 instructions);
    /// exactly one label set emits the one conditional jump (exactly 1);
    /// neither set emits nothing.
    pub fn emit_jumps(&self, g: &mut Gen, test: String, t: u32, f: u32)
        ensures
            final(g)@.code == old(g)@.code + emit_jumps_spec(test@, t as int, f as int),
            final(g)@.temps == old(g)@.temps,
            final(g)@.labels == old(g)@.labels,
            t != 0 && f != 0 ==> final(g)@.code.len() == old(g)@.code.len() + 2,
            (t != 0 && f == 0) || (t == 0 && f != 0) ==> final(g)@.code.len() == old(
                g,
            )@.code.len() + 1,
            t == 0 && f == 0 ==> final(g)@.code.len() == old(g)@.code.len(),
    {
        if t != 0 && f != 0 {
            emit(g, Instr::Cond(test, t));
            emit(g, Instr::Goto(f));
        } else if t != 0 {
            emit(g, Instr::Cond(test, t));
        } else if f != 0 {
            emit(g, Instr::CondFalse(test, f));
        }
        proof {
            assert(g@.code =~= old(g)@.code + emit_jumps_spec(test@, t as int, f as int));
        }
    }

    /// Emits conditional control transfers realising the expression's boolean
    /// meaning: control reaches `L<t>` exactly when the expression is true and
    /// `L<f>` exactly when it is false, with the sentinel 0 standing for
    /// fall-through.  The emitted instructions and the allocator evolution are
    /// exactly those of [`jumping_spec`].
    pub fn jumping(&self, g: &mut Gen, t: u32, f: u32)
        requires
            wf_expr(*self),
            old(g)@.temps + esize(*self) - 1 <= u32::MAX,
            old(g)@.labels + 3 * esize(*self) - 2 <= u32::MAX,
        ensures
            final(g)@.code == old(g)@.code + jumping_spec(
                *self,
                t as int,
                f as int,
                old(g)@.temps,
                old(g)@.labels,
            ).code,
            final(g)@.temps == jumping_spec(
                *self,
                t as int,
                f as int,
                old(g)@.temps,
                old(g)@.labels,
            ).temps,
            final(g)@.labels == jumping_spec(
                *self,
                t as int,
                f as int,
                old(g)@.temps,
                old(g)@.labels,
            ).labels,
        decreases esize(*self), 0int,
    {
        let ghost j = jumping_spec(*self, t as int, f as int, old(g)@.temps, old(g)@.labels);
        match self {
            Expr::Constant { op, .. } => {
                let mut emitted = false;
                match op {
                    Token::Word(w) => match w {
                        Word::Word(base) => {
                            if t != 0 && base.lexeme == "true".to_owned() {
                                emit(g, Instr::Goto(t));
                                emitted = true;
                            } else if f != 0 && base.lexeme == "false".to_owned() {
                                emit(g, Instr::Goto(f));
                                emitted = true;
                            }
                        },
                        _ => {},
                    },
                    _ => {},
                }
                proof {
                    assert(g@.code =~= old(g)@.code + j.code);
                }
            },
            Expr::Id(_) => {
                let text = self.to_string();
                self.emit_jumps(g, text, t, f);
            },
            Expr::Temp { .. } => {
                let text = self.to_string();
                self.emit_jumps(g, text, t, f);
            },
            Expr::Arith { .. } => {
                let text = self.to_string();
                self.emit_jumps(g, text, t, f);
            },
            Expr::Unary { .. } => {
                let text = self.to_string();
                self.emit_jumps(g, text, t, f);
            },
            Expr::And { left, right, .. } => {
                let label: u32 = if f != 0 {
                    f
                } else {
                    new_label(g)
                };
                proof {
                    lemma_jumping_bounds(**left, 0, label as int, g@.temps, g@.labels);
                }
                left.jumping(g, 0, label);
                proof {
                    lemma_jumping_bounds(**right, t as int, f as int, g@.temps, g@.labels);
                }
                right.jumping(g, t, f);
                if f == 0 {
                    emit_label(g, label);
                }
                proof {
                    assert(g@.code =~= old(g)@.code + j.code);
                }
            },
            Expr::Or { left, right, .. } => {
                let label: u32 = if t != 0 {
                    t
                } else {
                    new_label(g)
                };
                proof {
                    lemma_jumping_bounds(**left, label as int, 0, g@.temps, g@.labels);
                }
                left.jumping(g, label, 0);
                proof {
                    lemma_jumping_bounds(**right, t as int, f as int, g@.temps, g@.labels);
                }
                right.jumping(g, t, f);
                if t == 0 {
                    emit_label(g, label);
                }
                proof {
                    assert(g@.code =~= old(g)@.code + j.code);
                }
            },
            Expr::Not { expr, .. } => {
                expr.jumping(g, f, t);
            },
            Expr::Rel { op, left, right } => {
                proof {
                    lemma_reduce_bounds(**left, g@.temps, g@.labels);
                }
                let a = left.reduce(g);
                proof {
                    lemma_reduce_bounds(**right, g@.temps, g@.labels);
                }
                let b = right.reduce(g);
                let mut test = a.to_string();
                test.append(" ");
                let op_text = op.to_string();
                test.append(op_text.as_str());
                test.append(" ");
                let bs = b.to_string();
                test.append(bs.as_str());
                proof {
                    reveal_strlit(" ");
                    assert(" "@ =~= seq![' ']);
                }
                self.emit_jumps(g, test, t, f);
                proof {
                    assert(g@.code =~= old(g)@.code + j.code);
                }
            },
        }
    }

    /// Returns an equivalent expression with subexpressions recursively
    /// reduced — the value-context form, used when a value rather than a
    /// branch is needed.  Emissions, counters, the result's text and its type
    /// are exactly those of [`gen_spec`].
    pub fn gen(&self, g: &mut Gen) -> (r: Expr)
        requires
            wf_expr(*self),
            old(g)@.temps + esize(*self) <= u32::MAX,
            old(g)@.labels + 3 * esize(*self) <= u32::MAX,
        ensures
            final(g)@.code == old(g)@.code + gen_spec(*self, old(g)@.temps, old(g)@.labels).code,
            final(g)@.temps == gen_spec(*self, old(g)@.temps, old(g)@.labels).temps,
            final(g)@.labels == gen_spec(*self, old(g)@.temps, old(g)@.labels).labels,
            text_spec(r) == gen_spec(*self, old(g)@.temps, old(g)@.labels).text,
            type_spec(r) == type_spec(*self),
            wf_expr(r),
            is_simple(*self) ==> r == *self,
            *self matches Expr::Arith { op: o, left: l0, right: r0, .. } ==> (r matches
                Expr::Arith { op: o2, left: l1, right: r1, .. } && o2 == o && is_simple(*l1)
                && is_simple(*r1) && type_spec(*l1) == type_spec(*l0) && type_spec(*r1)
                == type_spec(*r0) && text_spec(*l1) == reduce_spec(
                *l0,
                old(g)@.temps,
                old(g)@.labels,
            ).text && text_spec(*r1) == reduce_spec(
                *r0,
                reduce_spec(*l0, old(g)@.temps, old(g)@.labels).temps,
                reduce_spec(*l0, old(g)@.temps, old(g)@.labels).labels,
            ).text),
            *self matches Expr::Unary { op: o, expr: x0, .. } ==> (r matches Expr::Unary {
                op: o2,
                expr: x1,
                ..
            } && o2 == o && is_simple(*x1) && type_spec(*x1) == type_spec(*x0) && text_spec(*x1)
                == reduce_spec(*x0, old(g)@.temps, old(g)@.labels).text),
            !is_simple(*self) && !(*self is Arith) && !(*self is Unary) ==> r is Temp,
        decreases esize(*self), 2int,
    {
        let ghost gout = gen_spec(*self, old(g)@.temps, old(g)@.labels);
        match self {
            Expr::Constant { .. } => {
                let r = self.clone();
                proof {
                    assert(g@.code =~= old(g)@.code + gout.code);
                }
                r
            },
            Expr::Id(_) => {
                let r = self.clone();
                proof {
                    assert(g@.code =~= old(g)@.code + gout.code);
                }
                r
            },
            Expr::Temp { .. } => {
                let r = self.clone();
                proof {
                    assert(g@.code =~= old(g)@.code + gout.code);
                }
                r
            },
            Expr::Arith { op, left, right, type_ } => {
                proof {
                    lemma_reduce_bounds(**left, g@.temps, g@.labels);
                }
                let a = left.reduce(g);
                proof {
                    lemma_reduce_bounds(**right, g@.temps, g@.labels);
                }
                let b = right.reduce(g);
                let r = Expr::Arith {
                    op: op.clone(),
                    left: Box::new(a),
                    right: Box::new(b),
                    type_: *type_,
                };
                proof {
                    assert(g@.code =~= old(g)@.code + gout.code);
                }
                r
            },
            Expr::Unary { op, expr, type_ } => {
                proof {
                    lemma_reduce_bounds(**expr, g@.temps, g@.labels);
                }
                let a = expr.reduce(g);
                Expr::Unary { op: op.clone(), expr: Box::new(a), type_: *type_ }
            },
            _ => self.logical_gen(g),
        }
    }

    /// The materialisation protocol: assigns the expression's boolean value
    /// into a fresh temporary through a fresh false label and after label,
    /// and returns that temporary.
    fn logical_gen(&self, g: &mut Gen) -> (r: Expr)
        requires
            wf_expr(*self),
            !is_simple(*self),
            !(*self is Arith),
            !(*self is Unary),
            old(g)@.temps + esize(*self) <= u32::MAX,
            old(g)@.labels + 3 * esize(*self) <= u32::MAX,
        ensures
            final(g)@.code == old(g)@.code + logical_gen_spec(
                *self,
                old(g)@.temps,
                old(g)@.labels,
            ).code,
            final(g)@.temps == logical_gen_spec(*self, old(g)@.temps, old(g)@.labels).temps,
            final(g)@.labels == logical_gen_spec(*self, old(g)@.temps, old(g)@.labels).labels,
            text_spec(r) == logical_gen_spec(*self, old(g)@.temps, old(g)@.labels).text,
            type_spec(r) == canonical(Type::Bool),
            wf_expr(r),
            r is Temp,
        decreases esize(*self), 1int,
    {
        let ghost lg = logical_gen_spec(*self, old(g)@.temps, old(g)@.labels);
        let f = new_label(g);
        let a_lab = new_label(g);
        let tnum = new_temp(g);
        proof {
            lemma_jumping_bounds(*self, 0, f as int, g@.temps, g@.labels);
        }
        self.jumping(g, 0, f);
        let tname = temp_string(tnum);
        emit(g, Instr::Assign(tname.clone(), "true".to_owned()));
        emit(g, Instr::Goto(a_lab));
        emit_label(g, f);
        emit(g, Instr::Assign(tname, "false".to_owned()));
        emit_label(g, a_lab);
        let r = Expr::Temp { type_: type_bool(), number: tnum };
        proof {
            assert(g@.code =~= old(g)@.code + lg.code);
        }
        r
    }

    /// Forces the expression into a single simple operand (a constant, an
    /// identifier or a temporary), emitting `tN = <gen text>` for an
    /// arithmetic node.  Emissions, counters, the operand's text and its type
    /// are exactly those of [`reduce_spec`].
    pub fn reduce(&self, g: &mut Gen) -> (r: Expr)
        requires
            wf_expr(*self),
            old(g)@.temps + esize(*self) <= u32::MAX,
            old(g)@.labels + 3 * esize(*self) <= u32::MAX,
        ensures
            final(g)@.code == old(g)@.code + reduce_spec(
                *self,
                old(g)@.temps,
                old(g)@.labels,
            ).code,
            final(g)@.temps == reduce_spec(*self, old(g)@.temps, old(g)@.labels).temps,
            final(g)@.labels == reduce_spec(*self, old(g)@.temps, old(g)@.labels).labels,
            text_spec(r) == reduce_spec(*self, old(g)@.temps, old(g)@.labels).text,
            type_spec(r) == type_spec(*self),
            wf_expr(r),
            is_simple(r),
            is_simple(*self) ==> r == *self,
            !is_simple(*self) ==> r is Temp,
        decreases esize(*self), 3int,
    {
        let ghost rout = reduce_spec(*self, old(g)@.temps, old(g)@.labels);
        match self {
            Expr::Constant { .. } => {
                let r = self.clone();
                proof {
                    assert(g@.code =~= old(g)@.code + rout.code);
                }
                r
            },
            Expr::Id(_) => {
                let r = self.clone();
                proof {
                    assert(g@.code =~= old(g)@.code + rout.code);
                }
                r
            },
            Expr::Temp { .. } => {
                let r = self.clone();
                proof {
                    assert(g@.code =~= old(g)@.code + rout.code);
                }
                r
            },
            Expr::Arith { .. } => {
                proof {
                    lemma_gen_bounds(*self, g@.temps, g@.labels);
                }
                let x = self.gen(g);
                let tnum = new_temp(g);
                let tname = temp_string(tnum);
                let xs = x.to_string();
                emit(g, Instr::Assign(tname, xs));
                let r = Expr::Temp { type_: self.get_type(), number: tnum };
                proof {
                    assert(g@.code =~= old(g)@.code + rout.code);
                }
                r
            },
            Expr::Unary { .. } => {
                proof {
                    lemma_gen_bounds(*self, g@.temps, g@.labels);
                }
                let x = self.gen(g);
                let tnum = new_temp(g);
                let tname = temp_string(tnum);
                let xs = x.to_string();
                emit(g, Instr::Assign(tname, xs));
                let r = Expr::Temp { type_: self.get_type(), number: tnum };
                proof {
                    assert(g@.code =~= old(g)@.code + rout.code);
                }
                r
            },
            _ => self.logical_gen(g),
        }
    }
}

/// A statement node.  Code generation follows the contract
/// `gen(begin, after, break_target)`: control reaches the statement at
/// `begin` (already emitted by the caller) and must, on normal completion,
/// transfer to `after` by falling through or jumping; `break_target` is used
/// only by `Break` and replaced by a `While` with its own after label.
#[derive(Debug)]
pub enum Stmt {
    /// The empty statement; emits nothing.
    Null,
    /// `break`: jumps to the after label of the enclosing loop.  Carries the
    /// placeholder id of that loop, assigned by the parser's loop-context
    /// stack.
    Break { loop_id: u32 },
    /// Two statements in sequence.
    Sequence { stmt1: Box<Stmt>, stmt2: Box<Stmt> },
    /// An assignment of an expression's value to a declared identifier.
    Assign { id: Id, expr: Expr },
    /// A one-armed conditional.
    If { cond: Expr, body: Box<Stmt> },
    /// A two-armed conditional.
    IfElse { cond: Expr, then_part: Box<Stmt>, else_part: Box<Stmt> },
    /// A guarded loop.
    While { cond: Expr, body: Box<Stmt> },
}

/// The node count of a statement, counting its expressions' nodes too; the
/// measure of the statement engine's recursion and allocator consumption.
pub open spec fn ssize(s: Stmt) -> nat
    decreases s,
{
    match s {
        Stmt::Null => 1,
        Stmt::Break { .. } => 1,
        Stmt::Sequence { stmt1, stmt2 } => 1 + ssize(*stmt1) + ssize(*stmt2),
        Stmt::Assign { expr, .. } => 1 + esize(expr),
        Stmt::If { cond, body } => 1 + esize(cond) + ssize(*body),
        Stmt::IfElse { cond, then_part, else_part } => 1 + esize(cond) + ssize(*then_part) + ssize(
            *else_part,
        ),
        Stmt::While { cond, body } => 1 + esize(cond) + ssize(*body),
    }
}

/// The assignment compatibility rule: numeric to numeric, or `bool` to
/// `bool`.
pub open spec fn assign_compatible(target: Type, value: Type) -> bool {
    (is_numeric(target) && is_numeric(value)) || (target == Type::Bool && value == Type::Bool)
}

/// Well-formedness of a statement tree: every condition is a well-formed
/// `bool` expression and every assignment is compatible.
pub open spec fn wf_stmt(s: Stmt) -> bool
    decreases s,
{
    match s {
        Stmt::Null => true,
        Stmt::Break { .. } => true,
        Stmt::Sequence { stmt1, stmt2 } => wf_stmt(*stmt1) && wf_stmt(*stmt2),
        Stmt::Assign { id, expr } => wf_expr(expr) && assign_compatible(
            id.type_.kind,
            type_spec(expr).kind,
        ),
        Stmt::If { cond, body } => wf_expr(cond) && type_spec(cond).kind == Type::Bool && wf_stmt(
            *body,
        ),
        Stmt::IfElse { cond, then_part, else_part } => wf_expr(cond) && type_spec(cond).kind
            == Type::Bool && wf_stmt(*then_part) && wf_stmt(*else_part),
        Stmt::While { cond, body } => wf_expr(cond) && type_spec(cond).kind == Type::Bool
            && wf_stmt(*body),
    }
}

/// The effect of `s.gen(b, a, brk)` on a context with counters `tc`, `lc`.
///
/// Sequencing skips empty statements and threads an intermediate label
/// between non-empty ones; an assignment emits its value's `gen` code and one
/// assignment; a conditional tests with fall-through-on-true and skip-to-
/// `after`-on-false; a loop re-tests its guard at `begin` when an iteration
/// completes, and hands its own `after` to its body as the break target.
pub open spec fn stmt_gen_spec(s: Stmt, b: int, a: int, brk: int, tc: int, lc: int) -> JOut
    decreases ssize(s),
{
    match s {
        Stmt::Null => JOut { code: Seq::empty(), temps: tc, labels: lc },
        Stmt::Break { .. } => JOut { code: seq![InstrSpec::Goto(brk)], temps: tc, labels: lc },
        Stmt::Sequence { stmt1, stmt2 } => {
            if *stmt1 is Null {
                stmt_gen_spec(*stmt2, b, a, brk, tc, lc)
            } else if *stmt2 is Null {
                stmt_gen_spec(*stmt1, b, a, brk, tc, lc)
            } else {
                let lab = lc + 1;
                let c1 = stmt_gen_spec(*stmt1, b, lab, brk, tc, lc + 1);
                let c2 = stmt_gen_spec(*stmt2, lab, a, brk, c1.temps, c1.labels);
                JOut {
                    code: c1.code + seq![InstrSpec::Label(lab)] + c2.code,
                    temps: c2.temps,
                    labels: c2.labels,
                }
            }
        },
        Stmt::Assign { id, expr } => {
            let gexp = gen_spec(expr, tc, lc);
            JOut {
                code: gexp.code + seq![InstrSpec::Assign(id.word.lexeme@, gexp.text)],
                temps: gexp.temps,
                labels: gexp.labels,
            }
        },
        Stmt::If { cond, body } => {
            let lab = lc + 1;
            let j = jumping_spec(cond, 0, a, tc, lc + 1);
            let sb = stmt_gen_spec(*body, lab, a, brk, j.temps, j.labels);
            JOut {
                code: j.code + seq![InstrSpec::Label(lab)] + sb.code,
                temps: sb.temps,
                labels: sb.labels,
            }
        },
        Stmt::IfElse { cond, then_part, else_part } => {
            let l1 = lc + 1;
            let l2 = lc + 2;
            let j = jumping_spec(cond, 0, l2, tc, lc + 2);
            let s1 = stmt_gen_spec(*then_part, l1, a, brk, j.temps, j.labels);
            let s2 = stmt_gen_spec(*else_part, l2, a, brk, s1.temps, s1.labels);
            JOut {
                code: j.code + seq![InstrSpec::Label(l1)] + s1.code + seq![
                    InstrSpec::Goto(a),
                    InstrSpec::Label(l2),
                ] + s2.code,
                temps: s2.temps,
                labels: s2.labels,
            }
        },
        Stmt::While { cond, body } => {
            let j = jumping_spec(cond, 0, a, tc, lc);
            let lab = j.labels + 1;
            let sb = stmt_gen_spec(*body, lab, b, a, j.temps, j.labels + 1);
            JOut {
                code: j.code + seq![InstrSpec::Label(lab)] + sb.code + seq![InstrSpec::Goto(b)],
                temps: sb.temps,
                labels: sb.labels,
            }
        },
    }
}

/// Allocator bounds of a statement's generation: counters never decrease, at
/// most `ssize(s)` temporaries and `3 * ssize(s)` labels are consumed.
pub proof fn lemma_stmt_bounds(s: Stmt, b: int, a: int, brk: int, tc: int, lc: int)
    ensures
        tc <= stmt_gen_spec(s, b, a, brk, tc, lc).temps <= tc + ssize(s),
        lc <= stmt_gen_spec(s, b, a, brk, tc, lc).labels <= lc + 3 * ssize(s),
    decreases ssize(s),
{
    match s {
        Stmt::Sequence { stmt1, stmt2 } => {
            if *stmt1 is Null {
                lemma_stmt_bounds(*stmt2, b, a, brk, tc, lc);
            } else if *stmt2 is Null {
                lemma_stmt_bounds(*stmt1, b, a, brk, tc, lc);
            } else {
                let lab = lc + 1;
                let c1 = stmt_gen_spec(*stmt1, b, lab, brk, tc, lc + 1);
                lemma_stmt_bounds(*stmt1, b, lab, brk, tc, lc + 1);
                lemma_stmt_bounds(*stmt2, lab, a, brk, c1.temps, c1.labels);
            }
        },
        Stmt::Assign { id, expr } => {
            lemma_gen_bounds(expr, tc, lc);
        },
        Stmt::If { cond, body } => {
            let j = jumping_spec(cond, 0, a, tc, lc + 1);
            lemma_jumping_bounds(cond, 0, a, tc, lc + 1);
            lemma_stmt_bounds(*body, lc + 1, a, brk, j.temps, j.labels);
        },
        Stmt::IfElse { cond, then_part, else_part } => {
            let j = jumping_spec(cond, 0, lc + 2, tc, lc + 2);
            lemma_jumping_bounds(cond, 0, lc + 2, tc, lc + 2);
            let s1 = stmt_gen_spec(*then_part, lc + 1, a, brk, j.temps, j.labels);
            lemma_stmt_bounds(*then_part, lc + 1, a, brk, j.temps, j.labels);
            lemma_stmt_bounds(*else_part, lc + 2, a, brk, s1.temps, s1.labels);
        },
        Stmt::While { cond, body } => {
            let j = jumping_spec(cond, 0, a, tc, lc);
            lemma_jumping_bounds(cond, 0, a, tc, lc);
            lemma_stmt_bounds(*body, j.labels + 1, b, a, j.temps, j.labels + 1);
        },
        _ => {},
    }
}

/// The generic test emission rule defines no labels.
proof fn lemma_emit_jumps_label_free(test: Seq<char>, t: int, f: int, lo: int, hi: int)
    ensures
        labels_in_range(emit_jumps_spec(test, t, f), lo, hi),
        labels_distinct(emit_jumps_spec(test, t, f)),
{
    let c = emit_jumps_spec(test, t, f);
    assert forall|k: int| 0 <= k < c.len() implies !(#[trigger] c[k] is Label) by {
        if t != 0 && f != 0 {
            assert(c[0] == InstrSpec::Cond(test, t));
            assert(c[1] == InstrSpec::Goto(f));
        } else if t != 0 {
            assert(c[0] == InstrSpec::Cond(test, t));
        } else if f != 0 {
            assert(c[0] == InstrSpec::CondFalse(test, f));
        }
    }
    lemma_label_free(c, lo, hi);
}

/// Every label a jumping step defines was allocated by that step — its id
/// lies in `(lc, labels_out]` — and no label is defined twice.
pub proof fn lemma_jumping_labels(e: Expr, t: int, f: int, tc: int, lc: int)
    ensures
        labels_in_range(
            jumping_spec(e, t, f, tc, lc).code,
            lc,
            jumping_spec(e, t, f, tc, lc).labels,
        ),
        labels_distinct(jumping_spec(e, t, f, tc, lc).code),
    decreases esize(e), 0int,
{
    match e {
        Expr::Constant { .. } => {
            let c = jumping_spec(e, t, f, tc, lc).code;
            assert forall|k: int| 0 <= k < c.len() implies !(#[trigger] c[k] is Label) by {
                if is_true_const(e) && t != 0 {
                    assert(c[0] == InstrSpec::Goto(t));
                } else if is_false_const(e) && f != 0 {
                    assert(c[0] == InstrSpec::Goto(f));
                }
            }
            lemma_label_free(c, lc, lc);
        },
        Expr::Id(_) => {
            lemma_emit_jumps_label_free(text_spec(e), t, f, lc, lc);
        },
        Expr::Temp { .. } => {
            lemma_emit_jumps_label_free(text_spec(e), t, f, lc, lc);
        },
        Expr::Arith { .. } => {
            lemma_emit_jumps_label_free(text_spec(e), t, f, lc, lc);
        },
        Expr::Unary { .. } => {
            lemma_emit_jumps_label_free(text_spec(e), t, f, lc, lc);
        },
        Expr::And { left, right, .. } => {
            let lab = if f != 0 {
                f
            } else {
                lc + 1
            };
            let lc1 = if f != 0 {
                lc
            } else {
                lc + 1
            };
            let a = jumping_spec(*left, 0, lab, tc, lc1);
            let b = jumping_spec(*right, t, f, a.temps, a.labels);
            lemma_jumping_bounds(*left, 0, lab, tc, lc1);
            lemma_jumping_bounds(*right, t, f, a.temps, a.labels);
            lemma_jumping_labels(*left, 0, lab, tc, lc1);
            lemma_jumping_labels(*right, t, f, a.temps, a.labels);
            lemma_labels_concat(a.code, b.code, lc1, a.labels, a.labels, b.labels);
            if f == 0 {
                lemma_label_singleton(lab, lc, lc + 1);
                lemma_labels_concat(
                    a.code + b.code,
                    seq![InstrSpec::Label(lab)],
                    lc + 1,
                    b.labels,
                    lc,
                    lc + 1,
                );
            } else {
                assert(a.code + b.code + Seq::<InstrSpec>::empty() =~= a.code + b.code);
            }
        },
        Expr::Or { left, right, .. } => {
            let lab = if t != 0 {
                t
            } else {
                lc + 1
            };
            let lc1 = if t != 0 {
                lc
            } else {
                lc + 1
            };
            let a = jumping_spec(*left, lab, 0, tc, lc1);
            let b = jumping_spec(*right, t, f, a.temps, a.labels);
            lemma_jumping_bounds(*left, lab, 0, tc, lc1);
            lemma_jumping_bounds(*right, t, f, a.temps, a.labels);
            lemma_jumping_labels(*left, lab, 0, tc, lc1);
            lemma_jumping_labels(*right, t, f, a.temps, a.labels);
            lemma_labels_concat(a.code, b.code, lc1, a.labels, a.labels, b.labels);
            if t == 0 {
                lemma_label_singleton(lab, lc, lc + 1);
                lemma_labels_concat(
                    a.code + b.code,
                    seq![InstrSpec::Label(lab)],
                    lc + 1,
                    b.labels,
                    lc,
                    lc + 1,
                );
            } else {
                assert(a.code + b.code + Seq::<InstrSpec>::empty() =~= a.code + b.code);
            }
        },
        Expr::Not { expr, .. } => {
            lemma_jumping_labels(*expr, f, t, tc, lc);
        },
        Expr::Rel { op, left, right } => {
            let a = reduce_spec(*left, tc, lc);
            let b = reduce_spec(*right, a.temps, a.labels);
            lemma_reduce_bounds(*left, tc, lc);
            lemma_reduce_bounds(*right, a.temps, a.labels);
            lemma_reduce_labels(*left, tc, lc);
            lemma_reduce_labels(*right, a.temps, a.labels);
            let test = a.text + seq![' '] + token_text(op) + seq![' '] + b.text;
            lemma_labels_concat(a.code, b.code, lc, a.labels, a.labels, b.labels);
            lemma_emit_jumps_label_free(test, t, f, b.labels, b.labels);
            lemma_labels_concat(
                a.code + b.code,
                emit_jumps_spec(test, t, f),
                lc,
                b.labels,
                b.labels,
                b.labels,
            );
        },
    }
}

/// Every label the materialisation protocol defines lies in
/// `(lc, labels_out]`, and none is defined twice.
pub proof fn lemma_logical_gen_labels(e: Expr, tc: int, lc: int)
    ensures
        labels_in_range(logical_gen_spec(e, tc, lc).code, lc, logical_gen_spec(e, tc, lc).labels),
        labels_distinct(logical_gen_spec(e, tc, lc).code),
    decreases esize(e), 1int,
{
    let j = jumping_spec(e, 0, lc + 1, tc + 1, lc + 2);
    lemma_jumping_bounds(e, 0, lc + 1, tc + 1, lc + 2);
    lemma_jumping_labels(e, 0, lc + 1, tc + 1, lc + 2);
    let tail = seq![
        InstrSpec::Assign(temp_text((tc + 1) as nat), "true"@),
        InstrSpec::Goto(lc + 2),
        InstrSpec::Label(lc + 1),
        InstrSpec::Assign(temp_text((tc + 1) as nat), "false"@),
        InstrSpec::Label(lc + 2),
    ];
    assert forall|k: int| 0 <= k < tail.len() && tail[k] is Label implies lc
        < #[trigger] tail[k]->Label_0 <= lc + 2 by {
        if k == 2 {
            assert(tail[k] == InstrSpec::Label(lc + 1));
        } else if k == 4 {
            assert(tail[k] == InstrSpec::Label(lc + 2));
        } else {
            assert(!(tail[k] is Label));
        }
    }
    assert forall|k1: int, k2: int|
        0 <= k1 < k2 < tail.len() && #[trigger] tail[k1] is Label
            && #[trigger] tail[k2] is Label implies tail[k1]->Label_0 != tail[k2]->Label_0 by {
        assert(k1 == 2 && k2 == 4);
        assert(tail[2] == InstrSpec::Label(lc + 1));
        assert(tail[4] == InstrSpec::Label(lc + 2));
    }
    lemma_labels_concat(j.code, tail, lc + 2, j.labels, lc, lc + 2);
}

/// Every label a `gen` step defines lies in `(lc, labels_out]`, and none is
/// defined twice.
pub proof fn lemma_gen_labels(e: Expr, tc: int, lc: int)
    ensures
        labels_in_range(gen_spec(e, tc, lc).code, lc, gen_spec(e, tc, lc).labels),
        labels_distinct(gen_spec(e, tc, lc).code),
    decreases esize(e), 2int,
{
    match e {
        Expr::Arith { left, right, .. } => {
            let a = reduce_spec(*left, tc, lc);
            lemma_reduce_bounds(*left, tc, lc);
            lemma_reduce_bounds(*right, a.temps, a.labels);
            lemma_reduce_labels(*left, tc, lc);
            lemma_reduce_labels(*right, a.temps, a.labels);
            lemma_labels_concat(
                a.code,
                reduce_spec(*right, a.temps, a.labels).code,
                lc,
                a.labels,
                a.labels,
                reduce_spec(*right, a.temps, a.labels).labels,
            );
        },
        Expr::Unary { expr, .. } => {
            lemma_reduce_labels(*expr, tc, lc);
        },
        Expr::Constant { .. } => {
            lemma_label_free(Seq::<InstrSpec>::empty(), lc, lc);
        },
        Expr::Id(_) => {
            lemma_label_free(Seq::<InstrSpec>::empty(), lc, lc);
        },
        Expr::Temp { .. } => {
            lemma_label_free(Seq::<InstrSpec>::empty(), lc, lc);
        },
        _ => {
            lemma_logical_gen_labels(e, tc, lc);
        },
    }
}

/// Every label a `reduce` step defines lies in `(lc, labels_out]`, and none
/// is defined twice.
pub proof fn lemma_reduce_labels(e: Expr, tc: int, lc: int)
    ensures
        labels_in_range(reduce_spec(e, tc, lc).code, lc, reduce_spec(e, tc, lc).labels),
        labels_distinct(reduce_spec(e, tc, lc).code),
    decreases esize(e), 3int,
{
    match e {
        Expr::Arith { .. } => {
            let g = gen_spec(e, tc, lc);
            lemma_gen_labels(e, tc, lc);
            lemma_label_free1(
                InstrSpec::Assign(temp_text((g.temps + 1) as nat), g.text),
                g.labels,
                g.labels,
            );
            lemma_labels_concat(
                g.code,
                seq![InstrSpec::Assign(temp_text((g.temps + 1) as nat), g.text)],
                lc,
                g.labels,
                g.labels,
                g.labels,
            );
        },
        Expr::Unary { .. } => {
            let g = gen_spec(e, tc, lc);
            lemma_gen_labels(e, tc, lc);
            lemma_label_free1(
                InstrSpec::Assign(temp_text((g.temps + 1) as nat), g.text),
                g.labels,
                g.labels,
            );
            lemma_labels_concat(
                g.code,
                seq![InstrSpec::Assign(temp_text((g.temps + 1) as nat), g.text)],
                lc,
                g.labels,
                g.labels,
                g.labels,
            );
        },
        Expr::And { .. } => {
            lemma_gen_labels(e, tc, lc);
        },
        Expr::Or { .. } => {
            lemma_gen_labels(e, tc, lc);
        },
        Expr::Not { .. } => {
            lemma_gen_labels(e, tc, lc);
        },
        Expr::Rel { .. } => {
            lemma_gen_labels(e, tc, lc);
        },
        _ => {
            lemma_label_free(Seq::<InstrSpec>::empty(), lc, lc);
        },
    }
}

/// Every label a statement's generation defines lies in `(lc, labels_out]`,
/// and none is defined twice: one run never redefines a label, realising the
/// append-only, no-rewriting discipline of the emitter.
pub proof fn lemma_stmt_labels(s: Stmt, b: int, a: int, brk: int, tc: int, lc: int)
    ensures
        labels_in_range(
            stmt_gen_spec(s, b, a, brk, tc, lc).code,
            lc,
            stmt_gen_spec(s, b, a, brk, tc, lc).labels,
        ),
        labels_distinct(stmt_gen_spec(s, b, a, brk, tc, lc).code),
    decreases ssize(s),
{
    match s {
        Stmt::Null => {
            lemma_label_free(Seq::<InstrSpec>::empty(), lc, lc);
        },
        Stmt::Break { .. } => {
            lemma_label_free1(InstrSpec::Goto(brk), lc, lc);
        },
        Stmt::Sequence { stmt1, stmt2 } => {
            if *stmt1 is Null {
                lemma_stmt_labels(*stmt2, b, a, brk, tc, lc);
            } else if *stmt2 is Null {
                lemma_stmt_labels(*stmt1, b, a, brk, tc, lc);
            } else {
                let lab = lc + 1;
                let c1 = stmt_gen_spec(*stmt1, b, lab, brk, tc, lc + 1);
                let c2 = stmt_gen_spec(*stmt2, lab, a, brk, c1.temps, c1.labels);
                lemma_stmt_bounds(*stmt1, b, lab, brk, tc, lc + 1);
                lemma_stmt_bounds(*stmt2, lab, a, brk, c1.temps, c1.labels);
                lemma_stmt_labels(*stmt1, b, lab, brk, tc, lc + 1);
                lemma_stmt_labels(*stmt2, lab, a, brk, c1.temps, c1.labels);
                lemma_label_singleton(lab, lc, lc + 1);
                lemma_labels_concat(
                    c1.code,
                    seq![InstrSpec::Label(lab)],
                    lc + 1,
                    c1.labels,
                    lc,
                    lc + 1,
                );
                lemma_labels_concat(
                    c1.code + seq![InstrSpec::Label(lab)],
                    c2.code,
                    lc,
                    c1.labels,
                    c1.labels,
                    c2.labels,
                );
            }
        },
        Stmt::Assign { id, expr } => {
            let gexp = gen_spec(expr, tc, lc);
            lemma_gen_bounds(expr, tc, lc);
            lemma_gen_labels(expr, tc, lc);
            lemma_label_free1(
                InstrSpec::Assign(id.word.lexeme@, gexp.text),
                gexp.labels,
                gexp.labels,
            );
            lemma_labels_concat(
                gexp.code,
                seq![InstrSpec::Assign(id.word.lexeme@, gexp.text)],
                lc,
                gexp.labels,
                gexp.labels,
                gexp.labels,
            );
        },
        Stmt::If { cond, body } => {
            let lab = lc + 1;
            let j = jumping_spec(cond, 0, a, tc, lc + 1);
            let sb = stmt_gen_spec(*body, lab, a, brk, j.temps, j.labels);
            lemma_jumping_bounds(cond, 0, a, tc, lc + 1);
            lemma_stmt_bounds(*body, lab, a, brk, j.temps, j.labels);
            lemma_jumping_labels(cond, 0, a, tc, lc + 1);
            lemma_stmt_labels(*body, lab, a, brk, j.temps, j.labels);
            lemma_label_singleton(lab, lc, lc + 1);
            lemma_labels_concat(j.code, seq![InstrSpec::Label(lab)], lc + 1, j.labels, lc, lc + 1);
            lemma_labels_concat(
                j.code + seq![InstrSpec::Label(lab)],
                sb.code,
                lc,
                j.labels,
                j.labels,
                sb.labels,
            );
        },
        Stmt::IfElse { cond, then_part, else_part } => {
            let l1 = lc + 1;
            let l2 = lc + 2;
            let j = jumping_spec(cond, 0, l2, tc, lc + 2);
            let s1 = stmt_gen_spec(*then_part, l1, a, brk, j.temps, j.labels);
            let s2 = stmt_gen_spec(*else_part, l2, a, brk, s1.temps, s1.labels);
            lemma_jumping_bounds(cond, 0, l2, tc, lc + 2);
            lemma_stmt_bounds(*then_part, l1, a, brk, j.temps, j.labels);
            lemma_stmt_bounds(*else_part, l2, a, brk, s1.temps, s1.labels);
            lemma_jumping_labels(cond, 0, l2, tc, lc + 2);
            lemma_stmt_labels(*then_part, l1, a, brk, j.temps, j.labels);
            lemma_stmt_labels(*else_part, l2, a, brk, s1.temps, s1.labels);
            lemma_label_singleton(l1, lc, lc + 1);
            lemma_labels_concat(j.code, seq![InstrSpec::Label(l1)], lc + 2, j.labels, lc, lc + 1);
            let mid = j.code + seq![InstrSpec::Label(l1)] + s1.code;
            lemma_labels_concat(
                j.code + seq![InstrSpec::Label(l1)],
                s1.code,
                lc,
                j.labels,
                j.labels,
                s1.labels,
            );
            // The then arm's trailing jump and the else label: the else label
            // id l2 sits in the gap the cond's jumping left open, so it is
            // not defined anywhere in `mid`.
            let pair = seq![InstrSpec::Goto(a), InstrSpec::Label(l2)];
            assert forall|k: int| 0 <= k < pair.len() && pair[k] is Label implies lc + 1
                < #[trigger] pair[k]->Label_0 <= lc + 2 by {
                if k == 0 {
                    assert(!(pair[k] is Label));
                } else {
                    assert(pair[k] == InstrSpec::Label(l2));
                }
            }
            assert forall|k1: int, k2: int|
                0 <= k1 < k2 < pair.len() && #[trigger] pair[k1] is Label
                    && #[trigger] pair[k2] is Label implies pair[k1]->Label_0
                != pair[k2]->Label_0 by {
                assert(!(pair[0] is Label));
            }
            assert(!defines_label(mid, l2)) by {
                if defines_label(mid, l2) {
                    let m = choose|m: int|
                        0 <= m < mid.len() && mid[m] == InstrSpec::Label(l2);
                    if m < j.code.len() {
                        assert(mid[m] == j.code[m]);
                    } else if m == j.code.len() {
                        assert(mid[m] == InstrSpec::Label(l1));
                    } else {
                        assert(mid[m] == s1.code[m - j.code.len() - 1]);
                    }
                    assert(false);
                }
            }
            assert forall|l: int| #[trigger] defines_label(pair, l) implies !defines_label(
                mid,
                l,
            ) by {
                let k = choose|k: int| 0 <= k < pair.len() && pair[k] == InstrSpec::Label(l);
                assert(k == 1);
                assert(l == l2);
            }
            lemma_labels_concat_defines(mid, pair);
            lemma_labels_range_concat(mid, pair, lc, s1.labels, lc + 1, lc + 2);
            lemma_labels_concat(mid + pair, s2.code, lc, s1.labels, s1.labels, s2.labels);
        },
        Stmt::While { cond, body } => {
            let j = jumping_spec(cond, 0, a, tc, lc);
            let lab = j.labels + 1;
            let sb = stmt_gen_spec(*body, lab, b, a, j.temps, j.labels + 1);
            lemma_jumping_bounds(cond, 0, a, tc, lc);
            lemma_stmt_bounds(*body, lab, b, a, j.temps, j.labels + 1);
            lemma_jumping_labels(cond, 0, a, tc, lc);
            lemma_stmt_labels(*body, lab, b, a, j.temps, j.labels + 1);
            lemma_label_singleton(lab, j.labels, j.labels + 1);
            lemma_labels_concat(
                j.code,
                seq![InstrSpec::Label(lab)],
                lc,
                j.labels,
                j.labels,
                j.labels + 1,
            );
            lemma_labels_concat(
                j.code + seq![InstrSpec::Label(lab)],
                sb.code,
                lc,
                j.labels + 1,
                j.labels + 1,
                sb.labels,
            );
            lemma_label_free1(InstrSpec::Goto(b), sb.labels, sb.labels);
            lemma_labels_concat(
                j.code + seq![InstrSpec::Label(lab)] + sb.code,
                seq![InstrSpec::Goto(b)],
                lc,
                sb.labels,
                sb.labels,
                sb.labels,
            );
        },
    }
}

/// The external exits a jumping step may take: its non-sentinel labels.
pub open spec fn jump_exits(t: int, f: int) -> Set<int> {
    let base = Set::<int>::empty();
    let with_t = if t != 0 {
        base.insert(t)
    } else {
        base
    };
    if f != 0 {
        with_t.insert(f)
    } else {
        with_t
    }
}

/// The generic test emission rule jumps only to its non-sentinel labels.
proof fn lemma_emit_jumps_targets(test: Seq<char>, t: int, f: int)
    ensures
        targets_closed(emit_jumps_spec(test, t, f), jump_exits(t, f)),
{
    let c = emit_jumps_spec(test, t, f);
    assert forall|k: int|
        0 <= k < c.len() && #[trigger] target_of(c[k]) is Some implies jump_exits(t, f).contains(
        target_of(c[k]).unwrap(),
    ) || defines_label(c, target_of(c[k]).unwrap()) by {
        if t != 0 && f != 0 {
            assert(c[0] == InstrSpec::Cond(test, t));
            assert(c[1] == InstrSpec::Goto(f));
        } else if t != 0 {
            assert(c[0] == InstrSpec::Cond(test, t));
        } else if f != 0 {
            assert(c[0] == InstrSpec::CondFalse(test, f));
        }
    }
}

/// A jumping step jumps only to its non-sentinel labels or to labels it
/// defines itself: the backpatching protocol leaves no other exits.
pub proof fn lemma_jumping_targets(e: Expr, t: int, f: int, tc: int, lc: int)
    ensures
        targets_closed(jumping_spec(e, t, f, tc, lc).code, jump_exits(t, f)),
    decreases esize(e), 0int,
{
    let ext = jump_exits(t, f);
    match e {
        Expr::Constant { .. } => {
            let c = jumping_spec(e, t, f, tc, lc).code;
            assert forall|k: int|
                0 <= k < c.len() && #[trigger] target_of(c[k]) is Some implies ext.contains(
                target_of(c[k]).unwrap(),
            ) || defines_label(c, target_of(c[k]).unwrap()) by {
                if is_true_const(e) && t != 0 {
                    assert(c[0] == InstrSpec::Goto(t));
                } else if is_false_const(e) && f != 0 {
                    assert(c[0] == InstrSpec::Goto(f));
                }
            }
        },
        Expr::Id(_) => {
            lemma_emit_jumps_targets(text_spec(e), t, f);
        },
        Expr::Temp { .. } => {
            lemma_emit_jumps_targets(text_spec(e), t, f);
        },
        Expr::Arith { .. } => {
            lemma_emit_jumps_targets(text_spec(e), t, f);
        },
        Expr::Unary { .. } => {
            lemma_emit_jumps_targets(text_spec(e), t, f);
        },
        Expr::And { left, right, .. } => {
            let lab = if f != 0 {
                f
            } else {
                lc + 1
            };
            let lc1 = if f != 0 {
                lc
            } else {
                lc + 1
            };
            let a = jumping_spec(*left, 0, lab, tc, lc1);
            let b = jumping_spec(*right, t, f, a.temps, a.labels);
            let ext1 = ext.insert(lab);
            lemma_jumping_targets(*left, 0, lab, tc, lc1);
            lemma_jumping_targets(*right, t, f, a.temps, a.labels);
            lemma_targets_widen(a.code, jump_exits(0, lab), ext1);
            lemma_targets_widen(b.code, jump_exits(t, f), ext1);
            lemma_targets_concat(a.code, b.code, ext1);
            if f == 0 {
                let tail = seq![InstrSpec::Label(lab)];
                assert(targets_closed(tail, ext1));
                lemma_targets_concat(a.code + b.code, tail, ext1);
                let c = a.code + b.code + tail;
                assert(c[a.code.len() + b.code.len() as int] == InstrSpec::Label(lab));
                assert(defines_label(c, lab));
                lemma_targets_discharge(c, ext, lab);
            } else {
                assert(ext1 =~= ext);
                assert(a.code + b.code + Seq::<InstrSpec>::empty() =~= a.code + b.code);
            }
        },
        Expr::Or { left, right, .. } => {
            let lab = if t != 0 {
                t
            } else {
                lc + 1
            };
            let lc1 = if t != 0 {
                lc
            } else {
                lc + 1
            };
            let a = jumping_spec(*left, lab, 0, tc, lc1);
            let b = jumping_spec(*right, t, f, a.temps, a.labels);
            let ext1 = ext.insert(lab);
            lemma_jumping_targets(*left, lab, 0, tc, lc1);
            lemma_jumping_targets(*right, t, f, a.temps, a.labels);
            lemma_targets_widen(a.code, jump_exits(lab, 0), ext1);
            lemma_targets_widen(b.code, jump_exits(t, f), ext1);
            lemma_targets_concat(a.code, b.code, ext1);
            if t == 0 {
                let tail = seq![InstrSpec::Label(lab)];
                assert(targets_closed(tail, ext1));
                lemma_targets_concat(a.code + b.code, tail, ext1);
                let c = a.code + b.code + tail;
                assert(c[a.code.len() + b.code.len() as int] == InstrSpec::Label(lab));
                assert(defines_label(c, lab));
                lemma_targets_discharge(c, ext, lab);
            } else {
                assert(ext1 =~= ext);
                assert(a.code + b.code + Seq::<InstrSpec>::empty() =~= a.code + b.code);
            }
        },
        Expr::Not { expr, .. } => {
            lemma_jumping_targets(*expr, f, t, tc, lc);
            assert(jump_exits(f, t) =~= ext);
        },
        Expr::Rel { op, left, right } => {
            let a = reduce_spec(*left, tc, lc);
            let b = reduce_spec(*right, a.temps, a.labels);
            let test = a.text + seq![' '] + token_text(op) + seq![' '] + b.text;
            lemma_reduce_targets(*left, tc, lc);
            lemma_reduce_targets(*right, a.temps, a.labels);
            lemma_emit_jumps_targets(test, t, f);
            lemma_targets_widen(a.code, Set::empty(), ext);
            lemma_targets_widen(b.code, Set::empty(), ext);
            lemma_targets_concat(a.code, b.code, ext);
            lemma_targets_concat(a.code + b.code, emit_jumps_spec(test, t, f), ext);
        },
    }
}

/// The materialisation protocol is self-contained: every jump it emits
/// targets one of its own labels.
pub proof fn lemma_logical_gen_targets(e: Expr, tc: int, lc: int)
    ensures
        targets_closed(logical_gen_spec(e, tc, lc).code, Set::<int>::empty()),
    decreases esize(e), 1int,
{
    let j = jumping_spec(e, 0, lc + 1, tc + 1, lc + 2);
    let tail = seq![
        InstrSpec::Assign(temp_text((tc + 1) as nat), "true"@),
        InstrSpec::Goto(lc + 2),
        InstrSpec::Label(lc + 1),
        InstrSpec::Assign(temp_text((tc + 1) as nat), "false"@),
        InstrSpec::Label(lc + 2),
    ];
    let ext = Set::<int>::empty().insert(lc + 1).insert(lc + 2);
    lemma_jumping_targets(e, 0, lc + 1, tc + 1, lc + 2);
    lemma_targets_widen(j.code, jump_exits(0, lc + 1), ext);
    assert forall|k: int|
        0 <= k < tail.len() && #[trigger] target_of(tail[k]) is Some implies ext.contains(
        target_of(tail[k]).unwrap(),
    ) || defines_label(tail, target_of(tail[k]).unwrap()) by {
        if k != 1 {
            assert(target_of(tail[k]) is None);
        } else {
            assert(tail[1] == InstrSpec::Goto(lc + 2));
        }
    }
    lemma_targets_concat(j.code, tail, ext);
    let c = j.code + tail;
    assert(c[j.code.len() + 2int] == InstrSpec::Label(lc + 1));
    assert(c[j.code.len() + 4int] == InstrSpec::Label(lc + 2));
    assert(defines_label(c, lc + 1));
    assert(defines_label(c, lc + 2));
    lemma_targets_discharge(c, Set::<int>::empty().insert(lc + 1), lc + 2);
    lemma_targets_discharge(c, Set::<int>::empty(), lc + 1);
}

/// A `gen` step is self-contained: every jump it emits targets one of its own
/// labels.
pub proof fn lemma_gen_targets(e: Expr, tc: int, lc: int)
    ensures
        targets_closed(gen_spec(e, tc, lc).code, Set::<int>::empty()),
    decreases esize(e), 2int,
{
    match e {
        Expr::Arith { left, right, .. } => {
            let a = reduce_spec(*left, tc, lc);
            let b = reduce_spec(*right, a.temps, a.labels);
            lemma_reduce_targets(*left, tc, lc);
            lemma_reduce_targets(*right, a.temps, a.labels);
            lemma_targets_concat(a.code, b.code, Set::empty());
        },
        Expr::Unary { expr, .. } => {
            lemma_reduce_targets(*expr, tc, lc);
        },
        Expr::Constant { .. } => {},
        Expr::Id(_) => {},
        Expr::Temp { .. } => {},
        _ => {
            lemma_logical_gen_targets(e, tc, lc);
        },
    }
}

/// A `reduce` step is self-contained: every jump it emits targets one of its
/// own labels.
pub proof fn lemma_reduce_targets(e: Expr, tc: int, lc: int)
    ensures
        targets_closed(reduce_spec(e, tc, lc).code, Set::<int>::empty()),
    decreases esize(e), 3int,
{
    match e {
        Expr::Arith { .. } => {
            let g = gen_spec(e, tc, lc);
            let tail = seq![InstrSpec::Assign(temp_text((g.temps + 1) as nat), g.text)];
            lemma_gen_targets(e, tc, lc);
            assert(targets_closed(tail, Set::<int>::empty())) by {
                assert(target_of(tail[0]) is None);
            }
            lemma_targets_concat(g.code, tail, Set::empty());
        },
        Expr::Unary { .. } => {
            let g = gen_spec(e, tc, lc);
            let tail = seq![InstrSpec::Assign(temp_text((g.temps + 1) as nat), g.text)];
            lemma_gen_targets(e, tc, lc);
            assert(targets_closed(tail, Set::<int>::empty())) by {
                assert(target_of(tail[0]) is None);
            }
            lemma_targets_concat(g.code, tail, Set::empty());
        },
        Expr::Constant { .. } => {},
        Expr::Id(_) => {},
        Expr::Temp { .. } => {},
        _ => {
            lemma_gen_targets(e, tc, lc);
        },
    }
}

/// Every `break` lies inside some loop.  A loop's own body may break freely —
/// its target is the loop's after label — but a `break` with no enclosing
/// loop would jump to the sentinel.
pub open spec fn breaks_enclosed(s: Stmt) -> bool
    decreases s,
{
    match s {
        Stmt::Null => true,
        Stmt::Break { .. } => false,
        Stmt::Sequence { stmt1, stmt2 } => breaks_enclosed(*stmt1) && breaks_enclosed(*stmt2),
        Stmt::Assign { .. } => true,
        Stmt::If { body, .. } => breaks_enclosed(*body),
        Stmt::IfElse { then_part, else_part, .. } => breaks_enclosed(*then_part)
            && breaks_enclosed(*else_part),
        Stmt::While { .. } => true,
    }
}

/// A statement's generation jumps only to its begin, after and break-target
/// labels or to labels it defines itself; with every break enclosed, the
/// break target is never taken at the top level.
pub proof fn lemma_stmt_targets(s: Stmt, b: int, a: int, brk: int, tc: int, lc: int)
    ensures
        targets_closed(
            stmt_gen_spec(s, b, a, brk, tc, lc).code,
            Set::<int>::empty().insert(b).insert(a).insert(brk),
        ),
        breaks_enclosed(s) ==> targets_closed(
            stmt_gen_spec(s, b, a, brk, tc, lc).code,
            Set::<int>::empty().insert(b).insert(a),
        ),
    decreases ssize(s),
{
    let ext3 = Set::<int>::empty().insert(b).insert(a).insert(brk);
    let ext2 = Set::<int>::empty().insert(b).insert(a);
    match s {
        Stmt::Null => {},
        Stmt::Break { .. } => {
            let c = stmt_gen_spec(s, b, a, brk, tc, lc).code;
            assert forall|k: int|
                0 <= k < c.len() && #[trigger] target_of(c[k]) is Some implies ext3.contains(
                target_of(c[k]).unwrap(),
            ) || defines_label(c, target_of(c[k]).unwrap()) by {
                assert(c[0] == InstrSpec::Goto(brk));
            }
        },
        Stmt::Sequence { stmt1, stmt2 } => {
            if *stmt1 is Null {
                lemma_stmt_targets(*stmt2, b, a, brk, tc, lc);
            } else if *stmt2 is Null {
                lemma_stmt_targets(*stmt1, b, a, brk, tc, lc);
            } else {
                let lab = lc + 1;
                let c1 = stmt_gen_spec(*stmt1, b, lab, brk, tc, lc + 1);
                let c2 = stmt_gen_spec(*stmt2, lab, a, brk, c1.temps, c1.labels);
                lemma_stmt_targets(*stmt1, b, lab, brk, tc, lc + 1);
                lemma_stmt_targets(*stmt2, lab, a, brk, c1.temps, c1.labels);
                let mid = seq![InstrSpec::Label(lab)];
                let c = c1.code + mid + c2.code;
                let e3 = ext3.insert(lab);
                lemma_targets_widen(c1.code, Set::<int>::empty().insert(b).insert(lab).insert(brk), e3);
                lemma_targets_widen(c2.code, Set::<int>::empty().insert(lab).insert(a).insert(brk), e3);
                assert(targets_closed(mid, e3));
                lemma_targets_concat(c1.code, mid, e3);
                lemma_targets_concat(c1.code + mid, c2.code, e3);
                assert(c[c1.code.len() as int] == InstrSpec::Label(lab));
                assert(defines_label(c, lab));
                lemma_targets_discharge(c, ext3, lab);
                if breaks_enclosed(s) {
                    let e2 = ext2.insert(lab);
                    lemma_targets_widen(c1.code, Set::<int>::empty().insert(b).insert(lab), e2);
                    lemma_targets_widen(c2.code, Set::<int>::empty().insert(lab).insert(a), e2);
                    assert(targets_closed(mid, e2));
                    lemma_targets_concat(c1.code, mid, e2);
                    lemma_targets_concat(c1.code + mid, c2.code, e2);
                    lemma_targets_discharge(c, ext2, lab);
                }
            }
        },
        Stmt::Assign { id, expr } => {
            let gexp = gen_spec(expr, tc, lc);
            let tail = seq![InstrSpec::Assign(id.word.lexeme@, gexp.text)];
            lemma_gen_targets(expr, tc, lc);
            lemma_targets_widen(gexp.code, Set::empty(), ext2);
            assert(targets_closed(tail, ext2)) by {
                assert(target_of(tail[0]) is None);
            }
            lemma_targets_concat(gexp.code, tail, ext2);
            lemma_targets_widen(gexp.code + tail, ext2, ext3);
        },
        Stmt::If { cond, body } => {
            let lab = lc + 1;
            let j = jumping_spec(cond, 0, a, tc, lc + 1);
            let sb = stmt_gen_spec(*body, lab, a, brk, j.temps, j.labels);
            lemma_jumping_targets(cond, 0, a, tc, lc + 1);
            lemma_stmt_targets(*body, lab, a, brk, j.temps, j.labels);
            let mid = seq![InstrSpec::Label(lab)];
            let c = j.code + mid + sb.code;
            let e3 = ext3.insert(lab);
            lemma_targets_widen(j.code, jump_exits(0, a), e3);
            lemma_targets_widen(sb.code, Set::<int>::empty().insert(lab).insert(a).insert(brk), e3);
            assert(targets_closed(mid, e3));
            lemma_targets_concat(j.code, mid, e3);
            lemma_targets_concat(j.code + mid, sb.code, e3);
            assert(c[j.code.len() as int] == InstrSpec::Label(lab));
            assert(defines_label(c, lab));
            lemma_targets_discharge(c, ext3, lab);
            if breaks_enclosed(s) {
                let e2 = ext2.insert(lab);
                lemma_targets_widen(j.code, jump_exits(0, a), e2);
                lemma_targets_widen(sb.code, Set::<int>::empty().insert(lab).insert(a), e2);
                assert(targets_closed(mid, e2));
                lemma_targets_concat(j.code, mid, e2);
                lemma_targets_concat(j.code + mid, sb.code, e2);
                lemma_targets_discharge(c, ext2, lab);
            }
        },
        Stmt::IfElse { cond, then_part, else_part } => {
            let l1 = lc + 1;
            let l2 = lc + 2;
            let j = jumping_spec(cond, 0, l2, tc, lc + 2);
            let s1 = stmt_gen_spec(*then_part, l1, a, brk, j.temps, j.labels);
            let s2 = stmt_gen_spec(*else_part, l2, a, brk, s1.temps, s1.labels);
            lemma_jumping_targets(cond, 0, l2, tc, lc + 2);
            lemma_stmt_targets(*then_part, l1, a, brk, j.temps, j.labels);
            lemma_stmt_targets(*else_part, l2, a, brk, s1.temps, s1.labels);
            let m1 = seq![InstrSpec::Label(l1)];
            let pair = seq![InstrSpec::Goto(a), InstrSpec::Label(l2)];
            let c = j.code + m1 + s1.code + pair + s2.code;
            let e3 = ext3.insert(l1).insert(l2);
            lemma_targets_widen(j.code, jump_exits(0, l2), e3);
            lemma_targets_widen(s1.code, Set::<int>::empty().insert(l1).insert(a).insert(brk), e3);
            lemma_targets_widen(s2.code, Set::<int>::empty().insert(l2).insert(a).insert(brk), e3);
            assert(targets_closed(m1, e3));
            assert(targets_closed(pair, e3)) by {
                assert(pair[0] == InstrSpec::Goto(a));
                assert(target_of(pair[1]) is None);
            }
            lemma_targets_concat(j.code, m1, e3);
            lemma_targets_concat(j.code + m1, s1.code, e3);
            lemma_targets_concat(j.code + m1 + s1.code, pair, e3);
            lemma_targets_concat(j.code + m1 + s1.code + pair, s2.code, e3);
            assert(c[j.code.len() as int] == InstrSpec::Label(l1));
            assert(c[j.code.len() + 2 + s1.code.len() as int] == InstrSpec::Label(l2));
            assert(defines_label(c, l1));
            assert(defines_label(c, l2));
            lemma_targets_discharge(c, ext3.insert(l1), l2);
            lemma_targets_discharge(c, ext3, l1);
            if breaks_enclosed(s) {
                let e2 = ext2.insert(l1).insert(l2);
                lemma_targets_widen(j.code, jump_exits(0, l2), e2);
                lemma_targets_widen(s1.code, Set::<int>::empty().insert(l1).insert(a), e2);
                lemma_targets_widen(s2.code, Set::<int>::empty().insert(l2).insert(a), e2);
                assert(targets_closed(m1, e2));
                assert(targets_closed(pair, e2)) by {
                    assert(pair[0] == InstrSpec::Goto(a));
                    assert(target_of(pair[1]) is None);
                }
                lemma_targets_concat(j.code, m1, e2);
                lemma_targets_concat(j.code + m1, s1.code, e2);
                lemma_targets_concat(j.code + m1 + s1.code, pair, e2);
                lemma_targets_concat(j.code + m1 + s1.code + pair, s2.code, e2);
                lemma_targets_discharge(c, ext2.insert(l1), l2);
                lemma_targets_discharge(c, ext2, l1);
            }
        },
        Stmt::While { cond, body } => {
            let j = jumping_spec(cond, 0, a, tc, lc);
            let lab = j.labels + 1;
            let sb = stmt_gen_spec(*body, lab, b, a, j.temps, j.labels + 1);
            lemma_jumping_targets(cond, 0, a, tc, lc);
            lemma_stmt_targets(*body, lab, b, a, j.temps, j.labels + 1);
            let mid = seq![InstrSpec::Label(lab)];
            let tail = seq![InstrSpec::Goto(b)];
            let c = j.code + mid + sb.code + tail;
            let e2 = ext2.insert(lab);
            lemma_targets_widen(j.code, jump_exits(0, a), e2);
            lemma_targets_widen(sb.code, Set::<int>::empty().insert(lab).insert(b).insert(a), e2);
            assert(targets_closed(mid, e2));
            assert(targets_closed(tail, e2)) by {
                assert(tail[0] == InstrSpec::Goto(b));
            }
            lemma_targets_concat(j.code, mid, e2);
            lemma_targets_concat(j.code + mid, sb.code, e2);
            lemma_targets_concat(j.code + mid + sb.code, tail, e2);
            assert(c[j.code.len() as int] == InstrSpec::Label(lab));
            assert(defines_label(c, lab));
            lemma_targets_discharge(c, ext2, lab);
            lemma_targets_widen(c, ext2, ext3);
        },
    }
}

/// The law of backpatching completeness: in the instruction stream of a whole
/// program whose breaks all lie inside loops, every jump targets a label that
/// the stream itself defines — every forward reference a node allocated is
/// resolved by a label definition emitted later in program order.
pub proof fn lemma_program_targets_defined(s: Stmt)
    requires
        breaks_enclosed(s),
    ensures
        targets_closed(program_spec(s), Set::<int>::empty()),
{
    let g = stmt_gen_spec(s, 1, 2, 0, 0, 2);
    let front = seq![InstrSpec::Label(1)];
    let back = seq![InstrSpec::Label(2)];
    let c = front + g.code + back;
    let ext = Set::<int>::empty().insert(1).insert(2);
    lemma_stmt_targets(s, 1, 2, 0, 0, 2);
    assert(targets_closed(front, ext)) by {
        assert(target_of(front[0]) is None);
    }
    assert(targets_closed(back, ext)) by {
        assert(target_of(back[0]) is None);
    }
    lemma_targets_concat(front, g.code, ext);
    lemma_targets_concat(front + g.code, back, ext);
    assert(c[0] == InstrSpec::Label(1));
    assert(c[front.len() + g.code.len() as int] == InstrSpec::Label(2));
    assert(defines_label(c, 1));
    assert(defines_label(c, 2));
    lemma_targets_discharge(c, Set::<int>::empty().insert(1), 2);
    lemma_targets_discharge(c, Set::<int>::empty(), 1);
}

/// The law of label uniqueness: in a whole program's instruction stream, no
/// label is defined twice.  Label ids are issued by a monotone allocator
/// shared across the run, so the begin label, the after label and every label
/// any node emits are pairwise distinct — forward jumps are resolved by
/// later definitions, never by redefining or rewriting.
pub proof fn lemma_program_labels_unique(s: Stmt)
    ensures
        labels_distinct(program_spec(s)),
        labels_in_range(program_spec(s), 0, stmt_gen_spec(s, 1, 2, 0, 0, 2).labels),
{
    let g = stmt_gen_spec(s, 1, 2, 0, 0, 2);
    lemma_stmt_bounds(s, 1, 2, 0, 0, 2);
    lemma_stmt_labels(s, 1, 2, 0, 0, 2);
    lemma_label_singleton(1, 0, 1);
    lemma_label_singleton(2, 1, 2);
    let front = seq![InstrSpec::Label(1)];
    let back = seq![InstrSpec::Label(2)];
    lemma_labels_concat(front, g.code, 0, 1, 2, g.labels);
    assert(!defines_label(front + g.code, 2)) by {
        if defines_label(front + g.code, 2) {
            let m = choose|m: int|
                0 <= m < (front + g.code).len() && (front + g.code)[m] == InstrSpec::Label(2);
            if m == 0 {
                assert((front + g.code)[m] == InstrSpec::Label(1));
            } else {
                assert((front + g.code)[m] == g.code[m - 1]);
            }
            assert(false);
        }
    }
    assert forall|l: int| #[trigger] defines_label(back, l) implies !defines_label(
        front + g.code,
        l,
    ) by {
        let k = choose|k: int| 0 <= k < back.len() && back[k] == InstrSpec::Label(l);
        assert(l == 2);
    }
    lemma_labels_concat_defines(front + g.code, back);
    lemma_labels_range_concat(front + g.code, back, 0, g.labels, 1, 2);
}

impl Stmt {
    /// Two statements in sequence.
    pub fn sequence(s1: Stmt, s2: Stmt) -> (r: Stmt)
        ensures
            r matches Stmt::Sequence { stmt1, stmt2 } && *stmt1 == s1 && *stmt2 == s2,
            wf_stmt(s1) && wf_stmt(s2) ==> wf_stmt(r),
    {
        Stmt::Sequence { stmt1: Box::new(s1), stmt2: Box::new(s2) }
    }

    /// A `break` bound to the enclosing loop with placeholder id `loop_id`.
    pub fn break_stmt(loop_id: u32) -> (r: Stmt)
        ensures
            r == (Stmt::Break { loop_id }),
            wf_stmt(r),
    {
        Stmt::Break { loop_id }
    }

    /// An assignment `id = expr`.  Succeeds exactly when the target and value
    /// types are compatible (numeric to numeric, or `bool` to `bool`); a
    /// mismatch is a type error at `line`.
    pub fn assign(id: Id, expr: Expr, line: u32) -> (r: Result<Stmt, Error>)
        requires
            wf_expr(expr),
        ensures
            match r {
                Ok(s) => s == (Stmt::Assign { id, expr }) && wf_stmt(s),
                Err(er) => er == Error::TypeError(line),
            },
            r is Ok <==> assign_compatible(id.type_.kind, type_spec(expr).kind),
    {
        let tk = id.type_.kind;
        let vk = expr.get_type().kind;
        let numeric_pair = matches!(tk, Type::Int | Type::Float | Type::Char) && matches!(
            vk,
            Type::Int | Type::Float | Type::Char,
        );
        let bool_pair = matches!(tk, Type::Bool) && matches!(vk, Type::Bool);
        if numeric_pair || bool_pair {
            Ok(Stmt::Assign { id, expr })
        } else {
            Err(Error::TypeError(line))
        }
    }

    /// A one-armed conditional.  The condition must be `bool`, else a type
    /// error at `line`.
    pub fn if_stmt(cond: Expr, body: Stmt, line: u32) -> (r: Result<Stmt, Error>)
        requires
            wf_expr(cond),
        ensures
            match r {
                Ok(s) => (s matches Stmt::If { cond: c, body: bd } && c == cond && *bd == body)
                    && (wf_stmt(body) ==> wf_stmt(s)),
                Err(er) => er == Error::TypeError(line),
            },
            r is Ok <==> type_spec(cond).kind == Type::Bool,
    {
        if matches!(cond.get_type().kind, Type::Bool) {
            Ok(Stmt::If { cond, body: Box::new(body) })
        } else {
            Err(Error::TypeError(line))
        }
    }

    /// A two-armed conditional.  The condition must be `bool`, else a type
    /// error at `line`.
    pub fn if_else(cond: Expr, then_part: Stmt, else_part: Stmt, line: u32) -> (r: Result<
        Stmt,
        Error,
    >)
        requires
            wf_expr(cond),
        ensures
            match r {
                Ok(s) => (s matches Stmt::IfElse { cond: c, then_part: t1, else_part: t2 } && c
                    == cond && *t1 == then_part && *t2 == else_part) && (wf_stmt(then_part)
                    && wf_stmt(else_part) ==> wf_stmt(s)),
                Err(er) => er == Error::TypeError(line),
            },
            r is Ok <==> type_spec(cond).kind == Type::Bool,
    {
        if matches!(cond.get_type().kind, Type::Bool) {
            Ok(
                Stmt::IfElse {
                    cond,
                    then_part: Box::new(then_part),
                    else_part: Box::new(else_part),
                },
            )
        } else {
            Err(Error::TypeError(line))
        }
    }

    /// A guarded loop.  The guard must be `bool`, else a type error at
    /// `line`.
    pub fn while_stmt(cond: Expr, body: Stmt, line: u32) -> (r: Result<Stmt, Error>)
        requires
            wf_expr(cond),
        ensures
            match r {
                Ok(s) => (s matches Stmt::While { cond: c, body: bd } && c == cond && *bd == body)
                    && (wf_stmt(body) ==> wf_stmt(s)),
                Err(er) => er == Error::TypeError(line),
            },
            r is Ok <==> type_spec(cond).kind == Type::Bool,
    {
        if matches!(cond.get_type().kind, Type::Bool) {
            Ok(Stmt::While { cond, body: Box::new(body) })
        } else {
            Err(Error::TypeError(line))
        }
    }

    /// `true` exactly for the empty statement, letting sequencing skip it
    /// without emitting a spurious label.
    pub fn is_null(&self) -> (r: bool)
        ensures
            r == (*self is Null),
    {
        matches!(self, Stmt::Null)
    }

    /// Generates the statement's code under the `gen(begin, after,
    /// break_target)` contract.  The emitted instructions and the allocator
    /// evolution are exactly those of [`stmt_gen_spec`].  The caller emits
    /// `begin` before this call and `after` after it; the statement itself
    /// emits only internal labels and trailing control transfers.
    pub fn gen(&self, g: &mut Gen, b: u32, a: u32, brk: u32)
        requires
            wf_stmt(*self),
            old(g)@.temps + ssize(*self) <= u32::MAX,
            old(g)@.labels + 3 * ssize(*self) <= u32::MAX,
        ensures
            final(g)@.code == old(g)@.code + stmt_gen_spec(
                *self,
                b as int,
                a as int,
                brk as int,
                old(g)@.temps,
                old(g)@.labels,
            ).code,
            final(g)@.temps == stmt_gen_spec(
                *self,
                b as int,
                a as int,
                brk as int,
                old(g)@.temps,
                old(g)@.labels,
            ).temps,
            final(g)@.labels == stmt_gen_spec(
                *self,
                b as int,
                a as int,
                brk as int,
                old(g)@.temps,
                old(g)@.labels,
            ).labels,
        decreases ssize(*self),
    {
        let ghost sout = stmt_gen_spec(
            *self,
            b as int,
            a as int,
            brk as int,
            old(g)@.temps,
            old(g)@.labels,
        );
        match self {
            Stmt::Null => {
                proof {
                    assert(g@.code =~= old(g)@.code + sout.code);
                }
            },
            Stmt::Break { .. } => {
                emit(g, Instr::Goto(brk));
                proof {
                    assert(g@.code =~= old(g)@.code + sout.code);
                }
            },
            Stmt::Sequence { stmt1, stmt2 } => {
                if stmt1.is_null() {
                    stmt2.gen(g, b, a, brk);
                } else if stmt2.is_null() {
                    stmt1.gen(g, b, a, brk);
                } else {
                    let label = new_label(g);
                    proof {
                        lemma_stmt_bounds(
                            **stmt1,
                            b as int,
                            label as int,
                            brk as int,
                            g@.temps,
                            g@.labels,
                        );
                    }
                    stmt1.gen(g, b, label, brk);
                    emit_label(g, label);
                    proof {
                        lemma_stmt_bounds(
                            **stmt2,
                            label as int,
                            a as int,
                            brk as int,
                            g@.temps,
                            g@.labels,
                        );
                    }
                    stmt2.gen(g, label, a, brk);
                    proof {
                        assert(g@.code =~= old(g)@.code + sout.code);
                    }
                }
            },
            Stmt::Assign { id, expr } => {
                proof {
                    lemma_gen_bounds(*expr, g@.temps, g@.labels);
                }
                let value = expr.gen(g);
                let target = id.word.lexeme.clone();
                let rhs = value.to_string();
                emit(g, Instr::Assign(target, rhs));
                proof {
                    assert(g@.code =~= old(g)@.code + sout.code);
                }
            },
            Stmt::If { cond, body } => {
                let label = new_label(g);
                proof {
                    lemma_jumping_bounds(*cond, 0, a as int, g@.temps, g@.labels);
                }
                cond.jumping(g, 0, a);
                emit_label(g, label);
                proof {
                    lemma_stmt_bounds(
                        **body,
                        label as int,
                        a as int,
                        brk as int,
                        g@.temps,
                        g@.labels,
                    );
                }
                body.gen(g, label, a, brk);
                proof {
                    assert(g@.code =~= old(g)@.code + sout.code);
                }
            },
            Stmt::IfElse { cond, then_part, else_part } => {
                let label1 = new_label(g);
                let label2 = new_label(g);
                proof {
                    lemma_jumping_bounds(*cond, 0, label2 as int, g@.temps, g@.labels);
                }
                cond.jumping(g, 0, label2);
                emit_label(g, label1);
                proof {
                    lemma_stmt_bounds(
                        **then_part,
                        label1 as int,
                        a as int,
                        brk as int,
                        g@.temps,
                        g@.labels,
                    );
                }
                then_part.gen(g, label1, a, brk);
                emit(g, Instr::Goto(a));
                emit_label(g, label2);
                proof {
                    lemma_stmt_bounds(
                        **else_part,
                        label2 as int,
                        a as int,
                        brk as int,
                        g@.temps,
                        g@.labels,
                    );
                }
                else_part.gen(g, label2, a, brk);
                proof {
                    assert(g@.code =~= old(g)@.code + sout.code);
                }
            },
            Stmt::While { cond, body } => {
                proof {
                    lemma_jumping_bounds(*cond, 0, a as int, g@.temps, g@.labels);
                }
                cond.jumping(g, 0, a);
                let label = new_label(g);
                emit_label(g, label);
                proof {
                    lemma_stmt_bounds(
                        **body,
                        label as int,
                        b as int,
                        a as int,
                        g@.temps,
                        g@.labels,
                    );
                }
                body.gen(g, label, b, a);
                emit(g, Instr::Goto(b));
                proof {
                    assert(g@.code =~= old(g)@.code + sout.code);
                }
            },
        }
    }
}

impl Expr {
    /// The node count, or `None` when it does not fit in 64 bits.
    pub fn size(&self) -> (r: Option<u64>)
        ensures
            r matches Some(n) ==> n == esize(*self),
            r is None ==> esize(*self) > u64::MAX,
        decreases *self,
    {
        match self {
            Expr::Constant { .. } => Some(1),
            Expr::Id(_) => Some(1),
            Expr::Temp { .. } => Some(1),
            Expr::Arith { left, right, .. } => size_sum2(left.size(), right.size()),
            Expr::Unary { expr, .. } => size_sum1(expr.size()),
            Expr::And { left, right, .. } => size_sum2(left.size(), right.size()),
            Expr::Or { left, right, .. } => size_sum2(left.size(), right.size()),
            Expr::Not { expr, .. } => size_sum1(expr.size()),
            Expr::Rel { left, right, .. } => size_sum2(left.size(), right.size()),
        }
    }
}

/// `1 + a` in 64 bits, `None` on overflow or when the operand overflowed.
fn size_sum1(a: Option<u64>) -> (r: Option<u64>)
    ensures
        match a {
            Some(x) => r == (if 1 + x <= u64::MAX {
                Some((1 + x) as u64)
            } else {
                Option::<u64>::None
            }),
            None => r is None,
        },
{
    match a {
        Some(x) => x.checked_add(1),
        None => None,
    }
}

/// `1 + a + b` in 64 bits, `None` on overflow or when an operand overflowed.
fn size_sum2(a: Option<u64>, b: Option<u64>) -> (r: Option<u64>)
    ensures
        match (a, b) {
            (Some(x), Some(y)) => r == (if 1 + x + y <= u64::MAX {
                Some((1 + x + y) as u64)
            } else {
                Option::<u64>::None
            }),
            _ => r is None,
        },
{
    match (a, b) {
        (Some(x), Some(y)) => match x.checked_add(y) {
            Some(xy) => xy.checked_add(1),
            None => None,
        },
        _ => None,
    }
}

/// `1 + a + b + c` in 64 bits, `None` on overflow or when an operand
/// overflowed.
fn size_sum3(a: Option<u64>, b: Option<u64>, c: Option<u64>) -> (r: Option<u64>)
    ensures
        match (a, b, c) {
            (Some(x), Some(y), Some(z)) => r == (if 1 + x + y + z <= u64::MAX {
                Some((1 + x + y + z) as u64)
            } else {
                Option::<u64>::None
            }),
            _ => r is None,
        },
{
    match (a, b, c) {
        (Some(x), Some(y), Some(z)) => match x.checked_add(y) {
            Some(xy) => match xy.checked_add(z) {
                Some(xyz) => xyz.checked_add(1),
                None => None,
            },
            None => None,
        },
        _ => None,
    }
}

impl Stmt {
    /// The node count, or `None` when it does not fit in 64 bits.
    pub fn size(&self) -> (r: Option<u64>)
        ensures
            r matches Some(n) ==> n == ssize(*self),
            r is None ==> ssize(*self) > u64::MAX,
        decreases *self,
    {
        match self {
            Stmt::Null => Some(1),
            Stmt::Break { .. } => Some(1),
            Stmt::Sequence { stmt1, stmt2 } => size_sum2(stmt1.size(), stmt2.size()),
            Stmt::Assign { expr, .. } => size_sum1(expr.size()),
            Stmt::If { cond, body } => size_sum2(cond.size(), body.size()),
            Stmt::IfElse { cond, then_part, else_part } => size_sum3(
                cond.size(),
                then_part.size(),
                else_part.size(),
            ),
            Stmt::While { cond, body } => size_sum2(cond.size(), body.size()),
        }
    }
}

/// The largest statement tree one run translates: enough room for the
/// allocators, whose label ids must stay within 32 bits.
pub const MAX_PROGRAM_NODES: u64 = 1431655764;

/// A whole program's instruction stream: a begin label, the top-level
/// statement generated between the begin and after labels, and the after
/// label — labels 1 and 2, allocated first from a fresh context.
pub open spec fn program_spec(s: Stmt) -> Seq<InstrSpec> {
    seq![InstrSpec::Label(1)] + stmt_gen_spec(s, 1, 2, 0, 0, 2).code + seq![InstrSpec::Label(2)]
}

/// Translates a whole program: allocates the begin and after labels, emits
/// the begin label, generates `s` between them with no enclosing loop, and
/// emits the after label.  Fails exactly when the tree is too large for the
/// 32-bit allocators.
pub fn translate(s: &Stmt) -> (r: Option<Vec<Instr>>)
    requires
        wf_stmt(*s),
    ensures
        match r {
            Some(code) => code.deep_view() == program_spec(*s) && labels_distinct(
                code.deep_view(),
            ) && (breaks_enclosed(*s) ==> targets_closed(code.deep_view(), Set::<int>::empty())),
            None => ssize(*s) > MAX_PROGRAM_NODES,
        },
{
    proof {
        lemma_program_labels_unique(*s);
        if breaks_enclosed(*s) {
            lemma_program_targets_defined(*s);
        }
    }
    match s.size() {
        None => None,
        Some(sz) => {
            if sz > MAX_PROGRAM_NODES {
                None
            } else {
                let mut g = Gen::new();
                let begin = new_label(&mut g);
                let after = new_label(&mut g);
                emit_label(&mut g, begin);
                s.gen(&mut g, begin, after, 0);
                emit_label(&mut g, after);
                proof {
                    assert(g.code.deep_view() =~= program_spec(*s));
                }
                Some(g.code)
            }
        },
    }
}

/// Renders `<left> <op> <right>`.
fn infix_text(left: &Expr, op: &Token, right: &Expr) -> (s: String)
    requires
        wf_expr(*left),
        wf_expr(*right),
        renderable(*op),
    ensures
        s@ == text_spec(*left) + seq![' '] + token_text(*op) + seq![' '] + text_spec(*right),
    decreases esize(*left) + esize(*right), 1int,
{
    let mut s = left.to_string();
    s.append(" ");
    let op_text = op.to_string();
    s.append(op_text.as_str());
    s.append(" ");
    let rs = right.to_string();
    s.append(rs.as_str());
    proof {
        reveal_strlit(" ");
        assert(" "@ =~= seq![' ']);
        assert(s@ =~= text_spec(*left) + seq![' '] + token_text(*op) + seq![' '] + text_spec(
            *right,
        ));
    }
    s
}

/// Renders `<op> <operand>`.
fn prefix_text(op: &Token, expr: &Expr) -> (s: String)
    requires
        wf_expr(*expr),
        renderable(*op),
    ensures
        s@ == token_text(*op) + seq![' '] + text_spec(*expr),
    decreases esize(*expr), 1int,
{
    let mut s = op.to_string();
    s.append(" ");
    let es = expr.to_string();
    s.append(es.as_str());
    proof {
        reveal_strlit(" ");
        assert(" "@ =~= seq![' ']);
        assert(s@ =~= token_text(*op) + seq![' '] + text_spec(*expr));
    }
    s
}

} // verus!
