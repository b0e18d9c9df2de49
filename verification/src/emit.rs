//! The emitter: an append-only stream of three-address instructions, together
//! with the temporary-id and label-id allocators that one compilation run
//! shares.
//!
//! Forward jumps are resolved by allocating a label now and emitting its
//! definition later in program order; an instruction, once emitted, is never
//! rewritten.  Label and temporary ids start at 1: id 0 is a reserved sentinel
//! meaning "no label / fall through" and is never allocated.

use crate::text::dec_u32;
use crate::text::label_text;
use crate::text::label_string;
use vstd::prelude::*;
use vstd::string::StringExecFns;

verus! {

/// The mathematical form of an instruction: label ids as integers, operand
/// texts as character sequences.
pub enum InstrSpec {
    /// `Lk:`
    Label(int),
    /// `goto Lk`
    Goto(int),
    /// `if T goto Lk`
    Cond(Seq<char>, int),
    /// `iffalse T goto Lk`
    CondFalse(Seq<char>, int),
    /// `x = rhs`
    Assign(Seq<char>, Seq<char>),
}

/// One three-address instruction, in the textual forms of the output stream:
/// a label definition, an unconditional or conditional jump, or an assignment
/// whose right-hand side holds at most one operator.
#[derive(Debug, Clone, PartialEq, Eq)]
pub enum Instr {
    /// `Lk:`
    Label(u32),
    /// `goto Lk`
    Goto(u32),
    /// `if T goto Lk`
    Cond(String, u32),
    /// `iffalse T goto Lk`
    CondFalse(String, u32),
    /// `x = rhs`
    Assign(String, String),
}

impl View for Instr {
    type V = InstrSpec;

    open spec fn view(&self) -> InstrSpec {
        match self {
            Instr::Label(l) => InstrSpec::Label(*l as int),
            Instr::Goto(l) => InstrSpec::Goto(*l as int),
            Instr::Cond(t, l) => InstrSpec::Cond(t@, *l as int),
            Instr::CondFalse(t, l) => InstrSpec::CondFalse(t@, *l as int),
            Instr::Assign(x, rhs) => InstrSpec::Assign(x@, rhs@),
        }
    }
}

impl DeepView for Instr {
    type V = InstrSpec;

    open spec fn deep_view(&self) -> InstrSpec {
        self.view()
    }
}

/// The canonical line rendering of an instruction.
pub open spec fn instr_text(i: InstrSpec) -> Seq<char> {
    match i {
        InstrSpec::Label(l) => label_text(l as nat) + seq![':'],
        InstrSpec::Goto(l) => "goto "@ + label_text(l as nat),
        InstrSpec::Cond(t, l) => "if "@ + t + " goto "@ + label_text(l as nat),
        InstrSpec::CondFalse(t, l) => "iffalse "@ + t + " goto "@ + label_text(l as nat),
        InstrSpec::Assign(x, rhs) => x + " = "@ + rhs,
    }
}

impl Instr {
    /// Renders the instruction as its output line: `L1:`, `goto L1`,
    /// `if T goto L1`, `iffalse T goto L1`, or `x = rhs`.
    pub fn to_string(&self) -> (s: String)
        ensures
            s@ == instr_text(self@),
    {
        match self {
            Instr::Label(l) => {
                let mut s = label_string(*l);
                s.append(":");
                proof {
                    reveal_strlit(":");
                    assert(s@ =~= instr_text(self@));
                }
                s
            },
            Instr::Goto(l) => {
                let mut s = "goto ".to_owned();
                let lab = label_string(*l);
                s.append(lab.as_str());
                proof {
                    assert(s@ =~= instr_text(self@));
                }
                s
            },
            Instr::Cond(t, l) => {
                let mut s = "if ".to_owned();
                s.append(t.as_str());
                s.append(" goto ");
                let lab = label_string(*l);
                s.append(lab.as_str());
                proof {
                    assert(s@ =~= instr_text(self@));
                }
                s
            },
            Instr::CondFalse(t, l) => {
                let mut s = "iffalse ".to_owned();
                s.append(t.as_str());
                s.append(" goto ");
                let lab = label_string(*l);
                s.append(lab.as_str());
                proof {
                    assert(s@ =~= instr_text(self@));
                }
                s
            },
            Instr::Assign(x, rhs) => {
                let mut s = x.clone();
                s.append(" = ");
                s.append(rhs.as_str());
                proof {
                    assert(s@ =~= instr_text(self@));
                }
                s
            },
        }
    }
}

/// Every label defined in `c` lies in the half-open id range `(lo, hi]`.
pub open spec fn labels_in_range(c: Seq<InstrSpec>, lo: int, hi: int) -> bool {
    forall|k: int|
        0 <= k < c.len() && c[k] is Label ==> lo < #[trigger] c[k]->Label_0 <= hi
}

/// No label is defined twice in `c`.
pub open spec fn labels_distinct(c: Seq<InstrSpec>) -> bool {
    forall|k1: int, k2: int|
        0 <= k1 < k2 < c.len() && #[trigger] c[k1] is Label && #[trigger] c[k2] is Label
            ==> c[k1]->Label_0 != c[k2]->Label_0
}

/// Concatenating two streams whose label ranges do not overlap keeps label
/// definitions distinct, within the union of the ranges.
pub proof fn lemma_labels_concat(
    a: Seq<InstrSpec>,
    b: Seq<InstrSpec>,
    alo: int,
    ahi: int,
    blo: int,
    bhi: int,
)
    requires
        labels_in_range(a, alo, ahi),
        labels_in_range(b, blo, bhi),
        labels_distinct(a),
        labels_distinct(b),
        ahi <= blo || bhi <= alo,
    ensures
        labels_in_range(
            a + b,
            if alo <= blo {
                alo
            } else {
                blo
            },
            if ahi >= bhi {
                ahi
            } else {
                bhi
            },
        ),
        labels_distinct(a + b),
{
    let c = a + b;
    assert forall|k: int| 0 <= k < c.len() && c[k] is Label implies (if alo <= blo {
        alo
    } else {
        blo
    }) < #[trigger] c[k]->Label_0 <= (if ahi >= bhi {
        ahi
    } else {
        bhi
    }) by {
        if k < a.len() {
            assert(c[k] == a[k]);
        } else {
            assert(c[k] == b[k - a.len()]);
        }
    }
    assert forall|k1: int, k2: int|
        0 <= k1 < k2 < c.len() && #[trigger] c[k1] is Label
            && #[trigger] c[k2] is Label implies c[k1]->Label_0 != c[k2]->Label_0 by {
        if k1 < a.len() && k2 < a.len() {
            assert(c[k1] == a[k1]);
            assert(c[k2] == a[k2]);
        } else if k1 < a.len() {
            assert(c[k1] == a[k1]);
            assert(c[k2] == b[k2 - a.len()]);
        } else {
            assert(c[k1] == b[k1 - a.len()]);
            assert(c[k2] == b[k2 - a.len()]);
        }
    }
}

/// Label `l` is defined somewhere in `c`.
pub open spec fn defines_label(c: Seq<InstrSpec>, l: int) -> bool {
    exists|k: int| 0 <= k < c.len() && #[trigger] c[k] == InstrSpec::Label(l)
}

/// A stream without label definitions is in any range and trivially distinct.
pub proof fn lemma_label_free(c: Seq<InstrSpec>, lo: int, hi: int)
    requires
        forall|k: int| 0 <= k < c.len() ==> !(#[trigger] c[k] is Label),
    ensures
        labels_in_range(c, lo, hi),
        labels_distinct(c),
{
}

/// A single non-label instruction is in any range and trivially distinct.
pub proof fn lemma_label_free1(i: InstrSpec, lo: int, hi: int)
    requires
        !(i is Label),
    ensures
        labels_in_range(seq![i], lo, hi),
        labels_distinct(seq![i]),
{
    assert forall|k: int| 0 <= k < seq![i].len() implies !(#[trigger] seq![i][k] is Label) by {
        assert(seq![i][k] == i);
    }
    lemma_label_free(seq![i], lo, hi);
}

/// A single label definition, in the range that contains its id.
pub proof fn lemma_label_singleton(l: int, lo: int, hi: int)
    requires
        lo < l <= hi,
    ensures
        labels_in_range(seq![InstrSpec::Label(l)], lo, hi),
        labels_distinct(seq![InstrSpec::Label(l)]),
{
}

/// Concatenation stays within the union of the two ranges, disjoint or not.
pub proof fn lemma_labels_range_concat(
    a: Seq<InstrSpec>,
    b: Seq<InstrSpec>,
    alo: int,
    ahi: int,
    blo: int,
    bhi: int,
)
    requires
        labels_in_range(a, alo, ahi),
        labels_in_range(b, blo, bhi),
    ensures
        labels_in_range(
            a + b,
            if alo <= blo {
                alo
            } else {
                blo
            },
            if ahi >= bhi {
                ahi
            } else {
                bhi
            },
        ),
{
    let c = a + b;
    assert forall|k: int| 0 <= k < c.len() && c[k] is Label implies (if alo <= blo {
        alo
    } else {
        blo
    }) < #[trigger] c[k]->Label_0 <= (if ahi >= bhi {
        ahi
    } else {
        bhi
    }) by {
        if k < a.len() {
            assert(c[k] == a[k]);
        } else {
            assert(c[k] == b[k - a.len()]);
        }
    }
}

/// Appending a stream that defines no label already defined keeps label
/// definitions distinct.
pub proof fn lemma_labels_concat_defines(a: Seq<InstrSpec>, b: Seq<InstrSpec>)
    requires
        labels_distinct(a),
        labels_distinct(b),
        forall|l: int| #[trigger] defines_label(b, l) ==> !defines_label(a, l),
    ensures
        labels_distinct(a + b),
{
    let c = a + b;
    assert forall|k1: int, k2: int|
        0 <= k1 < k2 < c.len() && #[trigger] c[k1] is Label
            && #[trigger] c[k2] is Label implies c[k1]->Label_0 != c[k2]->Label_0 by {
        if k2 < a.len() {
            assert(c[k1] == a[k1]);
            assert(c[k2] == a[k2]);
        } else if k1 >= a.len() {
            assert(c[k1] == b[k1 - a.len()]);
            assert(c[k2] == b[k2 - a.len()]);
        } else {
            assert(c[k1] == a[k1]);
            assert(c[k2] == b[k2 - a.len()]);
            let l1 = a[k1]->Label_0;
            let l2 = b[k2 - a.len()]->Label_0;
            if l1 == l2 {
                assert(a[k1] == InstrSpec::Label(l1));
                assert(b[k2 - a.len()] == InstrSpec::Label(l1));
                assert(defines_label(a, l1));
                assert(defines_label(b, l1));
                assert(false);
            }
        }
    }
}

/// The jump target of an instruction, if it has one.
pub open spec fn target_of(i: InstrSpec) -> Option<int> {
    match i {
        InstrSpec::Goto(l) => Some(l),
        InstrSpec::Cond(_, l) => Some(l),
        InstrSpec::CondFalse(_, l) => Some(l),
        InstrSpec::Label(_) => None,
        InstrSpec::Assign(_, _) => None,
    }
}

/// Every jump in `c` targets a label in `ext` or one defined in `c` itself.
pub open spec fn targets_closed(c: Seq<InstrSpec>, ext: Set<int>) -> bool {
    forall|k: int|
        0 <= k < c.len() && #[trigger] target_of(c[k]) is Some ==> ext.contains(
            target_of(c[k]).unwrap(),
        ) || defines_label(c, target_of(c[k]).unwrap())
}

/// Closedness is preserved by widening the external label set.
pub proof fn lemma_targets_widen(c: Seq<InstrSpec>, e1: Set<int>, e2: Set<int>)
    requires
        targets_closed(c, e1),
        e1.subset_of(e2),
    ensures
        targets_closed(c, e2),
{
}

/// A label defined in either part is defined in the concatenation.
pub proof fn lemma_defines_lift(a: Seq<InstrSpec>, b: Seq<InstrSpec>, l: int)
    requires
        defines_label(a, l) || defines_label(b, l),
    ensures
        defines_label(a + b, l),
{
    if defines_label(a, l) {
        let k = choose|k: int| 0 <= k < a.len() && a[k] == InstrSpec::Label(l);
        assert((a + b)[k] == InstrSpec::Label(l));
    } else {
        let k = choose|k: int| 0 <= k < b.len() && b[k] == InstrSpec::Label(l);
        assert((a + b)[a.len() + k] == InstrSpec::Label(l));
    }
}

/// Concatenation preserves closedness against a common external set.
pub proof fn lemma_targets_concat(a: Seq<InstrSpec>, b: Seq<InstrSpec>, ext: Set<int>)
    requires
        targets_closed(a, ext),
        targets_closed(b, ext),
    ensures
        targets_closed(a + b, ext),
{
    let c = a + b;
    assert forall|k: int|
        0 <= k < c.len() && #[trigger] target_of(c[k]) is Some implies ext.contains(
        target_of(c[k]).unwrap(),
    ) || defines_label(c, target_of(c[k]).unwrap()) by {
        let l = target_of(c[k]).unwrap();
        if k < a.len() {
            assert(c[k] == a[k]);
            if !ext.contains(l) {
                lemma_defines_lift(a, b, l);
            }
        } else {
            assert(c[k] == b[k - a.len()]);
            if !ext.contains(l) {
                lemma_defines_lift(a, b, l);
            }
        }
    }
}

/// An external label that the stream itself defines can be dropped from the
/// external set.
pub proof fn lemma_targets_discharge(c: Seq<InstrSpec>, ext: Set<int>, l: int)
    requires
        targets_closed(c, ext.insert(l)),
        defines_label(c, l),
    ensures
        targets_closed(c, ext),
{
}

/// The mathematical state of a generation context: the two allocator counters
/// and the instruction stream emitted so far.
pub struct GenView {
    pub temps: int,
    pub labels: int,
    pub code: Seq<InstrSpec>,
}

/// The generation context of one compilation run: the temporary-id counter,
/// the label-id counter, and the emitted instruction stream.  It is threaded
/// by mutable reference through every `gen`, `reduce` and `jumping` call, so
/// ids are unique program-wide.
#[derive(Debug)]
pub struct Gen {
    /// Temporaries allocated so far; the next temporary is `temps + 1`.
    pub temps: u32,
    /// Labels allocated so far; the next label is `labels + 1`.
    pub labels: u32,
    /// The instruction stream, append-only.
    pub code: Vec<Instr>,
}

impl View for Gen {
    type V = GenView;

    open spec fn view(&self) -> GenView {
        GenView { temps: self.temps as int, labels: self.labels as int, code: self.code.deep_view() }
    }
}

impl Gen {
    /// A fresh context: no ids allocated, nothing emitted.
    pub fn new() -> (g: Gen)
        ensures
            g@.temps == 0,
            g@.labels == 0,
            g@.code == Seq::<InstrSpec>::empty(),
    {
        let g = Gen { temps: 0, labels: 0, code: Vec::new() };
        proof {
            assert(g@.code =~= Seq::<InstrSpec>::empty());
        }
        g
    }
}

/// Allocates a fresh label id.  Ids increase monotonically from 1, so the
/// sentinel 0 is never issued.
pub fn new_label(g: &mut Gen) -> (l: u32)
    requires
        old(g)@.labels < u32::MAX,
    ensures
        l as int == old(g)@.labels + 1,
        l != 0,
        final(g)@.labels == l as int,
        final(g)@.temps == old(g)@.temps,
        final(g)@.code == old(g)@.code,
{
    g.labels = g.labels + 1;
    g.labels
}

/// Allocates a fresh temporary id.  Ids increase monotonically from 1.
pub fn new_temp(g: &mut Gen) -> (t: u32)
    requires
        old(g)@.temps < u32::MAX,
    ensures
        t as int == old(g)@.temps + 1,
        t != 0,
        final(g)@.temps == t as int,
        final(g)@.labels == old(g)@.labels,
        final(g)@.code == old(g)@.code,
{
    g.temps = g.temps + 1;
    g.temps
}

/// Appends one instruction to the stream.
pub fn emit(g: &mut Gen, i: Instr)
    ensures
        final(g)@.code == old(g)@.code.push(i@),
        final(g)@.temps == old(g)@.temps,
        final(g)@.labels == old(g)@.labels,
{
    let ghost i_spec = i@;
    g.code.push(i);
    proof {
        assert(g@.code =~= old(g)@.code.push(i_spec));
    }
}

/// Appends the definition of label `i` to the stream.
pub fn emit_label(g: &mut Gen, i: u32)
    ensures
        final(g)@.code == old(g)@.code.push(InstrSpec::Label(i as int)),
        final(g)@.temps == old(g)@.temps,
        final(g)@.labels == old(g)@.labels,
{
    emit(g, Instr::Label(i));
}

} // verus!
