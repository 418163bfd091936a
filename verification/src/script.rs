//! The edit script: classified lines, their mathematical view, and the
//! spec-level projections and counts that the engine's contracts speak of.

use vstd::prelude::*;

verus! {

/// One entry of an edit script: a line present only in the "before"
/// sequence, a line present in both (carried once from each side), or a
/// line present only in the "after" sequence.
#[derive(Debug, PartialEq, Eq)]
pub enum ClassifiedLine {
    RemovedOnly(String),
    Common(String, String),
    AddedOnly(String),
}

/// The mathematical view of one classified line, over character sequences.
pub enum ClassifiedLineView {
    RemovedOnly(Seq<char>),
    Common(Seq<char>, Seq<char>),
    AddedOnly(Seq<char>),
}

impl DeepView for ClassifiedLine {
    type V = ClassifiedLineView;

    open spec fn deep_view(&self) -> ClassifiedLineView {
        match self {
            ClassifiedLine::RemovedOnly(l) => ClassifiedLineView::RemovedOnly(l@),
            ClassifiedLine::Common(b, a) => ClassifiedLineView::Common(b@, a@),
            ClassifiedLine::AddedOnly(l) => ClassifiedLineView::AddedOnly(l@),
        }
    }
}

/// The lines an edit script claims for the "before" side, in script order:
/// removed-only lines and the before side of common lines.
pub open spec fn before_projection(s: Seq<ClassifiedLineView>) -> Seq<Seq<char>>
    decreases s.len(),
{
    if s.len() == 0 {
        Seq::empty()
    } else {
        before_projection(s.drop_last()) + match s.last() {
            ClassifiedLineView::RemovedOnly(l) => seq![l],
            ClassifiedLineView::Common(b, _) => seq![b],
            ClassifiedLineView::AddedOnly(_) => Seq::empty(),
        }
    }
}

/// The lines an edit script claims for the "after" side, in script order:
/// added-only lines and the after side of common lines.
pub open spec fn after_projection(s: Seq<ClassifiedLineView>) -> Seq<Seq<char>>
    decreases s.len(),
{
    if s.len() == 0 {
        Seq::empty()
    } else {
        after_projection(s.drop_last()) + match s.last() {
            ClassifiedLineView::RemovedOnly(_) => Seq::empty(),
            ClassifiedLineView::Common(_, a) => seq![a],
            ClassifiedLineView::AddedOnly(l) => seq![l],
        }
    }
}

/// A common entry must pair two equal lines; the other variants are
/// unconstrained.
pub open spec fn common_ok(e: ClassifiedLineView) -> bool {
    match e {
        ClassifiedLineView::Common(x, y) => x == y,
        _ => true,
    }
}

/// A script is a valid alignment of `b` and `a` when its before-projection
/// is exactly `b`, its after-projection is exactly `a`, and every common
/// entry carries a pair of equal lines.
pub open spec fn aligns(s: Seq<ClassifiedLineView>, b: Seq<Seq<char>>, a: Seq<Seq<char>>) -> bool {
    &&& before_projection(s) == b
    &&& after_projection(s) == a
    &&& forall|k: int| 0 <= k < s.len() ==> common_ok(#[trigger] s[k])
}

/// How many entries of an edit script are common entries.
pub open spec fn common_count(s: Seq<ClassifiedLineView>) -> nat
    decreases s.len(),
{
    if s.len() == 0 {
        0
    } else {
        common_count(s.drop_last()) + match s.last() {
            ClassifiedLineView::Common(_, _) => 1nat,
            _ => 0nat,
        }
    }
}

/// How many entries of an edit script are removed-only entries.
pub open spec fn removed_count(s: Seq<ClassifiedLineView>) -> nat
    decreases s.len(),
{
    if s.len() == 0 {
        0
    } else {
        removed_count(s.drop_last()) + match s.last() {
            ClassifiedLineView::RemovedOnly(_) => 1nat,
            _ => 0nat,
        }
    }
}

/// How many entries of an edit script are added-only entries.
pub open spec fn added_count(s: Seq<ClassifiedLineView>) -> nat
    decreases s.len(),
{
    if s.len() == 0 {
        0
    } else {
        added_count(s.drop_last()) + match s.last() {
            ClassifiedLineView::AddedOnly(_) => 1nat,
            _ => 0nat,
        }
    }
}

} // verus!
