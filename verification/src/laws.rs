//! General laws of the diff engine, stated and proved once for all inputs.
//!
//! The engine's `ensures` pins its output to `spec_diff`, so each law is
//! stated of `spec_diff` and holds of every script the engine returns.

use vstd::prelude::*;

use crate::engine::lcs_len;
use crate::engine::spec_diff;
use crate::script::added_count;
use crate::script::after_projection;
use crate::script::aligns;
use crate::script::before_projection;
use crate::script::common_count;
use crate::script::common_ok;
use crate::script::removed_count;
use crate::script::ClassifiedLineView;

verus! {

/// Reconstruction: the before-projection of the edit script is exactly the
/// `before` sequence, and the after-projection is exactly `after`. Every
/// line of both inputs appears in the script, in order, and no other line
/// does.
pub proof fn lemma_reconstruction(b: Seq<Seq<char>>, a: Seq<Seq<char>>)
    ensures
        before_projection(spec_diff(b, a)) == b,
        after_projection(spec_diff(b, a)) == a,
    decreases b.len() + a.len(),
{
    if b.len() == 0 && a.len() == 0 {
        assert(before_projection(spec_diff(b, a)) =~= b);
        assert(after_projection(spec_diff(b, a)) =~= a);
    } else if a.len() == 0 {
        lemma_reconstruction(b.drop_last(), a);
        let s = spec_diff(b.drop_last(), a);
        let e = ClassifiedLineView::RemovedOnly(b.last());
        assert(s.push(e).drop_last() =~= s);
        assert(s.push(e).last() == e);
        assert(before_projection(s.push(e)) =~= b.drop_last() + seq![b.last()]);
        assert(b.drop_last() + seq![b.last()] =~= b);
        assert(after_projection(s.push(e)) =~= a);
    } else if b.len() == 0 {
        lemma_reconstruction(b, a.drop_last());
        let s = spec_diff(b, a.drop_last());
        let e = ClassifiedLineView::AddedOnly(a.last());
        assert(s.push(e).drop_last() =~= s);
        assert(s.push(e).last() == e);
        assert(after_projection(s.push(e)) =~= a.drop_last() + seq![a.last()]);
        assert(a.drop_last() + seq![a.last()] =~= a);
        assert(before_projection(s.push(e)) =~= b);
    } else if b.last() == a.last() {
        lemma_reconstruction(b.drop_last(), a.drop_last());
        let s = spec_diff(b.drop_last(), a.drop_last());
        let e = ClassifiedLineView::Common(b.last(), a.last());
        assert(s.push(e).drop_last() =~= s);
        assert(s.push(e).last() == e);
        assert(before_projection(s.push(e)) =~= b.drop_last() + seq![b.last()]);
        assert(b.drop_last() + seq![b.last()] =~= b);
        assert(after_projection(s.push(e)) =~= a.drop_last() + seq![a.last()]);
        assert(a.drop_last() + seq![a.last()] =~= a);
    } else if lcs_len(b, a.drop_last()) >= lcs_len(b.drop_last(), a) {
        lemma_reconstruction(b, a.drop_last());
        let s = spec_diff(b, a.drop_last());
        let e = ClassifiedLineView::AddedOnly(a.last());
        assert(s.push(e).drop_last() =~= s);
        assert(s.push(e).last() == e);
        assert(after_projection(s.push(e)) =~= a.drop_last() + seq![a.last()]);
        assert(a.drop_last() + seq![a.last()] =~= a);
        assert(before_projection(s.push(e)) =~= b);
    } else {
        lemma_reconstruction(b.drop_last(), a);
        let s = spec_diff(b.drop_last(), a);
        let e = ClassifiedLineView::RemovedOnly(b.last());
        assert(s.push(e).drop_last() =~= s);
        assert(s.push(e).last() == e);
        assert(before_projection(s.push(e)) =~= b.drop_last() + seq![b.last()]);
        assert(b.drop_last() + seq![b.last()] =~= b);
        assert(after_projection(s.push(e)) =~= a);
    }
}

/// Identity: diffing a sequence against itself yields a script made of
/// common entries only, one per line, in the original order.
pub proof fn lemma_identity(s: Seq<Seq<char>>)
    ensures
        spec_diff(s, s).len() == s.len(),
        forall|k: int|
            0 <= k < s.len() ==> spec_diff(s, s)[k] == ClassifiedLineView::Common(s[k], s[k]),
    decreases s.len(),
{
    if s.len() == 0 {
    } else {
        lemma_identity(s.drop_last());
        let prev = spec_diff(s.drop_last(), s.drop_last());
        let e = ClassifiedLineView::Common(s.last(), s.last());
        assert(spec_diff(s, s) == prev.push(e));
        assert(forall|k: int|
            0 <= k < s.len() ==> spec_diff(s, s)[k] == ClassifiedLineView::Common(s[k], s[k]));
    }
}

/// Every script entry is exactly one of the three variants, so the three
/// counts partition the script.
pub proof fn lemma_counts_partition(s: Seq<ClassifiedLineView>)
    ensures
        removed_count(s) + common_count(s) + added_count(s) == s.len(),
    decreases s.len(),
{
    if s.len() == 0 {
    } else {
        lemma_counts_partition(s.drop_last());
    }
}

/// The script for `(b, a)` has exactly `lcs_len(b, a)` common entries — the
/// alignment is minimal — and therefore exactly `b.len() - lcs_len(b, a)`
/// removed-only and `a.len() - lcs_len(b, a)` added-only entries.
pub proof fn lemma_count_decomposition(b: Seq<Seq<char>>, a: Seq<Seq<char>>)
    ensures
        common_count(spec_diff(b, a)) == lcs_len(b, a),
        removed_count(spec_diff(b, a)) + lcs_len(b, a) == b.len(),
        added_count(spec_diff(b, a)) + lcs_len(b, a) == a.len(),
    decreases b.len() + a.len(),
{
    if b.len() == 0 && a.len() == 0 {
    } else if a.len() == 0 {
        lemma_count_decomposition(b.drop_last(), a);
        let s = spec_diff(b.drop_last(), a);
        let e = ClassifiedLineView::RemovedOnly(b.last());
        assert(s.push(e).drop_last() =~= s);
        assert(s.push(e).last() == e);
    } else if b.len() == 0 {
        lemma_count_decomposition(b, a.drop_last());
        let s = spec_diff(b, a.drop_last());
        let e = ClassifiedLineView::AddedOnly(a.last());
        assert(s.push(e).drop_last() =~= s);
        assert(s.push(e).last() == e);
    } else if b.last() == a.last() {
        lemma_count_decomposition(b.drop_last(), a.drop_last());
        let s = spec_diff(b.drop_last(), a.drop_last());
        let e = ClassifiedLineView::Common(b.last(), a.last());
        assert(s.push(e).drop_last() =~= s);
        assert(s.push(e).last() == e);
    } else if lcs_len(b, a.drop_last()) >= lcs_len(b.drop_last(), a) {
        lemma_count_decomposition(b, a.drop_last());
        let s = spec_diff(b, a.drop_last());
        let e = ClassifiedLineView::AddedOnly(a.last());
        assert(s.push(e).drop_last() =~= s);
        assert(s.push(e).last() == e);
    } else {
        lemma_count_decomposition(b.drop_last(), a);
        let s = spec_diff(b.drop_last(), a);
        let e = ClassifiedLineView::RemovedOnly(b.last());
        assert(s.push(e).drop_last() =~= s);
        assert(s.push(e).last() == e);
    }
}

/// The LCS length does not depend on the order of its two arguments.
pub proof fn lemma_lcs_symmetric(b: Seq<Seq<char>>, a: Seq<Seq<char>>)
    ensures
        lcs_len(b, a) == lcs_len(a, b),
    decreases b.len() + a.len(),
{
    if b.len() == 0 || a.len() == 0 {
    } else if b.last() == a.last() {
        lemma_lcs_symmetric(b.drop_last(), a.drop_last());
    } else {
        lemma_lcs_symmetric(b, a.drop_last());
        lemma_lcs_symmetric(b.drop_last(), a);
    }
}

/// Symmetry of structure: diffing in either direction yields the same
/// number of common entries, and the removed-only and added-only counts
/// swap roles.
pub proof fn lemma_structural_symmetry(b: Seq<Seq<char>>, a: Seq<Seq<char>>)
    ensures
        common_count(spec_diff(b, a)) == common_count(spec_diff(a, b)),
        removed_count(spec_diff(b, a)) == added_count(spec_diff(a, b)),
        added_count(spec_diff(b, a)) == removed_count(spec_diff(a, b)),
{
    lemma_count_decomposition(b, a);
    lemma_count_decomposition(a, b);
    lemma_lcs_symmetric(b, a);
}

/// Two sequences with no line in common have an LCS of length zero.
pub proof fn lemma_lcs_disjoint(b: Seq<Seq<char>>, a: Seq<Seq<char>>)
    requires
        forall|p: int, q: int| 0 <= p < b.len() && 0 <= q < a.len() ==> b[p] != a[q],
    ensures
        lcs_len(b, a) == 0,
    decreases b.len() + a.len(),
{
    if b.len() == 0 || a.len() == 0 {
    } else {
        assert(b[b.len() - 1] != a[a.len() - 1]);
        lemma_lcs_disjoint(b, a.drop_last());
        lemma_lcs_disjoint(b.drop_last(), a);
    }
}

/// Disjointness: if no line of `before` equals any line of `after`, the
/// script has no common entry and exactly one entry per input line.
pub proof fn lemma_disjoint(b: Seq<Seq<char>>, a: Seq<Seq<char>>)
    requires
        forall|p: int, q: int| 0 <= p < b.len() && 0 <= q < a.len() ==> b[p] != a[q],
    ensures
        common_count(spec_diff(b, a)) == 0,
        spec_diff(b, a).len() == b.len() + a.len(),
{
    lemma_lcs_disjoint(b, a);
    lemma_count_decomposition(b, a);
    lemma_counts_partition(spec_diff(b, a));
}

/// The engine's script is a valid alignment of its two inputs.
pub proof fn lemma_diff_aligns(b: Seq<Seq<char>>, a: Seq<Seq<char>>)
    ensures
        aligns(spec_diff(b, a), b, a),
    decreases b.len() + a.len(),
{
    lemma_reconstruction(b, a);
    if b.len() == 0 && a.len() == 0 {
    } else {
        let s = if a.len() == 0 {
            lemma_diff_aligns(b.drop_last(), a);
            spec_diff(b.drop_last(), a)
        } else if b.len() == 0 {
            lemma_diff_aligns(b, a.drop_last());
            spec_diff(b, a.drop_last())
        } else if b.last() == a.last() {
            lemma_diff_aligns(b.drop_last(), a.drop_last());
            spec_diff(b.drop_last(), a.drop_last())
        } else if lcs_len(b, a.drop_last()) >= lcs_len(b.drop_last(), a) {
            lemma_diff_aligns(b, a.drop_last());
            spec_diff(b, a.drop_last())
        } else {
            lemma_diff_aligns(b.drop_last(), a);
            spec_diff(b.drop_last(), a)
        };
        let e = spec_diff(b, a).last();
        assert(spec_diff(b, a) == s.push(e));
        assert(common_ok(e));
        assert forall|k: int| 0 <= k < spec_diff(b, a).len() implies common_ok(
            #[trigger] spec_diff(b, a)[k],
        ) by {
            if k < s.len() {
                assert(spec_diff(b, a)[k] == s[k]);
            } else {
                assert(spec_diff(b, a)[k] == e);
            }
        }
    }
}

/// Dropping the trailing line of either sequence lowers the LCS length by
/// at most one, and never raises it.
pub proof fn lemma_lcs_step(b: Seq<Seq<char>>, a: Seq<Seq<char>>)
    ensures
        b.len() > 0 ==> lcs_len(b.drop_last(), a) <= lcs_len(b, a) <= lcs_len(b.drop_last(), a)
            + 1,
        a.len() > 0 ==> lcs_len(b, a.drop_last()) <= lcs_len(b, a) <= lcs_len(b, a.drop_last())
            + 1,
    decreases b.len() + a.len(),
{
    if b.len() == 0 || a.len() == 0 {
    } else {
        lemma_lcs_step(b.drop_last(), a);
        lemma_lcs_step(b, a.drop_last());
    }
}

/// The projections' lengths decompose over the counts: each removed-only or
/// common entry claims one before-line, each added-only or common entry one
/// after-line.
pub proof fn lemma_projection_lengths(s: Seq<ClassifiedLineView>)
    ensures
        before_projection(s).len() == removed_count(s) + common_count(s),
        after_projection(s).len() == added_count(s) + common_count(s),
    decreases s.len(),
{
    if s.len() == 0 {
    } else {
        lemma_projection_lengths(s.drop_last());
    }
}

/// No valid alignment of `b` and `a` has more common entries than the LCS
/// length: the common lines of an alignment form a common subsequence.
pub proof fn lemma_alignment_common_bound(
    s: Seq<ClassifiedLineView>,
    b: Seq<Seq<char>>,
    a: Seq<Seq<char>>,
)
    requires
        aligns(s, b, a),
    ensures
        common_count(s) <= lcs_len(b, a),
    decreases s.len(),
{
    if s.len() == 0 {
    } else {
        let s0 = s.drop_last();
        assert(common_ok(s[s.len() - 1]));
        match s.last() {
            ClassifiedLineView::Common(x, y) => {
                assert(b =~= before_projection(s0) + seq![x]);
                assert(b.drop_last() =~= before_projection(s0));
                assert(a.drop_last() =~= after_projection(s0));
                assert(b.last() == x && a.last() == y && x == y);
                assert(aligns(s0, b.drop_last(), a.drop_last()));
                lemma_alignment_common_bound(s0, b.drop_last(), a.drop_last());
            },
            ClassifiedLineView::RemovedOnly(x) => {
                assert(b =~= before_projection(s0) + seq![x]);
                assert(b.drop_last() =~= before_projection(s0));
                assert(after_projection(s0) =~= a);
                assert(aligns(s0, b.drop_last(), a));
                lemma_alignment_common_bound(s0, b.drop_last(), a);
                lemma_lcs_step(b, a);
            },
            ClassifiedLineView::AddedOnly(x) => {
                assert(a =~= after_projection(s0) + seq![x]);
                assert(a.drop_last() =~= after_projection(s0));
                assert(before_projection(s0) =~= b);
                assert(aligns(s0, b, a.drop_last()));
                lemma_alignment_common_bound(s0, b, a.drop_last());
                lemma_lcs_step(b, a);
            },
        }
    }
}

/// Minimality: among all valid alignments of `b` and `a`, the engine's
/// script has the fewest non-common entries (equivalently, the most common
/// ones).
pub proof fn lemma_minimality(s: Seq<ClassifiedLineView>, b: Seq<Seq<char>>, a: Seq<Seq<char>>)
    requires
        aligns(s, b, a),
    ensures
        common_count(spec_diff(b, a)) >= common_count(s),
        removed_count(spec_diff(b, a)) + added_count(spec_diff(b, a)) <= removed_count(s)
            + added_count(s),
{
    lemma_alignment_common_bound(s, b, a);
    lemma_count_decomposition(b, a);
    lemma_projection_lengths(s);
}

} // verus!
