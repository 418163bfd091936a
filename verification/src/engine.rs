//! The diff engine: a verified longest-common-subsequence alignment of two
//! line sequences, with a deterministic tie-break.
//!
//! `spec_diff` is the mathematical statement of the whole algorithm: the
//! script is recovered from the back of both sequences; equal trailing lines
//! become a common entry; otherwise the script steps back in whichever
//! sequence keeps the alignment optimal, preferring the "after" side on ties
//! (so in forward order removed lines precede added ones). The executable
//! `diff` is proved to return exactly that script.

use vstd::prelude::*;

use crate::script::ClassifiedLine;
use crate::script::ClassifiedLineView;

verus! {

/// The length of a longest common subsequence of `b` and `a`: the longest
/// run of lines appearing in both, in relative order but not necessarily
/// contiguously.
pub open spec fn lcs_len(b: Seq<Seq<char>>, a: Seq<Seq<char>>) -> nat
    decreases b.len() + a.len(),
{
    if b.len() == 0 || a.len() == 0 {
        0
    } else if b.last() == a.last() {
        lcs_len(b.drop_last(), a.drop_last()) + 1
    } else {
        let keep_b = lcs_len(b, a.drop_last());
        let keep_a = lcs_len(b.drop_last(), a);
        if keep_b >= keep_a {
            keep_b
        } else {
            keep_a
        }
    }
}

/// The edit script for `b` and `a`: one optimal alignment, pinned down by
/// the tie-break described at the top of this module.
pub open spec fn spec_diff(b: Seq<Seq<char>>, a: Seq<Seq<char>>) -> Seq<ClassifiedLineView>
    decreases b.len() + a.len(),
{
    if b.len() == 0 && a.len() == 0 {
        Seq::empty()
    } else if a.len() == 0 {
        spec_diff(b.drop_last(), a).push(ClassifiedLineView::RemovedOnly(b.last()))
    } else if b.len() == 0 {
        spec_diff(b, a.drop_last()).push(ClassifiedLineView::AddedOnly(a.last()))
    } else if b.last() == a.last() {
        spec_diff(b.drop_last(), a.drop_last()).push(
            ClassifiedLineView::Common(b.last(), a.last()),
        )
    } else if lcs_len(b, a.drop_last()) >= lcs_len(b.drop_last(), a) {
        spec_diff(b, a.drop_last()).push(ClassifiedLineView::AddedOnly(a.last()))
    } else {
        spec_diff(b.drop_last(), a).push(ClassifiedLineView::RemovedOnly(b.last()))
    }
}

/// An LCS is never longer than either sequence.
pub proof fn lemma_lcs_len_bound(b: Seq<Seq<char>>, a: Seq<Seq<char>>)
    ensures
        lcs_len(b, a) <= b.len(),
        lcs_len(b, a) <= a.len(),
    decreases b.len() + a.len(),
{
    if b.len() == 0 || a.len() == 0 {
    } else if b.last() == a.last() {
        lemma_lcs_len_bound(b.drop_last(), a.drop_last());
    } else {
        lemma_lcs_len_bound(b, a.drop_last());
        lemma_lcs_len_bound(b.drop_last(), a);
    }
}

/// Classify every line of `before` and `after` as removed-only, common, or
/// added-only, preserving relative order. The script is exactly the optimal
/// alignment that `spec_diff` describes.
pub fn diff(before: &Vec<String>, after: &Vec<String>) -> (script: Vec<ClassifiedLine>)
    ensures
        script.deep_view() == spec_diff(before.deep_view(), after.deep_view()),
{
    let ghost bb: Seq<Seq<char>> = before.deep_view();
    let ghost aa: Seq<Seq<char>> = after.deep_view();
    let m = before.len();
    let n = after.len();
    let t = lcs_table(before, after);

    // Backtrack from the end of both sequences, emitting entries in reverse
    // script order.
    let mut rev: Vec<ClassifiedLine> = Vec::new();
    let mut i: usize = m;
    let mut j: usize = n;
    proof {
        assert(bb.take(m as int) =~= bb);
        assert(aa.take(n as int) =~= aa);
        assert(rev.deep_view() =~= Seq::<ClassifiedLineView>::empty());
        assert(spec_diff(bb.take(i as int), aa.take(j as int)) + rev.deep_view().reverse()
            =~= spec_diff(bb, aa));
    }
    while i > 0 || j > 0
        invariant
            i <= m,
            j <= n,
            bb == before.deep_view(),
            aa == after.deep_view(),
            m == bb.len(),
            n == aa.len(),
            t@.len() == m + 1,
            forall|p: int| 0 <= p <= m ==> (#[trigger] t@[p])@.len() == n + 1,
            forall|p: int, q: int|
                0 <= p <= m && 0 <= q <= n ==> #[trigger] t@[p]@[q] == lcs_len(
                    bb.take(p),
                    aa.take(q),
                ),
            spec_diff(bb, aa) == spec_diff(bb.take(i as int), aa.take(j as int))
                + rev.deep_view().reverse(),
        decreases i + j,
    {
        let ghost i0 = i as int;
        let ghost j0 = j as int;
        let ghost rev0 = rev.deep_view();
        if j == 0 {
            rev.push(ClassifiedLine::RemovedOnly(before[i - 1].clone()));
            i = i - 1;
        } else if i == 0 {
            rev.push(ClassifiedLine::AddedOnly(after[j - 1].clone()));
            j = j - 1;
        } else if before[i - 1] == after[j - 1] {
            rev.push(ClassifiedLine::Common(before[i - 1].clone(), after[j - 1].clone()));
            i = i - 1;
            j = j - 1;
        } else {
            let keep_b = t[i][j - 1];
            let keep_a = t[i - 1][j];
            if keep_b >= keep_a {
                rev.push(ClassifiedLine::AddedOnly(after[j - 1].clone()));
                j = j - 1;
            } else {
                rev.push(ClassifiedLine::RemovedOnly(before[i - 1].clone()));
                i = i - 1;
            }
        }
        proof {
            let e = rev.deep_view().last();
            assert(rev.deep_view() =~= rev0.push(e));
            if i0 > 0 {
                assert(bb.take(i0).drop_last() =~= bb.take(i0 - 1));
                assert(bb.take(i0).last() == bb[i0 - 1]);
            }
            if j0 > 0 {
                assert(aa.take(j0).drop_last() =~= aa.take(j0 - 1));
                assert(aa.take(j0).last() == aa[j0 - 1]);
            }
            let cur = spec_diff(bb.take(i as int), aa.take(j as int));
            assert(spec_diff(bb.take(i0), aa.take(j0)) == cur.push(e));
            assert(rev0.push(e).reverse() =~= seq![e] + rev0.reverse());
            assert(cur.push(e) + rev0.reverse() =~= cur + (seq![e] + rev0.reverse()));
        }
    }

    // Restore forward order.
    proof {
        assert(bb.take(0) =~= Seq::<Seq<char>>::empty());
        assert(aa.take(0) =~= Seq::<Seq<char>>::empty());
        assert(Seq::<ClassifiedLineView>::empty() + rev.deep_view().reverse()
            =~= rev.deep_view().reverse());
    }
    let mut script: Vec<ClassifiedLine> = Vec::new();
    while rev.len() > 0
        invariant
            bb == before.deep_view(),
            aa == after.deep_view(),
            spec_diff(bb, aa) == script.deep_view() + rev.deep_view().reverse(),
        decreases rev.len(),
    {
        let ghost rev0 = rev.deep_view();
        let ghost script0 = script.deep_view();
        let entry = rev.pop().unwrap();
        script.push(entry);
        proof {
            let e = rev0.last();
            assert(rev.deep_view() =~= rev0.drop_last());
            assert(script.deep_view() =~= script0.push(e));
            assert(rev0.reverse() =~= seq![e] + rev0.drop_last().reverse());
            assert(script0 + (seq![e] + rev0.drop_last().reverse()) =~= script0.push(e)
                + rev0.drop_last().reverse());
        }
    }
    proof {
        assert(script.deep_view() + rev.deep_view().reverse() =~= script.deep_view());
    }
    script
}

/// The dynamic-programming table of LCS lengths: entry `(i, j)` is the LCS
/// length of the first `i` lines of `before` and the first `j` of `after`.
fn lcs_table(before: &Vec<String>, after: &Vec<String>) -> (t: Vec<Vec<usize>>)
    ensures
        t@.len() == before@.len() + 1,
        forall|p: int| 0 <= p < t@.len() ==> (#[trigger] t@[p])@.len() == after@.len() + 1,
        forall|p: int, q: int|
            0 <= p < t@.len() && 0 <= q <= after@.len() ==> #[trigger] t@[p]@[q] == lcs_len(
                before.deep_view().take(p),
                after.deep_view().take(q),
            ),
{
    let ghost bb: Seq<Seq<char>> = before.deep_view();
    let ghost aa: Seq<Seq<char>> = after.deep_view();
    let m = before.len();
    let n = after.len();
    let mut t: Vec<Vec<usize>> = Vec::new();
    let mut i: usize = 0;
    loop
        invariant_except_break
            i <= m,
            t@.len() == i,
            bb == before.deep_view(),
            aa == after.deep_view(),
            m == bb.len(),
            n == aa.len(),
            forall|p: int| 0 <= p < i ==> (#[trigger] t@[p])@.len() == n + 1,
            forall|p: int, q: int|
                0 <= p < i && 0 <= q <= n ==> #[trigger] t@[p]@[q] == lcs_len(
                    bb.take(p),
                    aa.take(q),
                ),
        ensures
            t@.len() == m + 1,
            forall|p: int| 0 <= p <= m ==> (#[trigger] t@[p])@.len() == n + 1,
            forall|p: int, q: int|
                0 <= p <= m && 0 <= q <= n ==> #[trigger] t@[p]@[q] == lcs_len(
                    bb.take(p),
                    aa.take(q),
                ),
        decreases m - i,
    {
        let mut row: Vec<usize> = Vec::new();
        let mut j: usize = 0;
        loop
            invariant_except_break
                j <= n,
                row@.len() == j,
                i <= m,
                t@.len() == i,
                bb == before.deep_view(),
                aa == after.deep_view(),
                m == bb.len(),
                n == aa.len(),
                forall|p: int| 0 <= p < i ==> (#[trigger] t@[p])@.len() == n + 1,
                forall|p: int, q: int|
                    0 <= p < i && 0 <= q <= n ==> #[trigger] t@[p]@[q] == lcs_len(
                        bb.take(p),
                        aa.take(q),
                    ),
                forall|q: int|
                    0 <= q < j ==> #[trigger] row@[q] == lcs_len(bb.take(i as int), aa.take(q)),
            ensures
                row@.len() == n + 1,
                forall|q: int|
                    0 <= q <= n ==> #[trigger] row@[q] == lcs_len(bb.take(i as int), aa.take(q)),
            decreases n - j,
        {
            proof {
                if i > 0 {
                    assert(bb.take(i as int).drop_last() =~= bb.take(i as int - 1));
                    assert(bb.take(i as int).last() == bb[i as int - 1]);
                }
                if j > 0 {
                    assert(aa.take(j as int).drop_last() =~= aa.take(j as int - 1));
                    assert(aa.take(j as int).last() == aa[j as int - 1]);
                }
            }
            let cell: usize;
            if i == 0 || j == 0 {
                cell = 0;
            } else if before[i - 1] == after[j - 1] {
                proof {
                    lemma_lcs_len_bound(bb.take(i as int - 1), aa.take(j as int - 1));
                }
                cell = t[i - 1][j - 1] + 1;
            } else {
                let keep_b = row[j - 1];
                let keep_a = t[i - 1][j];
                cell = if keep_b >= keep_a {
                    keep_b
                } else {
                    keep_a
                };
            }
            row.push(cell);
            if j == n {
                break;
            }
            j = j + 1;
        }
        t.push(row);
        if i == m {
            break;
        }
        i = i + 1;
    }
    t
}

} // verus!
