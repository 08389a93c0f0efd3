//! Coalescing an ascending sequence of intervals into the minimal ascending
//! sequence of non-overlapping intervals, in a single left-to-right pass.

use vstd::prelude::*;

use crate::interval::Interval;
use crate::interval::lemma_merge_union;

verus! {

/// Every interval of the sequence is well-formed.
pub open spec fn wf_all(s: Seq<Interval>) -> bool {
    forall|i: int| 0 <= i < s.len() ==> s[i].wf()
}

/// Both bounds ascend along the sequence, as the windows of ascending match
/// positions do.
pub open spec fn sorted(s: Seq<Interval>) -> bool {
    forall|i: int, j: int|
        0 <= i < j < s.len() ==> s[i].start <= s[j].start && s[i].end <= s[j].end
}

/// Each interval ends strictly before the next begins: the sequence is
/// ascending and pairwise non-overlapping, i.e. already coalesced.
pub open spec fn separated(s: Seq<Interval>) -> bool {
    forall|i: int| 0 <= i < s.len() - 1 ==> s[i].end < s[i + 1].start
}

/// The point `p` lies inside at least one interval of the sequence.
pub open spec fn covered(s: Seq<Interval>, p: int) -> bool {
    exists|i: int| 0 <= i < s.len() && s[i].spec_contains(p)
}

/// One left-to-right coalescing pass, carrying `acc` as the accumulator:
/// an interval overlapping the accumulator extends it, any other interval
/// finalizes the accumulator and starts a new one.
pub open spec fn spec_coalesce_from(acc: Interval, rest: Seq<Interval>) -> Seq<Interval>
    decreases rest.len(),
{
    if rest.len() == 0 {
        seq![acc]
    } else if acc.spec_overlaps(rest[0]) {
        spec_coalesce_from(Interval { start: acc.start, end: rest[0].end }, rest.skip(1))
    } else {
        seq![acc] + spec_coalesce_from(rest[0], rest.skip(1))
    }
}

/// The coalesced form of a sequence of intervals: the single pass of
/// `spec_coalesce_from` seeded with the first interval.
pub open spec fn spec_coalesce(s: Seq<Interval>) -> Seq<Interval> {
    if s.len() == 0 {
        Seq::empty()
    } else {
        spec_coalesce_from(s[0], s.skip(1))
    }
}

/// Merges overlapping intervals: a single pass over the input that merges
/// each interval into the current accumulator when they overlap and emits the
/// accumulator otherwise, returning exactly the coalesced sequence.
pub fn merge_intervals(intervals: Vec<Interval>) -> (r: Vec<Interval>)
    ensures
        r@ == spec_coalesce(intervals@),
{
    let mut out: Vec<Interval> = Vec::new();
    if intervals.len() == 0 {
        assert(out@ =~= spec_coalesce(intervals@));
        return out;
    }
    let mut acc = intervals[0];
    let mut i: usize = 1;
    while i < intervals.len()
        invariant
            1 <= i <= intervals@.len(),
            spec_coalesce(intervals@) == out@ + spec_coalesce_from(
                acc,
                intervals@.skip(i as int),
            ),
        decreases intervals@.len() - i,
    {
        let next = intervals[i];
        let ghost rest = intervals@.skip(i as int);
        proof {
            assert(rest[0] == intervals@[i as int]);
            assert(rest.skip(1) =~= intervals@.skip(i as int + 1));
        }
        match acc.merge(&next) {
            Ok(merged) => {
                acc = merged;
            },
            Err(_) => {
                proof {
                    assert(out@ + (seq![acc] + spec_coalesce_from(next, rest.skip(1))) =~= (out@
                        + seq![acc]) + spec_coalesce_from(next, rest.skip(1)));
                    assert(out@.push(acc) =~= out@ + seq![acc]);
                }
                out.push(acc);
                acc = next;
            },
        }
        i = i + 1;
    }
    proof {
        assert(intervals@.skip(i as int) =~= Seq::<Interval>::empty());
        assert(out@.push(acc) =~= out@ + seq![acc]);
    }
    out.push(acc);
    out
}

/// After a pass seeded with an accumulator that ends strictly before a
/// separated, well-formed remainder begins, nothing merges: the pass returns
/// the accumulator followed by the remainder unchanged.
proof fn lemma_coalesce_from_separated(acc: Interval, rest: Seq<Interval>)
    requires
        acc.wf(),
        wf_all(rest),
        separated(rest),
        rest.len() > 0 ==> acc.end < rest[0].start,
    ensures
        spec_coalesce_from(acc, rest) == seq![acc] + rest,
    decreases rest.len(),
{
    if rest.len() == 0 {
        assert(spec_coalesce_from(acc, rest) =~= seq![acc] + rest);
    } else {
        assert(!acc.spec_overlaps(rest[0]));
        let tail = rest.skip(1);
        assert(wf_all(tail)) by {
            assert(forall|k: int| 0 <= k < tail.len() ==> tail[k] == rest[k + 1]);
        }
        assert(separated(tail)) by {
            assert(forall|k: int| 0 <= k < tail.len() ==> tail[k] == rest[k + 1]);
        }
        if tail.len() > 0 {
            assert(rest[0].end < rest[1].start);
            assert(tail[0] == rest[1]);
        }
        lemma_coalesce_from_separated(rest[0], tail);
        assert(seq![acc] + (seq![rest[0]] + tail) =~= seq![acc] + rest);
    }
}

/// Coalescing is idempotent: an already-coalesced sequence — well-formed,
/// ascending, pairwise non-overlapping — comes back unchanged.
pub proof fn lemma_coalesce_idempotent(s: Seq<Interval>)
    requires
        wf_all(s),
        separated(s),
    ensures
        spec_coalesce(s) == s,
{
    if s.len() == 0 {
        assert(spec_coalesce(s) =~= s);
    } else {
        let tail = s.skip(1);
        assert(wf_all(tail) && separated(tail)) by {
            assert(forall|k: int| 0 <= k < tail.len() ==> tail[k] == s[k + 1]);
        }
        if tail.len() > 0 {
            assert(tail[0] == s[1]);
        }
        lemma_coalesce_from_separated(s[0], tail);
        assert(seq![s[0]] + tail =~= s);
    }
}

/// The pass seeded with `acc` yields a well-formed, separated sequence whose
/// first interval starts where `acc` does, provided both bounds ascend from
/// `acc` through the remainder.
proof fn lemma_coalesce_from_shape(acc: Interval, rest: Seq<Interval>)
    requires
        acc.wf(),
        wf_all(rest),
        sorted(rest),
        rest.len() > 0 ==> acc.start <= rest[0].start && acc.end <= rest[0].end,
    ensures
        wf_all(spec_coalesce_from(acc, rest)),
        separated(spec_coalesce_from(acc, rest)),
        spec_coalesce_from(acc, rest).len() > 0,
        spec_coalesce_from(acc, rest)[0].start == acc.start,
    decreases rest.len(),
{
    if rest.len() == 0 {
        assert(spec_coalesce_from(acc, rest)[0] == acc);
    } else {
        let tail = rest.skip(1);
        assert(wf_all(tail) && sorted(tail)) by {
            assert(forall|k: int| 0 <= k < tail.len() ==> tail[k] == rest[k + 1]);
        }
        if tail.len() > 0 {
            assert(tail[0] == rest[1]);
        }
        if acc.spec_overlaps(rest[0]) {
            let merged = Interval { start: acc.start, end: rest[0].end };
            lemma_coalesce_from_shape(merged, tail);
        } else {
            assert(acc.end < rest[0].start);
            lemma_coalesce_from_shape(rest[0], tail);
            let sub = spec_coalesce_from(rest[0], tail);
            let whole = seq![acc] + sub;
            assert(whole[0] == acc);
            assert(forall|k: int| 0 <= k < sub.len() ==> whole[k + 1] == sub[k]);
            assert forall|k: int| 0 <= k < whole.len() - 1 implies #[trigger] whole[k].end < whole[k
                + 1].start by {
                if k == 0 {
                    assert(whole[1] == sub[0]);
                } else {
                    assert(whole[k] == sub[k - 1] && whole[k + 1] == sub[k]);
                }
            }
        }
    }
}

/// The coalesced form of a well-formed input whose bounds both ascend is
/// itself well-formed, ascending, and pairwise non-overlapping — already
/// coalesced, so a second pass leaves it unchanged.
pub proof fn lemma_coalesce_output_separated(s: Seq<Interval>)
    requires
        wf_all(s),
        sorted(s),
    ensures
        wf_all(spec_coalesce(s)),
        separated(spec_coalesce(s)),
{
    if s.len() > 0 {
        let tail = s.skip(1);
        assert(wf_all(tail) && sorted(tail)) by {
            assert(forall|k: int| 0 <= k < tail.len() ==> tail[k] == s[k + 1]);
        }
        if tail.len() > 0 {
            assert(tail[0] == s[1]);
        }
        lemma_coalesce_from_shape(s[0], tail);
    }
}

/// In a well-formed, separated sequence every earlier interval ends strictly
/// before every later one begins, not only its immediate successor.
proof fn lemma_separated_chain(s: Seq<Interval>, i: int, j: int)
    requires
        wf_all(s),
        separated(s),
        0 <= i < j < s.len(),
    ensures
        s[i].end < s[j].start,
    decreases j - i,
{
    if j > i + 1 {
        lemma_separated_chain(s, i, j - 1);
        assert(s[j - 1].end < s[j].start);
    }
}

/// In a well-formed, separated sequence any two intervals in order are wholly
/// disjoint: the earlier one ends strictly before the later one begins.
pub proof fn lemma_separated_pairwise(s: Seq<Interval>)
    requires
        wf_all(s),
        separated(s),
    ensures
        forall|i: int, j: int| 0 <= i < j < s.len() ==> #[trigger] s[i].end < #[trigger] s[j].start,
{
    assert forall|i: int, j: int|
        0 <= i < j < s.len() implies #[trigger] s[i].end < #[trigger] s[j].start by {
        lemma_separated_chain(s, i, j);
    }
}

/// A point is covered by a non-empty sequence exactly when it lies in the
/// first interval or is covered by the remainder.
pub proof fn lemma_covered_cons(s: Seq<Interval>, p: int)
    requires
        s.len() > 0,
    ensures
        covered(s, p) == (s[0].spec_contains(p) || covered(s.skip(1), p)),
{
    let tail = s.skip(1);
    if covered(s, p) {
        let i = choose|i: int| 0 <= i < s.len() && s[i].spec_contains(p);
        if i > 0 {
            assert(tail[i - 1] == s[i]);
            assert(covered(tail, p));
        }
    }
    if covered(tail, p) {
        let i = choose|i: int| 0 <= i < tail.len() && tail[i].spec_contains(p);
        assert(s[i + 1] == tail[i]);
        assert(covered(s, p));
    }
    if s[0].spec_contains(p) {
        assert(covered(s, p));
    }
}

/// A point is covered by a concatenation exactly when one of the halves
/// covers it.
proof fn lemma_covered_concat(a: Seq<Interval>, b: Seq<Interval>, p: int)
    ensures
        covered(a + b, p) == (covered(a, p) || covered(b, p)),
{
    let c = a + b;
    if covered(c, p) {
        let i = choose|i: int| 0 <= i < c.len() && c[i].spec_contains(p);
        if i < a.len() {
            assert(a[i] == c[i]);
            assert(covered(a, p));
        } else {
            assert(b[i - a.len()] == c[i]);
            assert(covered(b, p));
        }
    }
    if covered(a, p) {
        let i = choose|i: int| 0 <= i < a.len() && a[i].spec_contains(p);
        assert(c[i] == a[i]);
        assert(covered(c, p));
    }
    if covered(b, p) {
        let i = choose|i: int| 0 <= i < b.len() && b[i].spec_contains(p);
        assert(c[a.len() + i] == b[i]);
        assert(covered(c, p));
    }
}

/// The pass seeded with `acc` covers exactly the points of `acc` and of the
/// remainder, provided both bounds ascend from `acc` through the remainder.
proof fn lemma_coalesce_from_union(acc: Interval, rest: Seq<Interval>, p: int)
    requires
        acc.wf(),
        wf_all(rest),
        sorted(rest),
        rest.len() > 0 ==> acc.start <= rest[0].start && acc.end <= rest[0].end,
    ensures
        covered(spec_coalesce_from(acc, rest), p) == (acc.spec_contains(p) || covered(rest, p)),
    decreases rest.len(),
{
    if rest.len() == 0 {
        assert(spec_coalesce_from(acc, rest)[0] == acc);
        if acc.spec_contains(p) {
            assert(covered(spec_coalesce_from(acc, rest), p));
        }
    } else {
        let tail = rest.skip(1);
        assert(wf_all(tail) && sorted(tail)) by {
            assert(forall|k: int| 0 <= k < tail.len() ==> tail[k] == rest[k + 1]);
        }
        if tail.len() > 0 {
            assert(tail[0] == rest[1]);
        }
        lemma_covered_cons(rest, p);
        if acc.spec_overlaps(rest[0]) {
            let merged = Interval { start: acc.start, end: rest[0].end };
            lemma_merge_union(acc, rest[0]);
            lemma_coalesce_from_union(merged, tail, p);
        } else {
            lemma_coalesce_from_union(rest[0], tail, p);
            lemma_covered_concat(seq![acc], spec_coalesce_from(rest[0], tail), p);
            assert(seq![acc][0] == acc);
            if acc.spec_contains(p) {
                assert(covered(seq![acc], p));
            }
            if covered(seq![acc], p) {
                let i = choose|i: int| 0 <= i < 1 && seq![acc][i].spec_contains(p);
                assert(acc.spec_contains(p));
            }
        }
    }
}

/// Coalescing preserves the covered set: for a well-formed input whose bounds
/// both ascend, a point lies in some coalesced interval exactly when it lies
/// in some input interval.
pub proof fn lemma_coalesce_union(s: Seq<Interval>)
    requires
        wf_all(s),
        sorted(s),
    ensures
        forall|p: int| covered(spec_coalesce(s), p) == covered(s, p),
{
    if s.len() == 0 {
        assert(forall|p: int| !covered(s, p));
        assert(forall|p: int| !covered(spec_coalesce(s), p));
    } else {
        let tail = s.skip(1);
        assert(wf_all(tail) && sorted(tail)) by {
            assert(forall|k: int| 0 <= k < tail.len() ==> tail[k] == s[k + 1]);
        }
        if tail.len() > 0 {
            assert(tail[0] == s[1]);
        }
        assert forall|p: int| covered(spec_coalesce(s), p) == covered(s, p) by {
            lemma_coalesce_from_union(s[0], tail, p);
            lemma_covered_cons(s, p);
        }
    }
}

} // verus!
