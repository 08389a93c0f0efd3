//! Rendering coalesced intervals: selecting, in order, every source line that
//! some interval covers, paired with its 1-based line number.

use vstd::prelude::*;

use crate::coalesce::covered;
use crate::coalesce::lemma_covered_cons;
use crate::coalesce::lemma_separated_pairwise;
use crate::coalesce::separated;
use crate::coalesce::wf_all;
use crate::interval::Interval;

verus! {

/// The line indices that one interval selects from a file of `len` lines: the
/// interval clipped to the valid index range `[0, len)`, in ascending order.
pub open spec fn indices_in(interval: Interval, len: int) -> Seq<int> {
    let lo: int = if interval.start > 0 {
        interval.start as int
    } else {
        0
    };
    let hi: int = if interval.end < len - 1 {
        interval.end as int
    } else {
        len - 1
    };
    if lo <= hi {
        Seq::new((hi - lo + 1) as nat, |k: int| lo + k)
    } else {
        Seq::empty()
    }
}

/// The line indices that a sequence of intervals selects, interval by
/// interval.
pub open spec fn selected_of(intervals: Seq<Interval>, len: int) -> Seq<int>
    decreases intervals.len(),
{
    if intervals.len() == 0 {
        Seq::empty()
    } else {
        indices_in(intervals[0], len) + selected_of(intervals.skip(1), len)
    }
}

/// Every selected index is a valid index into the file.
pub proof fn lemma_selected_in_range(intervals: Seq<Interval>, len: int)
    ensures
        forall|k: int|
            0 <= k < selected_of(intervals, len).len() ==> 0 <= #[trigger] selected_of(
                intervals,
                len,
            )[k] < len,
    decreases intervals.len(),
{
    if intervals.len() > 0 {
        lemma_selected_in_range(intervals.skip(1), len);
        let head = indices_in(intervals[0], len);
        let tail = selected_of(intervals.skip(1), len);
        assert forall|k: int|
            0 <= k < selected_of(intervals, len).len() implies 0 <= #[trigger] selected_of(
            intervals,
            len,
        )[k] < len by {
            if k < head.len() {
                assert(selected_of(intervals, len)[k] == head[k]);
            } else {
                assert(selected_of(intervals, len)[k] == tail[k - head.len()]);
            }
        }
    }
}

/// Rendering coalesced intervals prints no line twice and misses none: for a
/// well-formed, separated sequence — as the coalescer produces — the selected
/// indices are strictly ascending, and an index is selected exactly when it is
/// a valid line index that some interval covers.
pub proof fn lemma_selected_exactly_covered(intervals: Seq<Interval>, len: int)
    requires
        wf_all(intervals),
        separated(intervals),
    ensures
        forall|k: int, l: int|
            0 <= k < l < selected_of(intervals, len).len() ==> #[trigger] selected_of(
                intervals,
                len,
            )[k] < #[trigger] selected_of(intervals, len)[l],
        forall|p: int|
            #[trigger] selected_of(intervals, len).contains(p) <==> (0 <= p < len && covered(
                intervals,
                p,
            )),
    decreases intervals.len(),
{
    let sel = selected_of(intervals, len);
    if intervals.len() == 0 {
        assert forall|p: int| !sel.contains(p) && !covered(intervals, p) by {
            assert(sel.len() == 0);
        }
    } else {
        let first = intervals[0];
        let rest = intervals.skip(1);
        assert(wf_all(rest) && separated(rest)) by {
            assert(forall|k: int| 0 <= k < rest.len() ==> rest[k] == intervals[k + 1]);
        }
        lemma_selected_exactly_covered(rest, len);
        lemma_separated_pairwise(intervals);
        let head = indices_in(first, len);
        let tailsel = selected_of(rest, len);
        let lo: int = if first.start > 0 {
            first.start as int
        } else {
            0
        };
        let hi: int = if first.end < len - 1 {
            first.end as int
        } else {
            len - 1
        };
        assert forall|l: int| 0 <= l < tailsel.len() implies #[trigger] tailsel[l] > first.end by {
            assert(tailsel.contains(tailsel[l]));
            let j = choose|j: int| 0 <= j < rest.len() && rest[j].spec_contains(tailsel[l]);
            assert(rest[j] == intervals[j + 1]);
            assert(intervals[0].end < intervals[j + 1].start);
        }
        assert forall|k: int, l: int|
            0 <= k < l < sel.len() implies #[trigger] sel[k] < #[trigger] sel[l] by {
            if l < head.len() {
                assert(sel[k] == head[k] && sel[l] == head[l]);
            } else if k >= head.len() {
                assert(sel[k] == tailsel[k - head.len()] && sel[l] == tailsel[l - head.len()]);
            } else {
                assert(sel[k] == head[k] && head[k] == lo + k && head[k] <= hi <= first.end);
                assert(sel[l] == tailsel[l - head.len()]);
            }
        }
        assert forall|p: int|
            #[trigger] sel.contains(p) <==> (0 <= p < len && covered(intervals, p)) by {
            lemma_covered_cons(intervals, p);
            if sel.contains(p) {
                let idx = choose|idx: int| 0 <= idx < sel.len() && sel[idx] == p;
                if idx < head.len() {
                    assert(p == head[idx] == lo + idx);
                    assert(first.spec_contains(p) && 0 <= p < len);
                } else {
                    assert(tailsel[idx - head.len()] == p);
                    assert(tailsel.contains(p));
                }
                assert(covered(intervals, p));
            }
            if 0 <= p < len && covered(intervals, p) {
                if first.spec_contains(p) {
                    assert(lo <= p <= hi);
                    assert(head[p - lo] == p);
                    assert(sel[p - lo] == p);
                    assert(sel.contains(p));
                } else {
                    assert(covered(rest, p));
                    assert(tailsel.contains(p));
                    let idx = choose|idx: int| 0 <= idx < tailsel.len() && tailsel[idx] == p;
                    assert(sel[head.len() + idx] == p);
                    assert(sel.contains(p));
                }
            }
        }
    }
}

/// Renders the covered lines: for each interval in order, each line the
/// interval covers, paired with its 1-based line number, in ascending order
/// within the interval. Interval bounds outside the file are clipped to it.
pub fn render_results(intervals: &Vec<Interval>, lines: &Vec<String>) -> (r: Vec<(usize, String)>)
    ensures
        r@.len() == selected_of(intervals@, lines@.len() as int).len(),
        forall|k: int|
            0 <= k < r@.len() ==> {
                &&& #[trigger] r@[k].0 == selected_of(intervals@, lines@.len() as int)[k] + 1
                &&& r@[k].1 == lines@[selected_of(intervals@, lines@.len() as int)[k]]
            },
{
    let ghost len = lines@.len() as int;
    let mut out: Vec<(usize, String)> = Vec::new();
    let mut j: usize = 0;
    proof {
        lemma_selected_in_range(intervals@, len);
        assert(intervals@.skip(0) =~= intervals@);
        assert(out@.map_values(|p: (usize, String)| p.0 - 1) + selected_of(intervals@, len)
            =~= selected_of(intervals@, len));
    }
    while j < intervals.len()
        invariant
            j <= intervals@.len(),
            selected_of(intervals@, len) == out@.map_values(|p: (usize, String)| p.0 - 1)
                + selected_of(intervals@.skip(j as int), len),
            len == lines@.len() as int,
            forall|k: int|
                0 <= k < out@.len() ==> {
                    &&& #[trigger] out@[k].0 == selected_of(intervals@, len)[k] + 1
                    &&& out@[k].1 == lines@[selected_of(intervals@, len)[k]]
                },
            forall|k: int|
                0 <= k < selected_of(intervals@, len).len() ==> 0 <= #[trigger] selected_of(
                    intervals@,
                    len,
                )[k] < len,
        decreases intervals@.len() - j,
    {
        let interval = intervals[j];
        let ghost rest = intervals@.skip(j as int);
        proof {
            assert(rest[0] == intervals@[j as int]);
            assert(rest.skip(1) =~= intervals@.skip(j as int + 1));
        }
        if lines.len() > 0 && interval.end >= 0 && interval.start <= (lines.len() - 1) as i128 {
            let lo: usize = if interval.start > 0 {
                interval.start as usize
            } else {
                0
            };
            let hi: usize = if interval.end < (lines.len() - 1) as i128 {
                interval.end as usize
            } else {
                lines.len() - 1
            };
            let ghost head = indices_in(interval, len);
            if lo <= hi {
                proof {
                    assert(head.len() == hi - lo + 1);
                    assert(head.skip(0) =~= head);
                    assert(out@.map_values(|p: (usize, String)| p.0 - 1) + (head + selected_of(
                        intervals@.skip(j as int + 1),
                        len,
                    )) =~= out@.map_values(|p: (usize, String)| p.0 - 1) + head + selected_of(
                        intervals@.skip(j as int + 1),
                        len,
                    ));
                }
                let mut i: usize = lo;
                while i <= hi
                    invariant
                        lo <= i <= hi + 1,
                        hi < lines@.len(),
                        lines@.len() <= usize::MAX,
                        len == lines@.len() as int,
                        head == indices_in(interval, len),
                        head.len() == hi - lo + 1,
                        forall|k: int| 0 <= k < head.len() ==> #[trigger] head[k] == lo + k,
                        selected_of(intervals@, len) == out@.map_values(
                            |p: (usize, String)| p.0 - 1,
                        ) + head.skip(i - lo) + selected_of(intervals@.skip(j as int + 1), len),
                        forall|k: int|
                            0 <= k < out@.len() ==> {
                                &&& #[trigger] out@[k].0 == selected_of(intervals@, len)[k] + 1
                                &&& out@[k].1 == lines@[selected_of(intervals@, len)[k]]
                            },
                        forall|k: int|
                            0 <= k < selected_of(intervals@, len).len() ==> 0
                                <= #[trigger] selected_of(intervals@, len)[k] < len,
                    decreases hi + 1 - i,
                {
                    let ghost old_out = out@;
                    let line = lines[i].clone();
                    out.push((i + 1, line));
                    proof {
                        let sel = selected_of(intervals@, len);
                        let m = |p: (usize, String)| p.0 - 1;
                        assert(out@ == old_out.push(((i + 1) as usize, lines@[i as int])));
                        assert(out@.map_values(m) =~= old_out.map_values(m).push(i as int));
                        assert(head.skip(i - lo)[0] == i);
                        assert(old_out.map_values(m).push(i as int) + head.skip(i - lo + 1)
                            =~= old_out.map_values(m) + head.skip(i - lo));
                        assert((old_out.map_values(m).push(i as int) + head.skip(i - lo + 1))
                            + selected_of(intervals@.skip(j as int + 1), len) =~= (old_out.map_values(
                            m,
                        ) + head.skip(i - lo)) + selected_of(intervals@.skip(j as int + 1), len));
                        assert((old_out.map_values(m) + head.skip(i - lo)) + selected_of(
                            intervals@.skip(j as int + 1),
                            len,
                        ) =~= old_out.map_values(m) + (head.skip(i - lo) + selected_of(
                            intervals@.skip(j as int + 1),
                            len,
                        )));
                        assert(sel[old_out.len() as int] == i);
                    }
                    i = i + 1;
                }
                proof {
                    assert(head.skip(i - lo) =~= Seq::<int>::empty());
                    assert(out@.map_values(|p: (usize, String)| p.0 - 1) + Seq::<int>::empty()
                        + selected_of(intervals@.skip(j as int + 1), len) =~= out@.map_values(
                        |p: (usize, String)| p.0 - 1,
                    ) + selected_of(intervals@.skip(j as int + 1), len));
                }
            }
        } else {
            proof {
                assert(indices_in(interval, len) =~= Seq::<int>::empty());
                assert(out@.map_values(|p: (usize, String)| p.0 - 1) + (Seq::<int>::empty()
                    + selected_of(intervals@.skip(j as int + 1), len)) =~= out@.map_values(
                    |p: (usize, String)| p.0 - 1,
                ) + selected_of(intervals@.skip(j as int + 1), len));
            }
        }
        j = j + 1;
    }
    proof {
        assert(selected_of(intervals@.skip(j as int), len) =~= Seq::<int>::empty());
        assert(out@.map_values(|p: (usize, String)| p.0 - 1) + Seq::<int>::empty()
            =~= out@.map_values(|p: (usize, String)| p.0 - 1));
    }
    out
}

} // verus!
