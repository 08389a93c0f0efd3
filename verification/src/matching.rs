//! Scanning a file's lines with a compiled match predicate.
//!
//! The predicate is a compiled regular expression; its matching semantics are
//! opaque to this crate and enter the contracts only through the name
//! `regex_matches`.

use vstd::prelude::*;

use crate::coalesce::covered;
use crate::coalesce::lemma_coalesce_output_separated;
use crate::coalesce::lemma_coalesce_union;
use crate::coalesce::merge_intervals;
use crate::coalesce::separated;
use crate::coalesce::sorted;
use crate::coalesce::spec_coalesce;
use crate::coalesce::wf_all;
use crate::interval::Interval;
use crate::interval::IntervalError;
use crate::windows::context_window;
use crate::windows::create_intervals;

verus! {

/// Declares regex::Regex, the compiled match predicate, so that it can stand
/// in signatures. Its value is opaque to the verifier.
#[verifier::external_type_specification]
#[verifier::external_body]
pub struct ExRegex(regex::Regex);

/// Whether the compiled pattern `re` matches somewhere in `line`. The result
/// of `regex::Regex::is_match` depends only on the regex value and the
/// haystack, so it can be given a name that the contracts share.
pub uninterp spec fn regex_matches(re: &regex::Regex, line: Seq<char>) -> bool;

/// Relies on regex::Regex::is_match: reports whether the compiled pattern
/// matches anywhere in the haystack; deterministic in the regex value and the
/// haystack text.
pub assume_specification[ regex::Regex::is_match ](re: &regex::Regex, haystack: &str) -> (r: bool)
    ensures
        r == regex_matches(re, haystack@),
;

/// The 0-based indices, in ascending order, of the lines among the first `n`
/// that the predicate matches.
pub open spec fn matching_upto(re: &regex::Regex, lines: Seq<String>, n: int) -> Seq<usize>
    decreases n,
{
    if n <= 0 {
        Seq::empty()
    } else if regex_matches(re, lines[n - 1]@) {
        matching_upto(re, lines, n - 1).push((n - 1) as usize)
    } else {
        matching_upto(re, lines, n - 1)
    }
}

/// Every index reported by `matching_upto` is below `n`, and the sequence is
/// strictly ascending.
pub proof fn lemma_matching_upto_bounds(re: &regex::Regex, lines: Seq<String>, n: int)
    requires
        n <= usize::MAX,
    ensures
        forall|k: int|
            0 <= k < matching_upto(re, lines, n).len() ==> #[trigger] matching_upto(re, lines, n)[k]
                < n,
        forall|k: int, l: int|
            0 <= k < l < matching_upto(re, lines, n).len() ==> #[trigger] matching_upto(
                re,
                lines,
                n,
            )[k] < #[trigger] matching_upto(re, lines, n)[l],
    decreases n,
{
    if n > 0 {
        lemma_matching_upto_bounds(re, lines, n - 1);
        let prev = matching_upto(re, lines, n - 1);
        let cur = matching_upto(re, lines, n);
        if regex_matches(re, lines[n - 1]@) {
            assert(cur == prev.push((n - 1) as usize));
            assert forall|k: int| 0 <= k < cur.len() implies #[trigger] cur[k] < n by {
                if k < prev.len() {
                    assert(cur[k] == prev[k]);
                } else {
                    assert(cur[k] == (n - 1) as usize);
                }
            }
            assert forall|k: int, l: int|
                0 <= k < l < cur.len() implies #[trigger] cur[k] < #[trigger] cur[l] by {
                if l < prev.len() {
                    assert(cur[k] == prev[k] && cur[l] == prev[l]);
                } else {
                    assert(cur[l] == (n - 1) as usize && cur[k] == prev[k]);
                }
            }
        } else {
            assert(cur == prev);
        }
    }
}

/// Returns the 0-based index of every line that the predicate matches, in
/// ascending file order.
pub fn find_matching_lines(lines: &Vec<String>, regex: &regex::Regex) -> (r: Vec<usize>)
    ensures
        r@ == matching_upto(regex, lines@, lines@.len() as int),
{
    let mut r: Vec<usize> = Vec::new();
    let mut i: usize = 0;
    while i < lines.len()
        invariant
            i <= lines@.len(),
            r@ == matching_upto(regex, lines@, i as int),
        decreases lines@.len() - i,
    {
        if regex.is_match(lines[i].as_str()) {
            r.push(i);
        }
        i = i + 1;
    }
    r
}

/// The context windows of the lines, among the first `n`, that the predicate
/// matches: one closed interval per match, widened by the margins.
pub open spec fn match_windows(
    re: &regex::Regex,
    lines: Seq<String>,
    n: int,
    before: int,
    after: int,
) -> Seq<Interval> {
    matching_upto(re, lines, n).map(|k: int, p: usize| context_window(p as int, before, after))
}

/// The context windows of a file's matches are well-formed and ascend in both
/// bounds: match positions ascend, and widening by fixed margins preserves the
/// order. The coalescer's guarantees therefore apply to them.
pub proof fn lemma_match_windows_sorted(
    re: &regex::Regex,
    lines: Seq<String>,
    before: int,
    after: int,
)
    requires
        lines.len() <= usize::MAX,
        0 <= before <= usize::MAX,
        0 <= after <= usize::MAX,
    ensures
        wf_all(match_windows(re, lines, lines.len() as int, before, after)),
        sorted(match_windows(re, lines, lines.len() as int, before, after)),
{
    let n = lines.len() as int;
    let positions = matching_upto(re, lines, n);
    let ws = match_windows(re, lines, n, before, after);
    lemma_matching_upto_bounds(re, lines, n);
    assert forall|i: int| 0 <= i < ws.len() implies #[trigger] ws[i].wf() by {
        assert(ws[i] == context_window(positions[i] as int, before, after));
    }
    assert forall|i: int, j: int|
        0 <= i < j < ws.len() implies #[trigger] ws[i].start <= #[trigger] ws[j].start && ws[i].end
        <= ws[j].end by {
        assert(ws[i] == context_window(positions[i] as int, before, after));
        assert(ws[j] == context_window(positions[j] as int, before, after));
        assert(positions[i] < positions[j]);
    }
}

/// What `process_lines` guarantees of one file: its result is well-formed,
/// ascending and pairwise non-overlapping — so no line is rendered twice —
/// and it covers exactly the lines that some match's context window covers.
pub proof fn lemma_process_lines_properties(
    re: &regex::Regex,
    lines: Seq<String>,
    before: int,
    after: int,
)
    requires
        lines.len() <= usize::MAX,
        0 <= before <= usize::MAX,
        0 <= after <= usize::MAX,
    ensures
        wf_all(
            spec_coalesce(match_windows(re, lines, lines.len() as int, before, after)),
        ),
        separated(
            spec_coalesce(match_windows(re, lines, lines.len() as int, before, after)),
        ),
        forall|p: int|
            covered(
                spec_coalesce(match_windows(re, lines, lines.len() as int, before, after)),
                p,
            ) == covered(
                match_windows(re, lines, lines.len() as int, before, after),
                p,
            ),
{
    lemma_match_windows_sorted(re, lines, before, after);
    lemma_coalesce_output_separated(
        match_windows(re, lines, lines.len() as int, before, after),
    );
    lemma_coalesce_union(
        match_windows(re, lines, lines.len() as int, before, after),
    );
}

/// Processes one file's lines: finds every matching line, widens each match
/// into its context window, and coalesces the windows into the minimal
/// ascending sequence of non-overlapping intervals.
pub fn process_lines(
    lines: &Vec<String>,
    regex: &regex::Regex,
    before_context: usize,
    after_context: usize,
) -> (r: Result<Vec<Interval>, IntervalError>)
    ensures
        r is Ok,
        r.unwrap()@ == spec_coalesce(
            match_windows(
                regex,
                lines@,
                lines@.len() as int,
                before_context as int,
                after_context as int,
            ),
        ),
{
    let match_lines = find_matching_lines(lines, regex);
    let intervals = match create_intervals(match_lines, before_context, after_context) {
        Ok(intervals) => intervals,
        Err(e) => {
            return Err(e);
        },
    };
    proof {
        assert(intervals@ =~= match_windows(
            regex,
            lines@,
            lines@.len() as int,
            before_context as int,
            after_context as int,
        ));
    }
    let merged = merge_intervals(intervals);
    Ok(merged)
}

} // verus!
