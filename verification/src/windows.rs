//! Building context windows: one closed interval per match position, widened
//! by the before/after margins.

use vstd::prelude::*;

use crate::interval::Interval;
use crate::interval::IntervalError;

verus! {

/// The context window of a match at line `pos`: the window starts `before`
/// lines earlier (clamped at the first line) and ends `after` lines later.
pub open spec fn context_window(pos: int, before: int, after: int) -> Interval {
    Interval {
        start: (if pos - before >= 0 {
            pos - before
        } else {
            0
        }) as i128,
        end: (pos + after) as i128,
    }
}

/// Turns each match position into its context window: `start` is the position
/// minus the before margin, clamped at the first line; `end` is the position
/// plus the after margin. Succeeds on every input, since a window's start
/// never exceeds its end.
pub fn create_intervals(lines: Vec<usize>, before_context: usize, after_context: usize) -> (r:
    Result<Vec<Interval>, IntervalError>)
    ensures
        r is Ok,
        r.unwrap()@.len() == lines@.len(),
        forall|i: int|
            0 <= i < lines@.len() ==> r.unwrap()@[i] == context_window(
                lines@[i] as int,
                before_context as int,
                after_context as int,
            ),
{
    let mut out: Vec<Interval> = Vec::new();
    let mut i: usize = 0;
    while i < lines.len()
        invariant
            i <= lines@.len(),
            out@.len() == i,
            forall|k: int|
                0 <= k < i ==> out@[k] == context_window(
                    lines@[k] as int,
                    before_context as int,
                    after_context as int,
                ),
        decreases lines@.len() - i,
    {
        let pos = lines[i] as i128;
        let before = before_context as i128;
        let after = after_context as i128;
        let start: i128 = if pos - before >= 0 {
            pos - before
        } else {
            0
        };
        let end: i128 = pos + after;
        match Interval::new(start, end) {
            Ok(interval) => out.push(interval),
            Err(e) => {
                return Err(e);
            },
        }
        i = i + 1;
    }
    Ok(out)
}

} // verus!
