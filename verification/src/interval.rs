//! Closed integer intervals with overlap and merge operations.

use vstd::prelude::*;

verus! {

/// A list specifying general categories of Interval errors.
#[derive(Debug, Clone, Copy, PartialEq, Eq, Structural)]
pub enum IntervalError {
    /// Start is not less than or equal to end
    StartEndRangeInvalid,
    /// Two intervals to be merged do not overlap
    NonOverlappingInterval,
}

/// A closed-interval [`start`, `end`] type used for representing a range of
/// values between `start` and `end` inclusively.
#[derive(Debug, Clone, Copy, PartialEq, Eq, Structural)]
pub struct Interval {
    pub start: i128,
    pub end: i128,
}

impl Interval {
    /// A well-formed interval has its start at or before its end.
    pub open spec fn wf(self) -> bool {
        self.start <= self.end
    }

    /// The point `p` lies inside the closed range.
    pub open spec fn spec_contains(self, p: int) -> bool {
        self.start <= p <= self.end
    }

    /// Two closed ranges share at least one point.
    pub open spec fn spec_overlaps(self, other: Interval) -> bool {
        self.end >= other.start && other.end >= self.start
    }

    /// Creates a new `Interval` set to `start` and `end`.
    pub fn new(start: i128, end: i128) -> (r: Result<Self, IntervalError>)
        ensures
            start <= end <==> r is Ok,
            r is Ok ==> r.unwrap() == (Interval { start, end }),
            r is Err ==> r.unwrap_err() == IntervalError::StartEndRangeInvalid,
    {
        if start <= end {
            Ok(Self { start, end })
        } else {
            Err(IntervalError::StartEndRangeInvalid)
        }
    }

    /// Checks if two intervals overlap. Overlapping intervals have at least
    /// one point in common, regardless of operand order.
    pub fn overlaps(&self, other: &Interval) -> (r: bool)
        ensures
            r == self.spec_overlaps(*other),
    {
        self.end >= other.start && other.end >= self.start
    }

    /// Merges two intervals returning a new `Interval`.
    ///
    /// The merged `Interval` keeps `self`'s start and extends to `other`'s
    /// end; when the intervals are supplied in ascending order this range is
    /// the union of the two.
    pub fn merge(&self, other: &Self) -> (r: Result<Self, IntervalError>)
        ensures
            self.spec_overlaps(*other) <==> r is Ok,
            r is Ok ==> r.unwrap() == (Interval { start: self.start, end: other.end }),
            r is Err ==> r.unwrap_err() == IntervalError::NonOverlappingInterval,
    {
        if self.overlaps(other) {
            Ok(Self { start: self.start, end: other.end })
        } else {
            Err(IntervalError::NonOverlappingInterval)
        }
    }
}

/// Overlap is symmetric: whether two closed ranges share a point does not
/// depend on the order of the operands.
pub proof fn lemma_overlap_symmetry(a: Interval, b: Interval)
    ensures
        a.spec_overlaps(b) == b.spec_overlaps(a),
{
}

/// Merging overlapping intervals given in ascending order yields their exact
/// union: for well-formed `a`, `b` with `a.start <= b.start` and
/// `a.end <= b.end` that overlap, the merged range covers precisely the
/// points covered by `a` or by `b`.
pub proof fn lemma_merge_union(a: Interval, b: Interval)
    requires
        a.wf(),
        b.wf(),
        a.spec_overlaps(b),
        a.start <= b.start,
        a.end <= b.end,
    ensures
        forall|p: int|
            (Interval { start: a.start, end: b.end }).spec_contains(p)
                <==> a.spec_contains(p) || b.spec_contains(p),
{
}

impl PartialOrd for Interval {
    /// Intervals are partially ordered: `Less` or `Greater` only when the two
    /// ranges share no point; overlapping, unequal intervals are incomparable.
    fn partial_cmp(&self, other: &Self) -> (r: Option<core::cmp::Ordering>)
    {
        if self.start == other.start && self.end == other.end {
            Some(core::cmp::Ordering::Equal)
        } else if self.end < other.start {
            Some(core::cmp::Ordering::Less)
        } else if self.start > other.end {
            Some(core::cmp::Ordering::Greater)
        } else {
            None
        }
    }
}

impl vstd::std_specs::cmp::PartialOrdSpecImpl for Interval {
    open spec fn obeys_partial_cmp_spec() -> bool {
        true
    }

    open spec fn partial_cmp_spec(&self, other: &Self) -> Option<core::cmp::Ordering> {
        if self == other {
            Some(core::cmp::Ordering::Equal)
        } else if self.end < other.start {
            Some(core::cmp::Ordering::Less)
        } else if self.start > other.end {
            Some(core::cmp::Ordering::Greater)
        } else {
            None
        }
    }
}

} // verus!
