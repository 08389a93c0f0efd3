//! Line-oriented pattern search: matching lines are reported together with a
//! window of surrounding context lines, and overlapping windows are merged so
//! that no line appears twice.
//!
//! The heart of the crate is the interval pipeline: match positions become
//! closed intervals, which a single left-to-right pass coalesces into the
//! minimal ascending sequence of non-overlapping intervals.

pub mod coalesce;
pub mod interval;
pub mod matching;
pub mod render;
pub mod windows;

pub use interval::Interval;
pub use interval::IntervalError;

