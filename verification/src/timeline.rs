//! Gap detection shared by the session segmenter and the train/test splitter.
//!
//! Timestamps are UTC instants with millisecond precision, carried as
//! milliseconds since the Unix epoch.

use vstd::prelude::*;

verus! {

/// Largest timestamp magnitude, in milliseconds since the epoch, that the
/// library accepts. Generous for any real archive, and small enough that
/// gap arithmetic cannot overflow and every timestamp stays inside the
/// range the calendar conversion is defined on.
pub const MS_BOUND: i64 = 8_000_000_000_000_000;

/// Whether a timestamp, in milliseconds since the epoch, is one the library
/// accepts.
pub open spec fn ts_in_range(t: i64) -> bool {
    -MS_BOUND <= t <= MS_BOUND
}

/// The whole number of seconds elapsed from `prev` to `cur` (both in
/// milliseconds since the epoch), for `prev <= cur`.
pub open spec fn spec_gap_seconds(prev: i64, cur: i64) -> int
    recommends
        prev <= cur,
{
    (cur - prev) / 1000
}

/// The whole number of days elapsed from `prev` to `cur` (both in
/// milliseconds since the epoch), for `prev <= cur`.
pub open spec fn spec_gap_days(prev: i64, cur: i64) -> int
    recommends
        prev <= cur,
{
    (cur - prev) / 86_400_000
}

/// A session boundary falls between two consecutive messages exactly when
/// more than `CONVERSATION_TIMEOUT` whole seconds of inactivity separate them.
pub open spec fn spec_session_boundary(prev: i64, cur: i64) -> bool {
    spec_gap_seconds(prev, cur) > crate::CONVERSATION_TIMEOUT
}

/// The splitter may draw a fresh train/test decision at a message exactly when
/// a session boundary precedes it and more than `TRAIN_TEST_TIMEOUT` whole
/// days have passed since the current split segment's anchor.
pub open spec fn spec_split_decision_point(last: i64, anchor: i64, cur: i64) -> bool {
    spec_session_boundary(last, cur) && spec_gap_days(anchor, cur) > crate::TRAIN_TEST_TIMEOUT
}

/// Gap between two timestamps in whole seconds.
pub fn gap_seconds(prev: i64, cur: i64) -> (r: i64)
    requires
        ts_in_range(prev),
        ts_in_range(cur),
        prev <= cur,
    ensures
        r == spec_gap_seconds(prev, cur),
{
    ((cur - prev) as u64 / 1000) as i64
}

/// Gap between two timestamps in whole days.
pub fn gap_days(prev: i64, cur: i64) -> (r: i64)
    requires
        ts_in_range(prev),
        ts_in_range(cur),
        prev <= cur,
    ensures
        r == spec_gap_days(prev, cur),
{
    ((cur - prev) as u64 / 86_400_000) as i64
}

/// Whether an inactivity gap longer than the session timeout separates two
/// consecutive timestamps.
pub fn is_session_boundary(prev: i64, cur: i64) -> (r: bool)
    requires
        ts_in_range(prev),
        ts_in_range(cur),
        prev <= cur,
    ensures
        r == spec_session_boundary(prev, cur),
{
    gap_seconds(prev, cur) > crate::CONVERSATION_TIMEOUT
}

} // verus!
