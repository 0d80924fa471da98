//! Times as the application holds them: seconds since the Unix epoch, within
//! the range of instants that `jiff`'s `Timestamp` represents.

use vstd::prelude::*;

verus! {

/// The earliest second that a `jiff` timestamp holds
/// (`-9999-01-02T01:59:59Z`).
pub const TIMESTAMP_MIN_SECOND: i64 = -377705023201;

/// The latest second that a `jiff` timestamp holds (`9999-12-30T22:00:00Z`).
pub const TIMESTAMP_MAX_SECOND: i64 = 253402207200;

/// Whether `jiff::Timestamp::from_second` makes a timestamp of a time in
/// seconds. `jiff` documents that the only error is a second outside the
/// range from `Timestamp::MIN` to `Timestamp::MAX`, whose seconds are the
/// two bounds above.
#[verifier::external_body]
fn timestamp_from_second_ok(seconds: i64) -> (r: bool)
    ensures
        r == (TIMESTAMP_MIN_SECOND <= seconds <= TIMESTAMP_MAX_SECOND),
{
    jiff::Timestamp::from_second(seconds).is_ok()
}

/// A last played time read from outside, checked as turning it into a
/// timestamp and back checks it: the time itself when a timestamp can hold
/// it, else none.
pub fn checked_last_played(last_played: i64) -> (r: Option<i64>)
    ensures
        r == if TIMESTAMP_MIN_SECOND <= last_played <= TIMESTAMP_MAX_SECOND {
            Some(last_played)
        } else {
            None::<i64>
        },
{
    if timestamp_from_second_ok(last_played) {
        Some(last_played)
    } else {
        None
    }
}

} // verus!
