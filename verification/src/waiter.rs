//! The timestamp waiter's arithmetic: how long to suspend before a target
//! instant. The suspension itself is performed by the caller (an async
//! sleep); this module decides the exact duration.

use vstd::prelude::*;

verus! {

/// How many microseconds to wait so that wall-clock time reaches `target`,
/// given that it is `now` at the moment of the call.
///
/// A target that is already due (in the past, or exactly now) asks for no
/// wait at all: already-due events are delivered as soon as possible, never
/// skipped and never treated as an error. A future target asks for exactly
/// the remaining distance; the full `i64` range of instants is covered, so
/// the difference can never overflow a `u64` and is never truncated.
pub fn wait_duration_micros(target: i64, now: i64) -> (r: u64)
    ensures
        target <= now ==> r == 0,
        target > now ==> r as int == target - now,
{
    if target <= now {
        0
    } else {
        let d: i128 = target as i128 - now as i128;
        d as u64
    }
}

} // verus!
