//! Timeouts as the client library takes them: a whole number of
//! milliseconds.

use vstd::prelude::*;

verus! {

/// The whole milliseconds in a duration of `secs` seconds and
/// `subsec_nanos` nanoseconds.
pub open spec fn millis_of(secs: u64, subsec_nanos: u32) -> int {
    secs * 1000 + subsec_nanos / 1_000_000
}

/// The whole milliseconds in a duration, or `None` where they do not fit a
/// signed 64-bit number.
pub fn timeout_millis(secs: u64, subsec_nanos: u32) -> (millis: Option<i64>)
    ensures
        match millis {
            Some(ms) => ms == millis_of(secs, subsec_nanos),
            None => millis_of(secs, subsec_nanos) > i64::MAX,
        },
{
    let whole: u128 = secs as u128 * 1000 + (subsec_nanos / 1_000_000) as u128;
    if whole <= i64::MAX as u128 {
        Some(whole as i64)
    } else {
        None
    }
}

} // verus!
