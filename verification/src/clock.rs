//! Time.
//!
//! Durations and instants of a monotonic clock are nanosecond counts; wall-clock times are
//! milliseconds since the Unix epoch.

use vstd::prelude::*;

verus! {

/// Nanoseconds: a duration, or a point on a monotonic clock.
pub type Nanos = u128;

pub const NANOS_PER_MILLI: u128 = 1_000_000;

pub const NANOS_PER_SEC: u128 = 1_000_000_000;

/// `std::time::SystemTime::now`, handed out as milliseconds since the Unix epoch (by
/// `duration_since` and `as_millis`): nothing where the clock stands before it. What the clock
/// shows is not stated.
#[verifier::external_body]
fn unix_millis() -> (r: Option<u128>) {
    match std::time::SystemTime::now().duration_since(std::time::UNIX_EPOCH) {
        Ok(d) => Some(d.as_millis()),
        Err(_) => None,
    }
}

/// The low 64 bits of a millisecond count, as a signed number.
pub open spec fn wall_ms(millis: Option<u128>) -> i64 {
    match millis {
        Some(ms) => ms as i64,
        None => 0,
    }
}

/// A millisecond count as a timestamp; a clock before the epoch counts as the epoch.
pub fn timestamp_of(millis: Option<u128>) -> (r: i64)
    ensures
        r == wall_ms(millis),
        millis is None ==> r == 0,
        millis is Some && millis->0 <= i64::MAX ==> r == millis->0,
{
    match millis {
        Some(ms) => {
            #[verifier::truncate]
            (ms as i64)
        },
        None => 0,
    }
}

/// Milliseconds since the Unix epoch.
pub(crate) fn now_ms() -> (r: i64) {
    let m = unix_millis();
    timestamp_of(m)
}

} // verus!
