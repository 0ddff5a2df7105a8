//! Publish rate limit.

use crate::clock::{Nanos, NANOS_PER_MILLI};
use vstd::prelude::*;

verus! {

/// Hard cap for publish calls (points per second).
pub const MAX_PUBLISH_HZ: u32 = 50;

/// Millisecond form of [`MIN_PUBLISH_INTERVAL`].
pub const MIN_PUBLISH_INTERVAL_MS: u64 = 20;

/// Minimum gap between accepted points.
pub const MIN_PUBLISH_INTERVAL: Nanos = 20_000_000;

/// Whether `point_count` points can be accepted at `now`.
pub fn can_accept_publish(next_allowed_at: Nanos, now: Nanos, point_count: i32) -> (r: bool)
    ensures
        r == (point_count <= 0 || now >= next_allowed_at),
{
    if point_count <= 0 {
        return true;
    }
    now >= next_allowed_at
}

/// When the next point is accepted after `point_count` points at `now`.
pub open spec fn allowed_after(next_allowed_at: int, now: int, point_count: int) -> int {
    (if next_allowed_at > now {
        next_allowed_at
    } else {
        now
    }) + MIN_PUBLISH_INTERVAL * (if point_count > 0 {
        point_count
    } else {
        0
    })
}

/// When the next point is accepted, after `point_count` points at `now`.
pub fn next_publish_allowed_at(next_allowed_at: Nanos, now: Nanos, point_count: i32) -> (r: Nanos)
    requires
        allowed_after(next_allowed_at as int, now as int, point_count as int) <= u128::MAX,
    ensures
        r == allowed_after(next_allowed_at as int, now as int, point_count as int),
{
    let start: u128 = if next_allowed_at > now {
        next_allowed_at
    } else {
        now
    };
    let count: u128 = if point_count > 0 {
        point_count as u128
    } else {
        0
    };
    start + MIN_PUBLISH_INTERVAL * count
}

/// Points accepted one at a time are at least [`MIN_PUBLISH_INTERVAL`] apart, which makes at
/// most [`MAX_PUBLISH_HZ`] a second.
pub proof fn law_accepted_points_keep_their_distance(allowed: int, first: int, second: int)
    requires
        first >= allowed,
        second >= allowed_after(allowed, first, 1),
    ensures
        second - first >= MIN_PUBLISH_INTERVAL,
        MIN_PUBLISH_INTERVAL * MAX_PUBLISH_HZ == 1_000_000_000,
        MIN_PUBLISH_INTERVAL == MIN_PUBLISH_INTERVAL_MS * NANOS_PER_MILLI,
{
}

/// After `n` points the next one may come 20 ms for each of them later, counted from now or from
/// when the last ones are through, whichever is later; no points push nothing back beyond now.
pub proof fn law_each_point_takes_twenty_milliseconds(allowed: int, now: int, n: int)
    ensures
        allowed_after(allowed, now, n) >= now,
        allowed_after(allowed, now, n) >= allowed,
        n <= 0 ==> allowed_after(allowed, now, n) == now || allowed_after(allowed, now, n)
            == allowed,
        n > 0 ==> allowed_after(allowed, now, n) == allowed_after(allowed, now, 0) + 20_000_000 * n,
        n >= 0 ==> allowed_after(allowed_after(allowed, now, n), now, 1) == allowed_after(
            allowed,
            now,
            n + 1,
        ),
{
}

} // verus!
