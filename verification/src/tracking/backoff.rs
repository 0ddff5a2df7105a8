//! Full-jitter exponential reconnect delays.

use crate::clock::{Nanos, NANOS_PER_MILLI};
use vstd::arithmetic::power2::*;
use vstd::prelude::*;

verus! {

/// Tracks full-jitter exponential reconnect delays.
#[derive(Debug, Clone, Copy, PartialEq, Eq)]
pub struct BackoffState {
    /// Current attempt counter.
    pub attempt: u32,
    /// Minimum delay.
    pub min_delay: Nanos,
    /// Maximum delay.
    pub max_delay: Nanos,
    /// Max attempts (`0` = unlimited).
    pub max_attempts: u32,
}

/// Default minimum delay: 500 ms.
pub const DEFAULT_MIN_DELAY: Nanos = 500_000_000;

/// Default maximum delay: 30 s.
pub const DEFAULT_MAX_DELAY: Nanos = 30_000_000_000;

/// Unit of the random number that [`next_delay`] takes: 2^53 stands for one.
pub const JITTER_ONE: u64 = 0x20_0000_0000_0000;

/// Builds backoff from reconnect options; zero delays stand for the defaults.
pub fn new_backoff(min_delay: Nanos, max_delay: Nanos, max_attempts: u32) -> (r: BackoffState)
    ensures
        r.attempt == 0,
        r.min_delay == (if min_delay == 0 {
            DEFAULT_MIN_DELAY
        } else {
            min_delay
        }),
        r.max_delay == (if max_delay == 0 {
            DEFAULT_MAX_DELAY
        } else {
            max_delay
        }),
        r.max_attempts == max_attempts,
{
    BackoffState {
        attempt: 0,
        min_delay: if min_delay == 0 {
            DEFAULT_MIN_DELAY
        } else {
            min_delay
        },
        max_delay: if max_delay == 0 {
            DEFAULT_MAX_DELAY
        } else {
            max_delay
        },
        max_attempts,
    }
}

/// Whether the attempts are used up.
pub open spec fn exhausted(state: BackoffState) -> bool {
    state.max_attempts > 0 && state.attempt >= state.max_attempts
}

/// The longest delay of an attempt in milliseconds: the minimum doubled with each attempt, and
/// at most the maximum.
pub open spec fn ceiling_ms(state: BackoffState) -> int {
    let min_ms = state.min_delay as int / NANOS_PER_MILLI as int;
    let max_ms = state.max_delay as int / NANOS_PER_MILLI as int;
    let grown = min_ms * pow2(state.attempt as nat) as int;
    if grown > max_ms {
        max_ms
    } else {
        grown
    }
}

/// The jitter, at most one.
pub open spec fn jitter(random: u64) -> int {
    if random > JITTER_ONE {
        JITTER_ONE as int
    } else {
        random as int
    }
}

/// The delay in milliseconds: a random share of the ceiling, rounded down.
pub open spec fn delay_ms(state: BackoffState, random: u64) -> int {
    ceiling_ms(state) * jitter(random) / (JITTER_ONE as int)
}

/// The delay as a duration; no more than 2^64 - 1 milliseconds.
pub open spec fn delay(state: BackoffState, random: u64) -> int {
    let ms = delay_ms(state, random);
    (if ms > u64::MAX {
        u64::MAX as int
    } else {
        ms
    }) * NANOS_PER_MILLI
}

/// Doubling is monotone.
proof fn lemma_doubled(x: int, i: nat, n: nat)
    requires
        x >= 0,
        i <= n,
    ensures
        x * pow2(i) <= x * pow2(n),
    decreases n - i,
{
    if i < n {
        lemma_doubled(x, i + 1, n);
        lemma_pow2_unfold(i + 1);
        lemma_pow2_pos(i);
        assert(x * pow2(i) <= x * (2 * pow2(i))) by (nonlinear_arith)
            requires
                x >= 0,
                pow2(i) > 0,
        ;
    }
}

/// The ceiling of the current attempt in milliseconds.
fn ceiling(state: &BackoffState) -> (r: u128)
    ensures
        r == ceiling_ms(*state),
        r <= state.max_delay / NANOS_PER_MILLI,
{
    let min_ms: u128 = state.min_delay / NANOS_PER_MILLI;
    let max_ms: u128 = state.max_delay / NANOS_PER_MILLI;
    let mut e: u128 = min_ms;
    let mut i: u32 = 0;
    proof {
        lemma2_to64();
    }
    while i < state.attempt && e <= max_ms && e > 0
        invariant
            min_ms == state.min_delay / NANOS_PER_MILLI,
            max_ms == state.max_delay / NANOS_PER_MILLI,
            i <= state.attempt,
            e == min_ms * pow2(i as nat),
        decreases state.attempt - i,
    {
        proof {
            lemma_pow2_unfold((i + 1) as nat);
            assert(min_ms * (2 * pow2(i as nat)) == 2 * (min_ms * pow2(i as nat)))
                by (nonlinear_arith);
        }
        e = e * 2;
        i += 1;
    }
    proof {
        if e == 0 {
            lemma_pow2_pos(i as nat);
            assert(min_ms == 0) by (nonlinear_arith)
                requires
                    min_ms * pow2(i as nat) == 0,
                    pow2(i as nat) > 0,
            ;
            assert(min_ms * pow2(state.attempt as nat) == 0) by (nonlinear_arith)
                requires
                    min_ms == 0,
            ;
        } else {
            lemma_doubled(min_ms as int, i as nat, state.attempt as nat);
        }
    }
    if e > max_ms {
        max_ms
    } else {
        e
    }
}

/// `c * j / 2^53`, rounded down.
fn share(c: u128, j: u64) -> (r: u128)
    requires
        c <= u128::MAX / NANOS_PER_MILLI,
        j <= JITTER_ONE,
    ensures
        r == c * j / (JITTER_ONE as int),
{
    let one: u128 = JITTER_ONE as u128;
    let q: u128 = c / one;
    let s: u128 = c % one;
    proof {
        assert(q <= 0x400_0000_0000_0000);
        assert(0 <= q * j <= 0x400_0000_0000_0000 * 0x20_0000_0000_0000) by (nonlinear_arith)
            requires
                0 <= q <= 0x400_0000_0000_0000,
                0 <= j <= 0x20_0000_0000_0000,
        ;
        assert(0 <= s * j <= 0x20_0000_0000_0000 * 0x20_0000_0000_0000) by (nonlinear_arith)
            requires
                0 <= s <= 0x20_0000_0000_0000,
                0 <= j <= 0x20_0000_0000_0000,
        ;
        assert(c * j == one * (q * j) + s * j) by (nonlinear_arith)
            requires
                c == one * q + s,
        ;
        vstd::arithmetic::div_mod::lemma_hoist_over_denominator(
            s * j,
            q * j,
            JITTER_ONE as nat,
        );
        assert(s * j / (JITTER_ONE as int) + q * j == (s * j + (q * j) * JITTER_ONE) / (
        JITTER_ONE as int));
        assert((q * j) * JITTER_ONE == one * (q * j)) by (nonlinear_arith)
            requires
                one == JITTER_ONE,
        ;
        assert(s * j / (JITTER_ONE as int) <= s * j) by (nonlinear_arith)
            requires
                0 <= s * j,
                JITTER_ONE == 0x20_0000_0000_0000,
        ;
    }
    q * (j as u128) + s * (j as u128) / one
}

/// Next sleep duration, or `None` when attempts are exhausted.
///
/// `random` counts units of 2^-53 and is taken as one where it is more.
pub fn next_delay(state: &mut BackoffState, random: u64) -> (r: Option<Nanos>)
    ensures
        exhausted(*old(state)) ==> r is None && *final(state) == *old(state),
        !exhausted(*old(state)) ==> {
            &&& r is Some
            &&& r->0 == delay(*old(state), random)
            &&& *final(state) == (BackoffState {
                attempt: old(state).attempt.wrapping_add(1),
                ..*old(state)
            })
        },
{
    if state.max_attempts > 0 && state.attempt >= state.max_attempts {
        return None;
    }
    let top: u128 = ceiling(state);
    let j: u64 = if random > JITTER_ONE {
        JITTER_ONE
    } else {
        random
    };
    let ms: u128 = share(top, j);
    state.attempt = state.attempt.wrapping_add(1);
    let capped: u128 = if ms > u64::MAX as u128 {
        u64::MAX as u128
    } else {
        ms
    };
    Some(capped * NANOS_PER_MILLI)
}

/// Clears the attempt counter.
pub fn reset_backoff(state: &mut BackoffState)
    ensures
        *final(state) == (BackoffState { attempt: 0, ..*old(state) }),
{
    state.attempt = 0;
}

/// No delay is longer than the maximum, whatever the attempt and the random number.
pub proof fn law_delay_is_bounded(state: BackoffState, random: u64)
    ensures
        0 <= delay(state, random) <= state.max_delay,
{
    let c = ceiling_ms(state);
    let j = jitter(random);
    let m = JITTER_ONE as int;
    lemma_pow2_pos(state.attempt as nat);
    assert(0 <= c) by (nonlinear_arith)
        requires
            c == ({
                let min_ms = state.min_delay as int / NANOS_PER_MILLI as int;
                let max_ms = state.max_delay as int / NANOS_PER_MILLI as int;
                let grown = min_ms * pow2(state.attempt as nat) as int;
                if grown > max_ms {
                    max_ms
                } else {
                    grown
                }
            }),
            pow2(state.attempt as nat) > 0,
            0 <= state.min_delay as int / NANOS_PER_MILLI as int,
            0 <= state.max_delay as int / NANOS_PER_MILLI as int,
    ;
    assert(0 <= c * j <= c * m) by (nonlinear_arith)
        requires
            0 <= c,
            0 <= j <= m,
    ;
    assert(0 <= c * j / m <= c) by (nonlinear_arith)
        requires
            0 <= c * j <= c * m,
            m > 0,
    ;
}

/// After a reset the next ceiling is that of the first attempt: the minimum delay, or the
/// maximum where that is less.
pub proof fn law_reset_starts_over(state: BackoffState)
    ensures
        ({
            let min_ms = state.min_delay as int / NANOS_PER_MILLI as int;
            let max_ms = state.max_delay as int / NANOS_PER_MILLI as int;
            ceiling_ms(BackoffState { attempt: 0, ..state }) == (if min_ms > max_ms {
                max_ms
            } else {
                min_ms
            })
        }),
        !exhausted(BackoffState { attempt: 0, ..state }),
{
    lemma2_to64();
    let min_ms = state.min_delay as int / NANOS_PER_MILLI as int;
    assert(min_ms * pow2(0) as int == min_ms) by (nonlinear_arith)
        requires
            pow2(0) == 1,
    ;
}

/// The ceiling of the first wait is the minimum, and each further attempt doubles it, until the
/// maximum is reached, which it never exceeds.
pub proof fn law_ceiling_doubles_up_to_the_maximum(state: BackoffState)
    requires
        state.attempt < u32::MAX,
    ensures
        ({
            let next = BackoffState { attempt: (state.attempt + 1) as u32, ..state };
            let min_ms = state.min_delay as int / 1_000_000;
            let max_ms = state.max_delay as int / 1_000_000;
            &&& ceiling_ms(state) <= max_ms
            &&& state.attempt == 0 ==> ceiling_ms(state) == (if min_ms < max_ms {
                min_ms
            } else {
                max_ms
            })
            &&& ceiling_ms(next) == (if 2 * ceiling_ms(state) < max_ms {
                2 * ceiling_ms(state)
            } else {
                max_ms
            }) || (min_ms == 0 && ceiling_ms(next) == 0)
        }),
{
    lemma2_to64();
    let min_ms = state.min_delay as int / 1_000_000;
    let p = pow2(state.attempt as nat) as int;
    lemma_pow2_unfold((state.attempt + 1) as nat);
    lemma_pow2_pos(state.attempt as nat);
    assert(min_ms * (2 * p) == 2 * (min_ms * p)) by (nonlinear_arith);
    assert(min_ms * p >= 0) by (nonlinear_arith)
        requires
            min_ms >= 0,
            p > 0,
    ;
    assert(min_ms * pow2(0) as int == min_ms) by (nonlinear_arith)
        requires
            pow2(0) == 1,
    ;
}

/// A wait is a random share of its ceiling, in whole milliseconds: nothing for a random number of
/// zero, all of it for one, and in between the share rounded down.
pub proof fn law_delay_is_the_random_share_of_the_ceiling(state: BackoffState, random: u64)
    requires
        ceiling_ms(state) <= u64::MAX,
    ensures
        ({
            let d = delay(state, random);
            let ms = d / 1_000_000;
            let one = 0x20_0000_0000_0000int;
            let c = ceiling_ms(state);
            &&& d == ms * 1_000_000
            &&& random == 0 ==> d == 0
            &&& random >= one ==> ms == c
            &&& random < one ==> ms * one <= c * random && c * random < (ms + 1) * one
        }),
{
    let one = 0x20_0000_0000_0000int;
    let c = ceiling_ms(state);
    let j = jitter(random);
    law_delay_is_bounded(state, random);
    let ms = delay_ms(state, random);
    lemma_pow2_pos(state.attempt as nat);
    let min_ms = state.min_delay as int / 1_000_000;
    let p = pow2(state.attempt as nat) as int;
    assert(min_ms * p >= 0) by (nonlinear_arith)
        requires
            min_ms >= 0,
            p > 0,
    ;
    assert(0 <= c);
    assert(0 <= c * j <= c * one) by (nonlinear_arith)
        requires
            0 <= c,
            0 <= j <= one,
    ;
    assert(0 <= c * j / one <= c && (c * j / one) * one <= c * j && c * j < (c * j / one + 1)
        * one) by (nonlinear_arith)
        requires
            0 <= c * j <= c * one,
            one == 0x20_0000_0000_0000int,
    ;
    if random >= one {
        assert(c * one / one == c) by (nonlinear_arith)
            requires
                one == 0x20_0000_0000_0000int,
        ;
    }
    if random == 0 {
        assert(c * 0 == 0) by (nonlinear_arith);
    }
}

/// Attempts are used up only where they are limited, and then exactly when as many were made.
pub proof fn law_attempts_are_limited_as_told(state: BackoffState)
    ensures
        state.max_attempts == 0 ==> !exhausted(state),
        state.max_attempts > 0 ==> (exhausted(state) <==> state.attempt >= state.max_attempts),
{
}

} // verus!
