//! The pacer: scheduling ticks at the configured rate and deciding
//! when pacing ends.
//!
//! The rate is a rational, `requests` per `window` nanoseconds, so the
//! promised request count `floor(rate * duration)` is an exact integer
//! computation.  Termination prefers the promised count over the wall
//! clock: the engine stops scheduling once it has dispatched
//! everything it promised, never merely because the clock ran out.

use vstd::prelude::*;
use crate::models::AttackConfig;

verus! {

/// The request count a run promises: `floor(rate * duration)` where
/// the rate is `requests / window` requests per nanosecond of
/// duration.
pub open spec fn spec_expected_count(requests: u64, window: u64, duration: u64) -> int
    recommends
        window > 0,
{
    (requests * duration) / (window as int)
}

/// Compute the promised request count for a finite duration.  The
/// count must fit the machine word; only a rate or duration far beyond
/// any real run violates that.
pub fn expected_count(requests: u64, window: u64, duration: u64) -> (r: u64)
    requires
        window > 0,
        spec_expected_count(requests, window, duration) <= u64::MAX,
    ensures
        r == spec_expected_count(requests, window, duration),
        duration == 0 ==> r == 0,
        requests == 0 ==> r == 0,
{
    proof {
        vstd::arithmetic::mul::lemma_mul_upper_bound(
            requests as int,
            u64::MAX as int,
            duration as int,
            u64::MAX as int,
        );
        assert((u64::MAX as int) * (u64::MAX as int) < (u128::MAX as int)) by (nonlinear_arith);
        if requests == 0 || duration == 0 {
            assert(spec_expected_count(requests, window, duration) == 0) by {
                vstd::arithmetic::mul::lemma_mul_basics(duration as int);
                vstd::arithmetic::mul::lemma_mul_basics(requests as int);
                vstd::arithmetic::div_mod::lemma_div_basics(window as int);
            }
        }
    }
    ((requests as u128 * duration as u128) / (window as u128)) as u64
}

/// The delay between scheduling ticks, in nanoseconds: the inverse of
/// the rate, and zero when the rate is zero (unbounded: ticks fire as
/// fast as dispatch and worker availability allow).
pub fn tick_delay(requests: u64, window: u64) -> (r: u64)
    requires
        window > 0,
    ensures
        requests == 0 ==> r == 0,
        requests > 0 ==> r == window as int / requests as int,
{
    if requests == 0 {
        0
    } else {
        window / requests
    }
}

/// The pacing termination rule, checked each tick in this order:
/// with a promised count, stop once everything promised was scheduled;
/// else with an end instant, stop once the clock reaches it; else
/// never stop.
pub open spec fn spec_should_stop(
    scheduled: u64,
    expected: Option<u64>,
    now: u64,
    end: Option<u64>,
) -> bool {
    match expected {
        Some(e) => scheduled >= e,
        None => match end {
            Some(t) => now >= t,
            None => false,
        },
    }
}

/// Decide whether pacing is over.
pub fn should_stop(scheduled: u64, expected: Option<u64>, now: u64, end: Option<u64>) -> (r:
    bool)
    ensures
        r == spec_should_stop(scheduled, expected, now, end),
        expected == Some(0u64) ==> r,
{
    match expected {
        Some(e) => scheduled >= e,
        None => match end {
            Some(t) => now >= t,
            None => false,
        },
    }
}

/// Exact delivery: a pacing loop that starts at zero, stops exactly
/// when the termination rule first says so, and schedules one request
/// per tick, ends with the scheduled count equal to the promised
/// count.  Stated over one loop step: the count never passes the
/// promise, and stopping with the promise not yet met is impossible.
pub proof fn lemma_exact_delivery(scheduled: u64, expected: u64)
    ensures
        !spec_should_stop(scheduled, Some(expected), 0, None) && scheduled < u64::MAX
            ==> scheduled + 1 <= expected,
        spec_should_stop(scheduled, Some(expected), 0, None) && scheduled <= expected
            ==> scheduled == expected,
{
}

/// A run with a zero duration promises zero requests, and the first
/// termination check already stops it.
pub proof fn lemma_zero_duration_stops_at_once(requests: u64, window: u64)
    requires
        window > 0,
    ensures
        spec_expected_count(requests, window, 0) == 0,
        spec_should_stop(0, Some(0), 0, None),
{
}

/// The promised count and end instant of a configuration: both are
/// present exactly when the duration is finite.
pub fn plan_of_config(config: &AttackConfig, start: u64) -> (r: (Option<u64>, Option<u64>))
    requires
        config.wf(),
        config.duration matches Some(d) ==> d + start <= u64::MAX
            && spec_expected_count(config.rate_requests, config.rate_window, d) <= u64::MAX,
    ensures
        match config.duration {
            Some(d) => {
                &&& r.0 == Some(
                    (spec_expected_count(config.rate_requests, config.rate_window, d)) as u64,
                )
                &&& r.1 == Some((start + d) as u64)
            },
            None => r == (Option::<u64>::None, Option::<u64>::None),
        },
{
    match config.duration {
        Some(d) => (
            Some(expected_count(config.rate_requests, config.rate_window, d)),
            Some(start + d),
        ),
        None => (None, None),
    }
}

} // verus!
