//! Per-endpoint circuit breaker. Five consecutive failures open it for 30s.
use vstd::prelude::*;

use crate::num::{clamp, sat_add_i64};

verus! {

pub const FAILURE_THRESHOLD: u32 = 5;

pub const OPEN_SECS: i64 = 30;

#[derive(Debug, Clone, Copy, PartialEq, Eq, Structural)]
pub struct Breaker {
    pub failures: u32,
    pub open_until_unix: i64,
}

impl Default for Breaker {
    fn default() -> (r: Self)
        ensures
            r == (Breaker { failures: 0, open_until_unix: 0 }),
    {
        Breaker { failures: 0, open_until_unix: 0 }
    }
}

pub open spec fn is_open_spec(breaker: Breaker, now_unix: i64) -> bool {
    breaker.open_until_unix > now_unix
}

pub fn is_open(breaker: &Breaker, now_unix: i64) -> (r: bool)
    ensures
        r == is_open_spec(*breaker, now_unix),
{
    breaker.open_until_unix > now_unix
}

/// The breaker after one observed outcome.
pub open spec fn observe_spec(breaker: Breaker, failed: bool, now_unix: i64) -> Breaker {
    if is_open_spec(breaker, now_unix) {
        breaker
    } else if !failed {
        Breaker { failures: 0, open_until_unix: 0 }
    } else {
        let failures = clamp(breaker.failures + 1, 0, u32::MAX as int) as u32;
        if failures >= FAILURE_THRESHOLD {
            Breaker {
                failures,
                open_until_unix: clamp(now_unix + OPEN_SECS, i64::MIN as int, i64::MAX as int) as i64,
            }
        } else {
            Breaker { failures, open_until_unix: 0 }
        }
    }
}

/// Records one outcome. An open breaker ignores outcomes until it closes.
pub fn observe(breaker: Breaker, failed: bool, now_unix: i64) -> (r: Breaker)
    ensures
        r == observe_spec(breaker, failed, now_unix),
{
    if is_open(&breaker, now_unix) {
        return breaker;
    }
    if !failed {
        return Breaker::default();
    }
    let failures = breaker.failures.saturating_add(1);
    if failures >= FAILURE_THRESHOLD {
        Breaker { failures, open_until_unix: sat_add_i64(now_unix, OPEN_SECS) }
    } else {
        Breaker { failures, open_until_unix: 0 }
    }
}

/// Consecutive failures at one instant: after the fifth the breaker is open
/// for the next 30 seconds, and no earlier failure opens it.
pub proof fn lemma_fifth_failure_opens(now_unix: i64)
    requires
        0 <= now_unix <= i64::MAX - OPEN_SECS,
    ensures
        ({
            let b1 = observe_spec(Breaker { failures: 0, open_until_unix: 0 }, true, now_unix);
            let b2 = observe_spec(b1, true, now_unix);
            let b3 = observe_spec(b2, true, now_unix);
            let b4 = observe_spec(b3, true, now_unix);
            let b5 = observe_spec(b4, true, now_unix);
            &&& !is_open_spec(b4, now_unix)
            &&& b5.failures == FAILURE_THRESHOLD
            &&& forall|t: i64| #![trigger is_open_spec(b5, t)] now_unix <= t < now_unix + OPEN_SECS ==> is_open_spec(b5, t)
            &&& !is_open_spec(b5, (now_unix + OPEN_SECS) as i64)
        }),
{
    let b1 = observe_spec(Breaker { failures: 0, open_until_unix: 0 }, true, now_unix);
    assert(b1 == Breaker { failures: 1, open_until_unix: 0 });
    let b2 = observe_spec(b1, true, now_unix);
    assert(b2 == Breaker { failures: 2, open_until_unix: 0 });
    let b3 = observe_spec(b2, true, now_unix);
    assert(b3 == Breaker { failures: 3, open_until_unix: 0 });
    let b4 = observe_spec(b3, true, now_unix);
    assert(b4 == Breaker { failures: 4, open_until_unix: 0 });
    let b5 = observe_spec(b4, true, now_unix);
    assert(b5.open_until_unix == now_unix + OPEN_SECS);
}

/// While open, the breaker ignores outcomes; once closed, a success resets it.
pub proof fn lemma_open_ignores_and_success_resets(breaker: Breaker, failed: bool, now_unix: i64)
    ensures
        is_open_spec(breaker, now_unix) ==> observe_spec(breaker, failed, now_unix) == breaker,
        !is_open_spec(breaker, now_unix) && !failed ==> observe_spec(breaker, failed, now_unix)
            == (Breaker { failures: 0, open_until_unix: 0 }),
{
}

} // verus!
