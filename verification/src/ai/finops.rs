//! Chargeback counters: arithmetic on already-recorded usage, not a billing
//! system.
use vstd::prelude::*;

use crate::num::{clamp, sat_mul_u64};

verus! {

/// GPU-seconds used by `replicas` replicas over `seconds`, saturating.
pub fn gpu_seconds(replicas: u32, seconds: u64) -> (r: u64)
    ensures
        r == clamp(replicas * seconds, 0, u64::MAX as int),
{
    sat_mul_u64(replicas as u64, seconds)
}

/// Token charge: prompt and completion tokens at their rates, saturating at
/// every step.
pub fn token_charge(
    prompt_tokens: u64,
    completion_tokens: u64,
    prompt_rate: u64,
    completion_rate: u64,
) -> (r: u64)
    ensures
        r == clamp(
            clamp(prompt_tokens * prompt_rate, 0, u64::MAX as int) + clamp(
                completion_tokens * completion_rate,
                0,
                u64::MAX as int,
            ),
            0,
            u64::MAX as int,
        ),
{
    sat_mul_u64(prompt_tokens, prompt_rate).saturating_add(
        sat_mul_u64(completion_tokens, completion_rate),
    )
}

} // verus!
