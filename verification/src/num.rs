//! Saturating arithmetic, stated over mathematical integers.
use vstd::prelude::*;

verus! {

/// `v` clamped into `[lo, hi]`.
pub open spec fn clamp(v: int, lo: int, hi: int) -> int {
    if v < lo {
        lo
    } else if v > hi {
        hi
    } else {
        v
    }
}

/// `i64::saturating_sub`.
pub fn sat_sub_i64(a: i64, b: i64) -> (r: i64)
    ensures
        r == clamp(a - b, i64::MIN as int, i64::MAX as int),
{
    match a.checked_sub(b) {
        Some(v) => v,
        None => if b > 0 {
            i64::MIN
        } else {
            i64::MAX
        },
    }
}

/// `i64::saturating_add`.
pub fn sat_add_i64(a: i64, b: i64) -> (r: i64)
    ensures
        r == clamp(a + b, i64::MIN as int, i64::MAX as int),
{
    match a.checked_add(b) {
        Some(v) => v,
        None => if b > 0 {
            i64::MAX
        } else {
            i64::MIN
        },
    }
}

/// `u64::saturating_mul`.
pub fn sat_mul_u64(a: u64, b: u64) -> (r: u64)
    ensures
        r == clamp(a * b, 0, u64::MAX as int),
{
    match a.checked_mul(b) {
        Some(v) => v,
        None => u64::MAX,
    }
}

/// `u32::saturating_mul`.
pub fn sat_mul_u32(a: u32, b: u32) -> (r: u32)
    ensures
        r == clamp(a * b, 0, u32::MAX as int),
{
    match a.checked_mul(b) {
        Some(v) => v,
        None => u32::MAX,
    }
}

} // verus!
