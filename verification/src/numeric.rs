//! Saturating and checked `u64` arithmetic, with exact specifications.
//!
//! The accountants use saturating arithmetic where a quantity is bounded
//! below by zero or capped at the machine maximum by design, and checked
//! arithmetic where an overflow must surface as an error.

use vstd::prelude::*;

verus! {

/// Fixed-point scale for `acc_reward_per_share` and `reward_debt`.
pub const PRECISION: u64 = 1_000_000_000_000;

/// `a + b`, capped at `u64::MAX`.
pub open spec fn sat_add_spec(a: int, b: int) -> int {
    if a + b > u64::MAX as int {
        u64::MAX as int
    } else {
        a + b
    }
}

/// `a - b`, floored at zero.
pub open spec fn sat_sub_spec(a: int, b: int) -> int {
    if a - b < 0 {
        0
    } else {
        a - b
    }
}

/// `a * b`, capped at `u64::MAX`.
pub open spec fn sat_mul_spec(a: int, b: int) -> int {
    if a * b > u64::MAX as int {
        u64::MAX as int
    } else {
        a * b
    }
}

pub fn sat_add(a: u64, b: u64) -> (r: u64)
    ensures
        r as int == sat_add_spec(a as int, b as int),
{
    if a <= u64::MAX - b {
        a + b
    } else {
        u64::MAX
    }
}

pub fn sat_sub(a: u64, b: u64) -> (r: u64)
    ensures
        r as int == sat_sub_spec(a as int, b as int),
{
    if a >= b {
        a - b
    } else {
        0
    }
}

pub fn sat_mul(a: u64, b: u64) -> (r: u64)
    ensures
        r as int == sat_mul_spec(a as int, b as int),
{
    proof {
        assert((a as int) * (b as int) <= (u64::MAX as int) * (u64::MAX as int))
            by (nonlinear_arith)
            requires
                a as int <= u64::MAX as int,
                b as int <= u64::MAX as int,
        ;
    }
    let p: u128 = (a as u128) * (b as u128);
    if p > u64::MAX as u128 {
        u64::MAX
    } else {
        p as u64
    }
}

/// `a * b`, or `None` on overflow.
pub fn checked_mul(a: u64, b: u64) -> (r: Option<u64>)
    ensures
        match r {
            Some(v) => v as int == a as int * b as int,
            None => a as int * b as int > u64::MAX as int,
        },
{
    proof {
        assert((a as int) * (b as int) <= (u64::MAX as int) * (u64::MAX as int))
            by (nonlinear_arith)
            requires
                a as int <= u64::MAX as int,
                b as int <= u64::MAX as int,
        ;
    }
    let p: u128 = (a as u128) * (b as u128);
    if p > u64::MAX as u128 {
        None
    } else {
        Some(p as u64)
    }
}

/// Saturating multiplication is monotone in both arguments.
pub proof fn lemma_sat_mul_mono(a1: int, a2: int, b1: int, b2: int)
    requires
        0 <= a1 <= a2,
        0 <= b1 <= b2,
    ensures
        sat_mul_spec(a1, b1) <= sat_mul_spec(a2, b2),
{
    assert(a1 * b1 <= a2 * b2) by (nonlinear_arith)
        requires
            0 <= a1 <= a2,
            0 <= b1 <= b2,
    ;
}

/// The saturated product of two non-negative factors is non-negative and
/// never exceeds the exact product.
pub proof fn lemma_sat_mul_bounds(a: int, b: int)
    requires
        0 <= a,
        0 <= b,
    ensures
        0 <= sat_mul_spec(a, b) <= a * b,
        sat_mul_spec(a, b) <= u64::MAX as int,
{
    assert(0 <= a * b) by (nonlinear_arith)
        requires
            0 <= a,
            0 <= b,
    ;
}

} // verus!
