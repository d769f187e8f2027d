//! Yield accrual: simple (non-compounding) interest at a fixed annual rate,
//! counted in whole units and rounded down.

use vstd::prelude::*;
use vstd::arithmetic::div_mod::{
    lemma_div_denominator, lemma_div_is_ordered, lemma_div_multiples_vanish,
    lemma_fundamental_div_mod,
};
use crate::treasury::ratio::checked_mul_div;

verus! {

/// The annual percentage yield, in basis points (5%).
pub const APY_BPS: u32 = 500;

/// The number of seconds in a 365-day year.
pub const SECONDS_PER_YEAR: u64 = 31_536_000;

/// The number of basis points in a whole.
pub const BPS_SCALE: u32 = 10_000;

/// `SECONDS_PER_YEAR * BPS_SCALE / APY_BPS`: the number of unit-seconds of
/// principal that earn one unit of yield.
pub const UNIT_SECONDS_PER_YIELD: i128 = 630_720_000;

/// The yield earned by `principal` over `elapsed` seconds:
/// `principal * APY_BPS * elapsed / (SECONDS_PER_YEAR * BPS_SCALE)`, rounded down.
pub open spec fn accrued_yield(principal: int, elapsed: int) -> int {
    (principal * (APY_BPS as int) * elapsed) / ((SECONDS_PER_YEAR as int) * (BPS_SCALE as int))
}

/// The rate cancels out of numerator and denominator: the yield is the number
/// of whole multiples of `UNIT_SECONDS_PER_YIELD` in `principal * elapsed`.
pub proof fn lemma_accrued_yield_reduced(principal: int, elapsed: int)
    requires
        0 <= principal,
        0 <= elapsed,
    ensures
        accrued_yield(principal, elapsed) == (principal * elapsed) / (UNIT_SECONDS_PER_YIELD as int),
{
    let x = principal * elapsed;
    let d = UNIT_SECONDS_PER_YIELD as int;
    assert(0 <= x) by (nonlinear_arith)
        requires
            x == principal * elapsed,
            0 <= principal,
            0 <= elapsed,
    ;
    assert(principal * 500 * elapsed == 500 * x) by (nonlinear_arith)
        requires
            x == principal * elapsed,
    ;
    assert((SECONDS_PER_YEAR as int) * (BPS_SCALE as int) == 500 * d);
    lemma_div_denominator(500 * x, 500, d);
    lemma_div_multiples_vanish(x, 500);
}

/// Yield is never negative.
pub proof fn lemma_accrued_yield_nonnegative(principal: int, elapsed: int)
    requires
        0 <= principal,
        0 <= elapsed,
    ensures
        0 <= accrued_yield(principal, elapsed),
{
    lemma_accrued_yield_reduced(principal, elapsed);
    let x = principal * elapsed;
    assert(0 <= x) by (nonlinear_arith)
        requires
            x == principal * elapsed,
            0 <= principal,
            0 <= elapsed,
    ;
    lemma_div_is_ordered(0, x, UNIT_SECONDS_PER_YIELD as int);
}

/// Yield is positive exactly when `principal * elapsed` has reached one whole
/// multiple of `UNIT_SECONDS_PER_YIELD`; below that the floor rounds it to zero.
pub proof fn lemma_accrued_yield_positive(principal: int, elapsed: int)
    requires
        0 <= principal,
        0 <= elapsed,
    ensures
        0 < accrued_yield(principal, elapsed) <==> principal * elapsed >= UNIT_SECONDS_PER_YIELD,
{
    lemma_accrued_yield_reduced(principal, elapsed);
    let x = principal * elapsed;
    let d = UNIT_SECONDS_PER_YIELD as int;
    lemma_fundamental_div_mod(x, d);
    assert(0 <= x % d < d);
    if x >= d {
        lemma_div_is_ordered(d, x, d);
        assert(d / d == 1);
    } else {
        assert(0 <= x) by (nonlinear_arith)
            requires
                x == principal * elapsed,
                0 <= principal,
                0 <= elapsed,
        ;
        lemma_div_is_ordered(x, d - 1, d);
        assert((d - 1) / d == 0);
    }
}

/// Yield never shrinks when the principal or the elapsed time grows.
pub proof fn lemma_accrued_yield_monotonic(p1: int, e1: int, p2: int, e2: int)
    requires
        0 <= p1 <= p2,
        0 <= e1 <= e2,
    ensures
        accrued_yield(p1, e1) <= accrued_yield(p2, e2),
{
    lemma_accrued_yield_reduced(p1, e1);
    lemma_accrued_yield_reduced(p2, e2);
    assert(p1 * e1 <= p2 * e2) by (nonlinear_arith)
        requires
            0 <= p1 <= p2,
            0 <= e1 <= e2,
    ;
    lemma_div_is_ordered(p1 * e1, p2 * e2, UNIT_SECONDS_PER_YIELD as int);
}

/// Computes `accrued_yield(principal, elapsed)`, or `None` when it exceeds `i128::MAX`.
pub fn checked_yield(principal: i128, elapsed: u64) -> (y: Option<i128>)
    requires
        0 <= principal,
    ensures
        y == if accrued_yield(principal as int, elapsed as int) <= i128::MAX {
            Some(accrued_yield(principal as int, elapsed as int) as i128)
        } else {
            None::<i128>
        },
{
    proof {
        lemma_accrued_yield_reduced(principal as int, elapsed as int);
    }
    checked_mul_div(principal, elapsed, UNIT_SECONDS_PER_YIELD)
}

} // verus!
