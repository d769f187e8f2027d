//! Products divided by a constant, rounded down, without overflow on the way.

use vstd::prelude::*;
use vstd::arithmetic::div_mod::{
    lemma_div_is_ordered, lemma_fundamental_div_mod, lemma_hoist_over_denominator,
};

verus! {

/// The largest divisor that `checked_mul_div` takes: `2^62`.
pub const MAX_DIVISOR: i128 = 0x4000_0000_0000_0000;

/// `a * b / d`, rounded down.
pub open spec fn mul_div(a: int, b: int, d: int) -> int {
    (a * b) / d
}

/// Splitting the first factor at a multiple of the divisor splits the quotient.
pub proof fn lemma_mul_div_split(q: int, r: int, b: int, d: int)
    requires
        0 < d,
    ensures
        mul_div(q * d + r, b, d) == q * b + mul_div(r, b, d),
{
    assert((q * d + r) * b == r * b + (q * b) * d) by (nonlinear_arith);
    lemma_hoist_over_denominator(r * b, q * b, d as nat);
}

/// Computes `mul_div(a, b, d)`, or `None` when it exceeds `i128::MAX`.
///
/// The product `a * b` may not fit in 128 bits even when the quotient does,
/// so `a` is split at a multiple of `d` and the two parts are divided apart.
pub fn checked_mul_div(a: i128, b: u64, d: i128) -> (r: Option<i128>)
    requires
        0 <= a,
        0 < d <= MAX_DIVISOR,
    ensures
        r == if mul_div(a as int, b as int, d as int) <= i128::MAX {
            Some(mul_div(a as int, b as int, d as int) as i128)
        } else {
            None::<i128>
        },
{
    let quotient: i128 = a / d;
    let rest: i128 = a % d;
    let factor: i128 = b as i128;
    proof {
        lemma_fundamental_div_mod(a as int, d as int);
        lemma_div_is_ordered(0, a as int, d as int);
        assert(a == quotient * d + rest) by (nonlinear_arith)
            requires
                a == d * quotient + rest,
        ;
        lemma_mul_div_split(quotient as int, rest as int, b as int, d as int);
        assert(0 <= rest * factor <= 0x4000_0000_0000_0000 * 0xffff_ffff_ffff_ffff)
            by (nonlinear_arith)
            requires
                0 <= rest < 0x4000_0000_0000_0000,
                0 <= factor <= 0xffff_ffff_ffff_ffff,
        ;
        assert(0 <= quotient * factor) by (nonlinear_arith)
            requires
                0 <= quotient,
                0 <= factor,
        ;
    }
    let low: i128 = (rest * factor) / d;
    proof {
        lemma_div_is_ordered(0, (rest * factor) as int, d as int);
    }
    match quotient.checked_mul(factor) {
        None => None,
        Some(high) => high.checked_add(low),
    }
}

} // verus!
