//! The fixed-point scale shared by times, rates, scores and positions.

use vstd::prelude::*;
use vstd::arithmetic::div_mod::{lemma_fundamental_div_mod, lemma_fundamental_div_mod_converse};

verus! {

/// One whole unit: a second, a rate of 1.0x, one score point, one pixel.
pub const MICRO: i64 = 1_000_000;

/// The largest score the scoring engine may report: 1000 points.
pub const SCORE_MAX: i64 = 1_000_000_000;

/// The largest score goal: 100 percent.
pub const GOAL_MAX: i64 = 100_000_000;

/// The quotient of `x` by a positive `d` is the one `q` with
/// `q * d <= x < (q + 1) * d`.
pub proof fn lemma_quotient_between(x: int, d: int, q: int)
    requires
        d > 0,
        q * d <= x < (q + 1) * d,
    ensures
        x / d == q,
{
    assert((q + 1) * d == q * d + d) by (nonlinear_arith);
    lemma_fundamental_div_mod_converse(x, d, q, x - q * d);
}

/// The quotient by a positive `d` lies where the definition of division on
/// the integers puts it, and has the sign of `x`.
pub proof fn lemma_quotient_bounds(x: int, d: int)
    requires
        d > 0,
    ensures
        (x / d) * d <= x < (x / d + 1) * d,
        x < 0 <==> x / d < 0,
{
    lemma_fundamental_div_mod(x, d);
    let q = x / d;
    assert(d * q == q * d && (q + 1) * d == q * d + d) by (nonlinear_arith);
    assert(q >= 0 ==> q * d >= 0) by (nonlinear_arith)
        requires
            d > 0,
    ;
    assert(q < 0 ==> q * d <= -d) by (nonlinear_arith)
        requires
            d > 0,
    ;
}

/// The whole number nearest to `x / d`, for a positive `d`; of two that are
/// equally near, the one further from zero.
pub open spec fn nearest(x: int, d: int) -> int
    recommends
        d > 0,
{
    if x >= 0 {
        (2 * x + d) / (2 * d)
    } else {
        -((2 * (-x) + d) / (2 * d))
    }
}

/// A whole multiple of `d` divided by `d` is the multiple's factor, rounding
/// or not.
pub proof fn lemma_nearest_of_multiple(q: int, d: int)
    requires
        d > 0,
    ensures
        nearest(q * d, d) == q,
{
    if q >= 0 {
        assert(q * d >= 0) by (nonlinear_arith)
            requires
                q >= 0,
                d > 0,
        ;
        assert(q * (2 * d) <= 2 * (q * d) + d < (q + 1) * (2 * d)) by (nonlinear_arith)
            requires
                d > 0,
        ;
        lemma_quotient_between(2 * (q * d) + d, 2 * d, q);
    } else {
        assert(q * d < 0) by (nonlinear_arith)
            requires
                q < 0,
                d > 0,
        ;
        assert((-q) * (2 * d) <= 2 * (-(q * d)) + d < ((-q) + 1) * (2 * d)) by (nonlinear_arith)
            requires
                d > 0,
        ;
        lemma_quotient_between(2 * (-(q * d)) + d, 2 * d, -q);
    }
}

/// Rounding keeps the side of zero: what is not negative rounds to what is
/// not negative, and what is not positive to what is not positive.
pub proof fn lemma_nearest_keeps_side(x: int, d: int)
    requires
        d > 0,
    ensures
        x >= 0 ==> nearest(x, d) >= 0,
        x <= 0 ==> nearest(x, d) <= 0,
{
    if x >= 0 {
        lemma_quotient_bounds(2 * x + d, 2 * d);
    }
    if x < 0 {
        lemma_quotient_bounds(2 * (-x) + d, 2 * d);
    }
    if x == 0 {
        lemma_quotient_between(d, 2 * d, 0);
    }
}

} // verus!
