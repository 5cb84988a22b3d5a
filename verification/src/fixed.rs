//! Decimal fixed-point arithmetic for amplitudes and probabilities.
//!
//! A real number `x` in [-1, 1] is held as the integer nearest to
//! `x * SCALE`. Sums are exact; a product of two such integers counts units
//! of 1/SCALE^2 and is brought back to the grid by [`rescale`].

use vstd::prelude::*;

verus! {

/// The fixed-point representation of 1.0: every amplitude, matrix entry and
/// probability is an integer count of units of 1/SCALE.
pub const SCALE: i64 = 10_000_000_000_000;

/// Half of [`SCALE`], added before dividing so that quotients round to
/// nearest.
pub const HALF_SCALE: i64 = 5_000_000_000_000;

/// The fixed-point representation of 1/sqrt(2). It is the nearest grid
/// point and lies below the true value, so that two Hadamard gates in a
/// row never take an amplitude beyond 1.
pub const FRAC_1_SQRT_2: i64 = 7_071_067_811_865;

/// `x` stands for a real number in [-1, 1].
pub open spec fn in_unit(x: int) -> bool {
    -(SCALE as int) <= x <= SCALE as int
}

/// Brings a product of two fixed-point numbers back to the grid: division
/// by [`SCALE`], rounded to nearest, ties away from zero.
pub open spec fn rescale(x: int) -> int {
    if x >= 0 {
        (x + HALF_SCALE) / (SCALE as int)
    } else {
        -((HALF_SCALE - x) / (SCALE as int))
    }
}

/// The largest magnitude that [`rescale_wide`] accepts: 2^126.
pub open spec fn wide_limit() -> int {
    0x4000_0000_0000_0000_0000_0000_0000_0000
}

/// Computes [`rescale`] on a wide accumulator.
pub fn rescale_wide(x: i128) -> (r: i128)
    requires
        -wide_limit() <= x <= wide_limit(),
    ensures
        r == rescale(x as int),
{
    if x >= 0 {
        (x + HALF_SCALE as i128) / (SCALE as i128)
    } else {
        -((HALF_SCALE as i128 - x) / (SCALE as i128))
    }
}

/// The square of [`SCALE`]: what 1.0 is among exact products.
pub open spec fn scale_squared() -> int {
    100_000_000_000_000_000_000_000_000
}

/// The product of two numbers in [-1, 1] stays within the square of the
/// scale.
pub proof fn lemma_product_bound(a: int, b: int)
    requires
        in_unit(a),
        in_unit(b),
    ensures
        -scale_squared() <= a * b <= scale_squared(),
{
    assert(-100_000_000_000_000_000_000_000_000 <= a * b <= 100_000_000_000_000_000_000_000_000)
        by (nonlinear_arith)
        requires
            -10_000_000_000_000 <= a <= 10_000_000_000_000,
            -10_000_000_000_000 <= b <= 10_000_000_000_000,
    ;
}

/// An exact product that lies within the square of the scale comes back
/// into [-1, 1].
pub proof fn lemma_rescale_unit(x: int)
    requires
        -scale_squared() <= x <= scale_squared(),
    ensures
        in_unit(rescale(x)),
{
}

/// Rounding to the grid moves a product by at most half a unit.
pub proof fn lemma_rescale_error(x: int)
    ensures
        -HALF_SCALE <= SCALE * rescale(x) - x <= HALF_SCALE,
{
}

/// A multiple of the scale comes back exactly: multiplying by 1.0 changes
/// nothing.
pub proof fn lemma_rescale_multiple(x: int)
    ensures
        rescale(x * SCALE) == x,
        rescale(SCALE * x) == x,
        rescale(0) == 0,
{
    assert(x * SCALE == SCALE * x) by (nonlinear_arith);
}

/// Rescaling commutes with negation.
pub proof fn lemma_rescale_neg(x: int)
    ensures
        rescale(-x) == -rescale(x),
{
}

/// The fixed-point product of two numbers in [-1, 1].
pub fn mul_fixed(a: i64, b: i64) -> (r: i64)
    requires
        in_unit(a as int),
        in_unit(b as int),
    ensures
        r == rescale(a * b),
        in_unit(r as int),
{
    proof {
        lemma_product_bound(a as int, b as int);
        lemma_rescale_unit(a * b);
    }
    let wide: i128 = (a as i128) * (b as i128);
    let scaled: i128 = rescale_wide(wide);
    scaled as i64
}

} // verus!
