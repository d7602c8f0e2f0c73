//! Fixed-point and fractional arithmetic for the settlement engine.
//!
//! Prices are fixed-point values stored as a raw `u128` scaled by
//! [`PRICE_SCALE`]; margin fractions are parts per million. Every product of
//! two 128-bit quantities is evaluated exactly with 256-bit intermediates by
//! `sp_arithmetic`, and the two wrappers below are the only operations this
//! crate takes on trust.

use vstd::prelude::*;

verus! {

/// Raw fixed-point value of one whole price unit.
pub const PRICE_SCALE: u128 = 1000000000000000000;

/// Denominator of margin fractions: parts per million.
pub const FRACTION_DENOM: u32 = 1000000;

/// `PRICE_SCALE * FRACTION_DENOM`: denominator of a fraction-of-price product.
pub const FRACTION_PRICE_DENOM: u128 = 1000000000000000000 * 1000000;

/// Absolute value of a mathematical integer.
pub open spec fn iabs(a: int) -> int {
    if a < 0 {
        -a
    } else {
        a
    }
}

/// Minimum of two mathematical integers.
pub open spec fn imin(a: int, b: int) -> int {
    if a <= b {
        a
    } else {
        b
    }
}

/// Maximum of two mathematical integers.
pub open spec fn imax(a: int, b: int) -> int {
    if a >= b {
        a
    } else {
        b
    }
}

/// `a * b / c` rounded toward zero (all arguments non-negative).
pub open spec fn mul_div_floor(a: int, b: int, c: int) -> int
    recommends
        c > 0,
{
    (a * b) / c
}

/// `a * b / c` rounded away from zero (all arguments non-negative).
pub open spec fn mul_div_ceil(a: int, b: int, c: int) -> int
    recommends
        c > 0,
{
    (a * b + c - 1) / c
}

/// `a * b / c` rounded down and saturated at `u128::MAX`; the total form used
/// inside the batch settlement passes, which must never abort.
pub open spec fn mul_div_floor_sat(a: int, b: int, c: int) -> int
    recommends
        c > 0,
{
    imin(mul_div_floor(a, b, c), u128::MAX as int)
}

/// Relies on `sp_arithmetic::helpers_128bit::multiply_by_rational_with_rounding`
/// with `Rounding::Down`: it computes `a * b / c` exactly with a 256-bit
/// intermediate product, rounds down, and returns `None` exactly when `c` is
/// zero or the rounded result exceeds `u128::MAX`.
#[verifier::external_body]
pub(crate) fn mul_rat_floor(a: u128, b: u128, c: u128) -> (r: Option<u128>)
    ensures
        c == 0 ==> r is None,
        c != 0 ==> r == (if mul_div_floor(a as int, b as int, c as int) <= u128::MAX {
            Some(mul_div_floor(a as int, b as int, c as int) as u128)
        } else {
            Option::<u128>::None
        }),
{
    sp_arithmetic::helpers_128bit::multiply_by_rational_with_rounding(
        a,
        b,
        c,
        sp_arithmetic::Rounding::Down,
    )
}

/// Relies on `sp_arithmetic::helpers_128bit::multiply_by_rational_with_rounding`
/// with `Rounding::Up`: it computes `a * b / c` exactly with a 256-bit
/// intermediate product, rounds up, and returns `None` exactly when `c` is
/// zero or the rounded result exceeds `u128::MAX`.
#[verifier::external_body]
pub(crate) fn mul_rat_ceil(a: u128, b: u128, c: u128) -> (r: Option<u128>)
    ensures
        c == 0 ==> r is None,
        c != 0 ==> r == (if mul_div_ceil(a as int, b as int, c as int) <= u128::MAX {
            Some(mul_div_ceil(a as int, b as int, c as int) as u128)
        } else {
            Option::<u128>::None
        }),
{
    sp_arithmetic::helpers_128bit::multiply_by_rational_with_rounding(
        a,
        b,
        c,
        sp_arithmetic::Rounding::Up,
    )
}

/// The floor of `a * b / c` is non-negative and no greater than `a * b / c`
/// scaled back up, i.e. `c * floor <= a * b < c * floor + c`.
pub proof fn lemma_mul_div_floor_bounds(a: int, b: int, c: int)
    requires
        a >= 0,
        b >= 0,
        c > 0,
    ensures
        0 <= mul_div_floor(a, b, c),
        c * mul_div_floor(a, b, c) <= a * b,
        a * b < c * mul_div_floor(a, b, c) + c,
{
    assert(a * b >= 0) by (nonlinear_arith)
        requires
            a >= 0,
            b >= 0,
    ;
    lemma_div_bounds(a * b, c);
}

/// For `x >= 0` and `d > 0`: `0 <= x / d` and `d * (x / d) <= x < d * (x / d) + d`.
pub proof fn lemma_div_bounds(x: int, d: int)
    requires
        x >= 0,
        d > 0,
    ensures
        0 <= x / d,
        d * (x / d) <= x,
        x < d * (x / d) + d,
{
    assert(0 <= x / d && d * (x / d) <= x && x < d * (x / d) + d) by (nonlinear_arith)
        requires
            x >= 0,
            d > 0,
    ;
}

/// The ceiling of `a * b / c` lies between the exact quotient and one above:
/// `a * b <= c * ceil < a * b + c`.
pub proof fn lemma_mul_div_ceil_bounds(a: int, b: int, c: int)
    requires
        a >= 0,
        b >= 0,
        c > 0,
    ensures
        0 <= mul_div_ceil(a, b, c),
        a * b <= c * mul_div_ceil(a, b, c),
        c * mul_div_ceil(a, b, c) < a * b + c,
{
    assert(a * b >= 0) by (nonlinear_arith)
        requires
            a >= 0,
            b >= 0,
    ;
    lemma_div_bounds(a * b + c - 1, c);
    let q = (a * b + c - 1) / c;
    assert(c * q <= a * b + c - 1);
    assert(a * b + c - 1 < c * q + c);
}

/// Scaling by a fraction with `b <= c` never increases a non-negative value,
/// whether rounded down or up.
pub proof fn lemma_fraction_le(a: int, b: int, c: int)
    requires
        a >= 0,
        0 <= b <= c,
        c > 0,
    ensures
        mul_div_floor(a, b, c) <= a,
        mul_div_ceil(a, b, c) <= a,
{
    lemma_mul_div_floor_bounds(a, b, c);
    lemma_mul_div_ceil_bounds(a, b, c);
    assert(a * b <= a * c) by (nonlinear_arith)
        requires
            a >= 0,
            b <= c,
    ;
    let q = mul_div_floor(a, b, c);
    assert(c * q <= a * c);
    assert(q <= a) by (nonlinear_arith)
        requires
            c > 0,
            c * q <= a * c,
    ;
    let w = mul_div_ceil(a, b, c);
    assert(c * w < a * c + c);
    assert(w <= a) by (nonlinear_arith)
        requires
            c > 0,
            c * w < a * c + c,
    ;
}

/// Total floor multiply-divide: `min(a * b / c, u128::MAX)`.
pub(crate) fn mul_rat_floor_sat(a: u128, b: u128, c: u128) -> (r: u128)
    requires
        c > 0,
    ensures
        r == mul_div_floor_sat(a as int, b as int, c as int),
{
    proof {
        lemma_mul_div_floor_bounds(a as int, b as int, c as int);
    }
    match mul_rat_floor(a, b, c) {
        Some(v) => v,
        None => u128::MAX,
    }
}

/// Magnitude of a signed quantity as an unsigned value; total, exact even at
/// the far end of the signed range.
pub(crate) fn abs_u128(a: i128) -> (r: u128)
    ensures
        r == iabs(a as int),
{
    if a >= 0 {
        a as u128
    } else {
        ((-(a + 1)) as u128) + 1
    }
}

/// Reattach a sign to a magnitude known to fit the signed range.
pub(crate) fn signed_of_mag(mag: u128, negative: bool) -> (r: i128)
    requires
        negative ==> mag <= i128::MAX as u128 + 1,
        !negative ==> mag <= i128::MAX as u128,
    ensures
        negative ==> r as int == -(mag as int),
        !negative ==> r as int == mag as int,
{
    if negative {
        if mag == (i128::MAX as u128) + 1 {
            i128::MIN
        } else {
            -(mag as i128)
        }
    } else {
        mag as i128
    }
}

} // verus!
