//! Fixed-point arithmetic in thousandths that never leaves `i64`: a result
//! beyond the range is held at the nearest bound.

use crate::model::UNIT;
use vstd::prelude::*;

verus! {

/// The value of `i64` nearest to `v`.
pub open spec fn saturate(v: int) -> i64 {
    if v < i64::MIN {
        i64::MIN
    } else if v > i64::MAX {
        i64::MAX
    } else {
        v as i64
    }
}

/// `a` divided by `b`, rounded towards zero.
pub open spec fn quotient(a: int, b: int) -> int
    recommends
        b > 0,
{
    if a >= 0 {
        a / b
    } else {
        -((-a) / b)
    }
}

/// The product of two fixed-point numbers, rounded towards zero.
pub open spec fn scaled_product(a: int, b: int) -> int {
    quotient(a * b, UNIT as int)
}

/// The ratio of two fixed-point numbers, rounded towards zero.
pub open spec fn scaled_ratio(a: int, b: int) -> int
    recommends
        b > 0,
{
    quotient(a * UNIT, b)
}

/// The value of `i64` nearest to `v`.
pub fn saturating(v: i128) -> (r: i64)
    ensures
        r == saturate(v as int),
{
    if v < i64::MIN as i128 {
        i64::MIN
    } else if v > i64::MAX as i128 {
        i64::MAX
    } else {
        v as i64
    }
}

/// The sum of `a` and `b`, held at the bounds of `i64`.
pub fn add_fixed(a: i64, b: i64) -> (r: i64)
    ensures
        r == saturate(a + b),
{
    saturating(a as i128 + b as i128)
}

/// `a * b / 1000` for fixed-point `a` and `b`, rounded towards zero.
pub fn mul_fixed(a: i128, b: i64) -> (r: i128)
    requires
        -0x1_0000_0000_0000_0000 < a < 0x1_0000_0000_0000_0000,
    ensures
        r == scaled_product(a as int, b as int),
        -0x40_0000_0000_0000_0000_0000_0000_0000 < r < 0x40_0000_0000_0000_0000_0000_0000_0000,
{
    let ghost wide_a = a as int;
    let ghost wide_b = b as int;
    assert(-0x8000_0000_0000_0000_0000_0000_0000_0000 < wide_a * wide_b
        < 0x8000_0000_0000_0000_0000_0000_0000_0000) by (nonlinear_arith)
        requires
            -0x1_0000_0000_0000_0000 < wide_a,
            wide_a < 0x1_0000_0000_0000_0000,
            -0x8000_0000_0000_0000 <= wide_b,
            wide_b <= 0x7fff_ffff_ffff_ffff,
    ;
    let wide: i128 = a * (b as i128);
    wide / (UNIT as i128)
}

/// `a * 1000 / b` for fixed-point `a` and positive `b`, rounded towards zero.
pub fn div_fixed(a: i128, b: i64) -> (r: i128)
    requires
        b > 0,
        -0x1_0000_0000_0000_0000 <= a <= 0x1_0000_0000_0000_0000,
    ensures
        r == scaled_ratio(a as int, b as int),
{
    let unit: i128 = UNIT as i128;
    assert(unit == 1000);
    let wide: i128 = a * unit;
    wide / (b as i128)
}

} // verus!
