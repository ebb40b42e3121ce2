//! Saturating fixed-point arithmetic over `i64` values scaled by `SCALE`.

use vstd::prelude::*;
use vstd::arithmetic::div_mod::{lemma_div_is_ordered, lemma_div_multiples_vanish};

verus! {

/// Number of fixed-point units per whole currency unit.
pub const SCALE: i64 = 1_000_000;

/// Clamps a mathematical integer into the range of `i64`.
pub open spec fn sat_i64(x: int) -> int {
    if x > i64::MAX as int {
        i64::MAX as int
    } else if x < i64::MIN as int {
        i64::MIN as int
    } else {
        x
    }
}

/// Quotient of `a` by a positive divisor `d`, rounded towards zero.
pub open spec fn div_trunc(a: int, d: int) -> int {
    if a >= 0 {
        a / d
    } else {
        -((-a) / d)
    }
}

/// Product of two fixed-point numbers, scaled back down and clamped into `i64`.
pub open spec fn fx_mul(a: int, b: int) -> int {
    sat_i64(div_trunc(a * b, SCALE as int))
}

/// Midpoint of two fixed-point numbers, rounded towards zero.
pub open spec fn fx_mid(a: int, b: int) -> int {
    div_trunc(a + b, 2)
}

/// The magnitude of the quotient never exceeds the magnitude of the dividend.
pub proof fn lemma_div_trunc_bounds(a: int, d: int)
    requires
        d >= 1,
    ensures
        a >= 0 ==> 0 <= div_trunc(a, d) <= a,
        a < 0 ==> a <= div_trunc(a, d) <= 0,
{
    if a >= 0 {
        lemma_div_is_ordered(0, a, d);
        vstd::arithmetic::div_mod::lemma_div_nonincreasing(a, d);
    } else {
        lemma_div_is_ordered(0, -a, d);
        vstd::arithmetic::div_mod::lemma_div_nonincreasing(-a, d);
    }
}

/// Rounding towards zero preserves an upper bound given by a multiple of the divisor.
pub proof fn lemma_div_trunc_upper(a: int, d: int, m: int)
    requires
        d >= 1,
        m >= 0,
        a <= m * d,
    ensures
        div_trunc(a, d) <= m,
{
    lemma_div_trunc_bounds(a, d);
    if a >= 0 {
        vstd::arithmetic::mul::lemma_mul_is_commutative(m, d);
        lemma_div_is_ordered(a, d * m, d);
        lemma_div_multiples_vanish(m, d);
    }
}

/// Divides a non-negative 128-bit value by a positive divisor.
fn div_u128(m: u128, d: u128) -> (q: u128)
    requires
        d >= 1,
    ensures
        q == m as int / d as int,
{
    m / d
}

/// Clamps a signed 128-bit value into the range of `i64`.
pub fn sat_to_i64(x: i128) -> (r: i64)
    ensures
        r as int == sat_i64(x as int),
{
    if x > i64::MAX as i128 {
        i64::MAX
    } else if x < i64::MIN as i128 {
        i64::MIN
    } else {
        x as i64
    }
}

/// Divides a signed 128-bit value by a positive divisor, rounding towards
/// zero.
pub fn div_signed(s: i128, d: u128) -> (r: i128)
    requires
        d >= 1,
        s > i128::MIN,
    ensures
        r as int == div_trunc(s as int, d as int),
{
    let neg: bool = s < 0;
    let m: u128 = if neg {
        (-s) as u128
    } else {
        s as u128
    };
    let q: u128 = div_u128(m, d);
    proof {
        lemma_div_trunc_bounds(s as int, d as int);
    }
    if neg {
        -(q as i128)
    } else {
        q as i128
    }
}

/// Multiplies two fixed-point numbers exactly, scaling the product back down
/// and clamping it into the `i64` range.
pub fn mul_scale(a: i64, b: i64) -> (r: i64)
    ensures
        r as int == fx_mul(a as int, b as int),
{
    proof {
        assert((a as int) * (b as int) <= 0x4000_0000_0000_0000_0000_0000_0000_0000int
            && (a as int) * (b as int) >= -0x4000_0000_0000_0000_0000_0000_0000_0000int)
            by (nonlinear_arith)
            requires
                -0x8000_0000_0000_0000 <= a as int <= 0x7fff_ffff_ffff_ffff,
                -0x8000_0000_0000_0000 <= b as int <= 0x7fff_ffff_ffff_ffff;
    }
    let p: i128 = (a as i128) * (b as i128);
    let neg: bool = p < 0;
    let m: u128 = if neg {
        (-p) as u128
    } else {
        p as u128
    };
    let q: u128 = div_u128(m, SCALE as u128);
    proof {
        lemma_div_trunc_bounds(p as int, SCALE as int);
    }
    if neg {
        if q >= 9_223_372_036_854_775_808u128 {
            i64::MIN
        } else {
            -(q as i64)
        }
    } else {
        if q > i64::MAX as u128 {
            i64::MAX
        } else {
            q as i64
        }
    }
}

/// Midpoint of two fixed-point numbers, rounded towards zero. Always in range,
/// since the midpoint of two `i64` values fits in `i64`.
pub fn mid_pair(a: i64, b: i64) -> (r: i64)
    ensures
        r as int == fx_mid(a as int, b as int),
{
    let s: i128 = (a as i128) + (b as i128);
    let neg: bool = s < 0;
    let m: u128 = if neg {
        (-s) as u128
    } else {
        s as u128
    };
    let q: u128 = div_u128(m, 2);
    proof {
        lemma_div_trunc_bounds(s as int, 2);
    }
    if neg {
        if q >= 9_223_372_036_854_775_808u128 {
            i64::MIN
        } else {
            -(q as i64)
        }
    } else {
        q as i64
    }
}

} // verus!
