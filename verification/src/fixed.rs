//! Fixed-point arithmetic: the unit, exact wide products, and division
//! that rounds down.

use vstd::prelude::*;

verus! {

/// The fixed-point unit: the integer that stands for the real number one.
///
/// Every continuous quantity of this crate (a coordinate, a colour channel, an
/// angle in degrees) is an `i64` counting units of `1 / ONE`. The unit is a
/// multiple of 50400, so every breakpoint of the fixed patterns (eighths,
/// sevenths, twelfths, twenty-fifths and their products) is a whole number of
/// units and bucketing a coordinate loses nothing.
pub const ONE: i64 = 1_008_000_000;

/// `ONE` squared.
pub const ONE_SQUARED: i64 = 1_016_064_000_000_000_000;

/// One hundredth, in fixed point.
pub const CENT: i64 = 10_080_000;

/// A full turn, in fixed-point degrees.
pub const TURN: i64 = 362_880_000_000;

/// A pair of unsigned grid dimensions or grid positions.
pub type CU = (u16, u16);

/// A pair of fixed-point numbers: a point or an offset.
pub type CF = (i64, i64);

/// `v` lies in the closed unit interval.
pub open spec fn unit(v: int) -> bool {
    0 <= v <= ONE
}

/// Both components of `c` lie in the closed unit interval.
pub open spec fn in_unit_square(c: CF) -> bool {
    unit(c.0 as int) && unit(c.1 as int)
}

/// `a / ONE` rounded to the nearest integer, halves upwards.
pub open spec fn round_unit(a: int) -> int {
    ((2 * a + ONE) / (ONE as int)) / 2
}

/// `v` held to the interval from `lo` to `hi`.
pub open spec fn clamp(v: int, lo: int, hi: int) -> int {
    if v < lo {
        lo
    } else if v > hi {
        hi
    } else {
        v
    }
}

/// The product of two `i64` always fits in an `i128`.
pub proof fn lemma_product_fits(a: int, b: int)
    requires
        i64::MIN <= a <= i64::MAX,
        i64::MIN <= b <= i64::MAX,
    ensures
        -0x4000_0000_0000_0000_0000_0000_0000_0000 <= a * b
            <= 0x4000_0000_0000_0000_0000_0000_0000_0000,
{
    assert(-0x4000_0000_0000_0000_0000_0000_0000_0000 <= a * b
        <= 0x4000_0000_0000_0000_0000_0000_0000_0000) by (nonlinear_arith)
        requires
            -0x8000_0000_0000_0000 <= a <= 0x8000_0000_0000_0000,
            -0x8000_0000_0000_0000 <= b <= 0x8000_0000_0000_0000,
    ;
}

/// A quotient by a positive divisor is no larger in magnitude than the dividend.
pub proof fn lemma_div_bounds(a: int, d: int)
    requires
        d > 0,
    ensures
        a >= 0 ==> 0 <= a / d <= a,
        a < 0 ==> a <= a / d < 0,
{
    assert(a >= 0 ==> 0 <= a / d <= a) by (nonlinear_arith)
        requires
            d > 0,
    ;
    assert(a < 0 ==> a <= a / d < 0) by (nonlinear_arith)
        requires
            d > 0,
    ;
}

/// Division is monotone in the dividend.
pub proof fn lemma_div_monotone(a: int, b: int, d: int)
    requires
        d > 0,
        a <= b,
    ensures
        a / d <= b / d,
{
    vstd::arithmetic::div_mod::lemma_div_is_ordered(a, b, d);
}

/// A multiple of the divisor divides exactly.
pub proof fn lemma_div_exact(q: int, d: int)
    requires
        d > 0,
    ensures
        (q * d) / d == q,
        (q * d) % d == 0,
{
    vstd::arithmetic::div_mod::lemma_div_multiples_vanish(q, d);
    vstd::arithmetic::div_mod::lemma_mod_multiples_basic(q, d);
    assert(q * d == d * q) by (nonlinear_arith);
}

/// The fixed-point product of two numbers, rounded down.
pub open spec fn fmul(a: int, b: int) -> int {
    (a * b) / (ONE as int)
}

/// Scaling a non-negative number by a fraction between zero and one neither
/// grows it nor makes it negative.
pub proof fn lemma_fmul_unit(a: int, b: int)
    requires
        0 <= a <= ONE,
        0 <= b,
    ensures
        0 <= fmul(a, b) <= b,
        a == ONE ==> fmul(a, b) == b,
        a == 0 ==> fmul(a, b) == 0,
{
    assert(0 <= a * b <= b * ONE) by (nonlinear_arith)
        requires
            0 <= a <= ONE,
            0 <= b,
    ;
    lemma_div_exact(b, ONE as int);
    lemma_div_monotone(a * b, b * ONE, ONE as int);
    lemma_div_monotone(0, a * b, ONE as int);
    if a == ONE {
        assert(a * b == b * ONE) by (nonlinear_arith)
            requires
                a == ONE,
        ;
    }
    if a == 0 {
        assert(a * b == 0) by (nonlinear_arith)
            requires
                a == 0,
        ;
    }
}

/// The fixed-point product of two numbers, rounded down.
pub fn mul_fx(a: i64, b: i64) -> (p: i128)
    ensures
        p == fmul(a as int, b as int),
{
    div_floor(mul_wide(a, b), ONE as i128)
}

/// The exact product of two `i64`.
pub fn mul_wide(a: i64, b: i64) -> (p: i128)
    ensures
        p == a * b,
{
    proof {
        lemma_product_fits(a as int, b as int);
    }
    (a as i128) * (b as i128)
}

/// The floor of `a / d` for a positive `d`.
pub fn div_floor(a: i128, d: i128) -> (q: i128)
    requires
        d > 0,
    ensures
        q == a / d,
{
    proof {
        lemma_div_bounds(a as int, d as int);
    }
    a.checked_div_euclid(d).unwrap()
}

/// The least non-negative remainder of `a` by a positive `d`.
pub fn rem_floor(a: i128, d: i128) -> (r: i128)
    requires
        d > 0,
    ensures
        r == a % d,
        0 <= r < d,
{
    proof {
        vstd::arithmetic::div_mod::lemma_mod_bound(a as int, d as int);
    }
    a.checked_rem_euclid(d).unwrap()
}

} // verus!
