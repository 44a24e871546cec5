//! The basins of Newton's iteration for the roots of unity.
//!
//! The orbit of a seed may pass within a hair of zero and be thrown as far
//! out as the reciprocal of a high power of a small number, so the iteration
//! runs on complex numbers with a binary exponent: a pair of integer
//! mantissas and one exponent for both.

use vstd::prelude::*;
use crate::data::{NewtonApproxStatus, C};
use crate::draw_func_color::{polar_angle, polar_angle_at};
use crate::draw_func_mandelbrot::{black, dim};
use crate::draw_lib::{
    deg2rgb, deg2rgb_spec, keep_point, lemma_keep_bounds, rationalize_coord, RCOrigin,
    RCOverflow,
};
use crate::fixed::{
    div_floor, in_unit_square, lemma_div_bounds, lemma_div_exact, lemma_div_monotone, mul_wide,
    CF, CU, ONE,
};

verus! {

/// A complex number with an exponent: `(re, im, e)` stands for the number
/// `(re + i * im) * 2^e`.
pub type ZF = (int, int, int);

/// The bound of a mantissa: two to the power 61.
pub const TOP: i64 = 0x2000_0000_0000_0000;

/// The least magnitude of the larger mantissa of a number other than zero:
/// two to the power 60.
pub const HALF_TOP: i64 = 0x1000_0000_0000_0000;

/// The largest exponent, either way, that the format holds.
pub const EXP_MAX: i64 = 0x100_0000_0000;

/// The largest sum of the squares of the mantissas at which a step with
/// exponent -80 is no longer than a millionth: `2^160 / 10^12`, rounded
/// down.
pub const NEAR_80: i128 = 1461501637330902918203684832716283019;

/// The same for a step with exponent -81: `2^162 / 10^12`, rounded down.
pub const NEAR_81: i128 = 5846006549323611672814739330865132078;

/// The number is zero.
pub open spec fn is_zero(z: ZF) -> bool {
    z.0 == 0 && z.1 == 0
}

/// One of the mantissas is at least `t` in magnitude.
pub open spec fn reaches(z: ZF, t: int) -> bool {
    z.0 >= t || z.0 <= -t || z.1 >= t || z.1 <= -t
}

/// Both mantissas are within `t` in magnitude.
pub open spec fn within(z: ZF, t: int) -> bool {
    -t <= z.0 <= t && -t <= z.1 <= t
}

/// The number is in its normal form: zero with exponent zero, or with the
/// larger mantissa between `HALF_TOP` and `TOP` in magnitude.
pub open spec fn normal(z: ZF) -> bool {
    (is_zero(z) && z.2 == 0) || (reaches(z, HALF_TOP as int) && within(z, TOP as int))
}

/// The exponent is one that the format holds.
pub open spec fn in_format(z: ZF) -> bool {
    -EXP_MAX <= z.2 <= EXP_MAX
}

/// One step of bringing a large number down: where a mantissa reaches `t`,
/// both are divided by `f`, which is two to the power `k`, and rounded down.
pub open spec fn down(z: ZF, k: int, f: int, t: int) -> ZF {
    if reaches(z, t) {
        (z.0 / f, z.1 / f, z.2 + k)
    } else {
        z
    }
}

/// One step of bringing a small number up: where no mantissa reaches `t`,
/// both are multiplied by `f`, which is two to the power `k`.
pub open spec fn up(z: ZF, k: int, f: int, t: int) -> ZF {
    if reaches(z, t) {
        z
    } else {
        (z.0 * f, z.1 * f, z.2 - k)
    }
}

/// Mantissas of up to 124 bits brought within `TOP`, in six steps of 32,
/// 16, 8, 4, 2 and 1 bits.
pub open spec fn shrink(z: ZF) -> ZF {
    let a = down(z, 32, 0x1_0000_0000, 0x1000_0000_0000_0000_0000_0000);
    let b = down(a, 16, 0x1_0000, 0x1000_0000_0000_0000_0000);
    let c = down(b, 8, 0x100, 0x10_0000_0000_0000_0000);
    let d = down(c, 4, 0x10, 0x1_0000_0000_0000_0000);
    let e = down(d, 2, 4, 0x4000_0000_0000_0000);
    down(e, 1, 2, 0x2000_0000_0000_0000)
}

/// The larger mantissa of a number other than zero brought up to
/// `HALF_TOP`, in seven steps of 32, 16, 8, 4, 2, 1 and 1 bits.
pub open spec fn grow(z: ZF) -> ZF {
    let a = up(z, 32, 0x1_0000_0000, 0x1000_0000);
    let b = up(a, 16, 0x1_0000, 0x1000_0000_0000);
    let c = up(b, 8, 0x100, 0x10_0000_0000_0000);
    let d = up(c, 4, 0x10, 0x100_0000_0000_0000);
    let e = up(d, 2, 4, 0x400_0000_0000_0000);
    let f = up(e, 1, 2, 0x800_0000_0000_0000);
    up(f, 1, 2, 0x1000_0000_0000_0000)
}

/// The normal form of a number.
#[verifier::opaque]
pub open spec fn norm(z: ZF) -> ZF {
    if is_zero(z) {
        (0, 0, 0)
    } else {
        grow(shrink(z))
    }
}

/// A mantissa moved down by `d` bits, for `d` below 64: divided by two to
/// the power `d` and rounded down, in steps of 32, 16, 8, 4, 2 and 1 bits.
#[verifier::opaque]
pub open spec fn shr(m: int, d: int) -> int {
    let m5 = if d >= 32 { m / 0x1_0000_0000 } else { m };
    let d5 = if d >= 32 { d - 32 } else { d };
    let m4 = if d5 >= 16 { m5 / 0x1_0000 } else { m5 };
    let d4 = if d5 >= 16 { d5 - 16 } else { d5 };
    let m3 = if d4 >= 8 { m4 / 0x100 } else { m4 };
    let d3 = if d4 >= 8 { d4 - 8 } else { d4 };
    let m2 = if d3 >= 4 { m3 / 0x10 } else { m3 };
    let d2 = if d3 >= 4 { d3 - 4 } else { d3 };
    let m1 = if d2 >= 2 { m2 / 4 } else { m2 };
    let d1 = if d2 >= 2 { d2 - 2 } else { d2 };
    if d1 >= 1 { m1 / 2 } else { m1 }
}

/// The number one.
pub open spec fn zone() -> ZF {
    (HALF_TOP as int, 0, -60)
}

/// The fixed-point point `(x, y)` as a number with an exponent.
pub open spec fn from_fixed(x: int, y: int) -> ZF {
    norm(((x * HALF_TOP) / (ONE as int), (y * HALF_TOP) / (ONE as int), -60))
}

/// The negative of a number.
pub open spec fn zneg(a: ZF) -> ZF {
    (-a.0, -a.1, a.2)
}

/// The sum of two numbers in normal form. The number with the smaller
/// exponent is moved down to the exponent of the other; where the exponents
/// differ by 64 or more it no longer counts.
pub open spec fn zadd(a: ZF, b: ZF) -> ZF {
    let d = a.2 - b.2;
    if is_zero(b) {
        a
    } else if is_zero(a) {
        b
    } else if d >= 64 {
        a
    } else if d <= -64 {
        b
    } else if d >= 0 {
        norm((a.0 + shr(b.0, d), a.1 + shr(b.1, d), a.2))
    } else {
        norm((shr(a.0, -d) + b.0, shr(a.1, -d) + b.1, b.2))
    }
}

/// The product of two numbers.
pub open spec fn zmul(a: ZF, b: ZF) -> ZF {
    norm((a.0 * b.0 - a.1 * b.1, a.0 * b.1 + a.1 * b.0, a.2 + b.2))
}

/// The reciprocal of a number in normal form other than zero: the conjugate
/// over the square of the modulus, the square taken down by 60 bits and the
/// conjugate up by 62 before the division.
pub open spec fn zrecip(w: ZF) -> ZF {
    let m = (w.0 * w.0 + w.1 * w.1) / (HALF_TOP as int);
    norm(((w.0 * (4 * HALF_TOP)) / m, ((-w.1) * (4 * HALF_TOP)) / m, -w.2 - 122))
}

/// The power `z^k` by repeated multiplication, or `None` once a power has an
/// exponent that the format does not hold.
pub open spec fn zpow(z: ZF, k: nat) -> Option<ZF>
    decreases k,
{
    if k == 0 {
        Some(zone())
    } else {
        match zpow(z, (k - 1) as nat) {
            Some(w) => {
                let v = zmul(w, z);
                if in_format(v) {
                    Some(v)
                } else {
                    None
                }
            },
            None => None,
        }
    }
}

/// `-tau * v / p` for a fixed-point `tau`: each mantissa is the exact
/// quotient rounded down, then negated.
pub open spec fn damped(v: ZF, p: int, tau: int) -> ZF {
    norm((-((tau * v.0) / (ONE * p)), -((tau * v.1) / (ONE * p)), v.2))
}

/// The damped Newton step for the polynomial `z^p - 1`: `-tau * (z^p - 1) /
/// (p * z^(p-1))`, computed as `-tau / p * (z - 1 / z^(p-1))`. There is no
/// step where the power is zero, which it is at zero only, or where it is
/// beyond the format.
pub open spec fn newton_delta(z: ZF, p: nat, tau: int) -> Option<ZF> {
    match zpow(z, (p - 1) as nat) {
        None => None,
        Some(w) => if is_zero(w) {
            None
        } else {
            Some(damped(zadd(z, zneg(zrecip(w))), p as int, tau))
        },
    }
}

/// The step, in normal form, is no longer than a millionth.
pub open spec fn arrived(dz: ZF) -> bool {
    let sq = dz.0 * dz.0 + dz.1 * dz.1;
    is_zero(dz) || dz.2 <= -82 || (dz.2 == -81 && sq <= NEAR_81) || (dz.2 == -80 && sq <= NEAR_80)
}

/// Newton's iteration from `z`, with `n` steps already taken: the number of
/// steps taken and the point reached when a step first is short enough, or
/// `None` if the budget runs out first, a step is undefined, or the orbit
/// leaves the format.
pub open spec fn newton_run(z: ZF, nas: NewtonApproxStatus, n: nat) -> Option<(nat, ZF)>
    decreases nas.max - n,
{
    if n >= nas.max || !in_format(z) {
        None
    } else {
        match newton_delta(z, nas.p as nat, nas.tau as int) {
            None => None,
            Some(dz) => if arrived(dz) {
                Some((n, z))
            } else {
                newton_run(zadd(z, dz), nas, n + 1)
            },
        }
    }
}

/// The colour of a point that arrived after `n` steps at a root in direction
/// `angle`: the hue of the direction, darkened to three fifths and, when
/// speed is shown, darkened further by the share of the budget that was
/// used, so that arrival without a step adds nothing and arrival on the last
/// step is almost black.
pub open spec fn newton_color(angle: int, n: nat, nas: NewtonApproxStatus) -> C {
    let h = deg2rgb_spec(angle);
    if nas.speed {
        C::Float {
            r: ((dim(h.0) * (nas.max - n)) / (nas.max as int)) as i64,
            g: ((dim(h.1) * (nas.max - n)) / (nas.max as int)) as i64,
            b: ((dim(h.2) * (nas.max - n)) / (nas.max as int)) as i64,
            a: ONE,
        }
    } else {
        C::Float { r: dim(h.0) as i64, g: dim(h.1) as i64, b: dim(h.2) as i64, a: ONE }
    }
}

/// The seed of the iteration at a point of the canvas: the rationalised
/// point.
pub open spec fn newton_seed(c: CF, s: CU) -> ZF {
    let p = keep_point(c, s, (1u16, 1u16), RCOrigin::Center);
    from_fixed(p.0, p.1)
}

/// The colour of the Newton picture at the point `c` of a canvas of size `s`:
/// the hue of the direction of the point at which the seed arrives; black
/// where it does not arrive.
pub open spec fn newton_spec(c: CF, s: CU, nas: NewtonApproxStatus) -> C {
    match newton_run(newton_seed(c, s), nas, 0) {
        Some((n, z)) => newton_color(polar_angle(z.1, z.0), n, nas),
        None => black(),
    }
}

/// Once a power is beyond the format, so are all higher powers.
pub proof fn lemma_zpow_lost(z: ZF, k: nat, j: nat)
    requires
        zpow(z, k) is None,
        k <= j,
    ensures
        zpow(z, j) is None,
    decreases j,
{
    if j > k {
        lemma_zpow_lost(z, k, (j - 1) as nat);
    }
}

/// One is in normal form, and so are its square and its reciprocal once
/// they are brought down.
proof fn lemma_norm_one()
    ensures
        norm(zone()) == zone(),
        norm((0x1_0000_0000_0000_0000_0000_0000_0000_00int, 0int, -120int)) == zone(),
        norm((0x4000_0000_0000_0000int, 0int, -62int)) == zone(),
{
    reveal(norm);
    let one = zone();
    assert(shrink(one) == one);
    assert(grow(one) == one);
    let sq: ZF = (0x1_0000_0000_0000_0000_0000_0000_0000_00int, 0int, -120int);
    let a = down(sq, 32, 0x1_0000_0000, 0x1000_0000_0000_0000_0000_0000);
    assert(a == (0x100_0000_0000_0000_0000_0000int, 0int, -88int));
    let b = down(a, 16, 0x1_0000, 0x1000_0000_0000_0000_0000);
    assert(b == (0x100_0000_0000_0000_0000int, 0int, -72int));
    let c = down(b, 8, 0x100, 0x10_0000_0000_0000_0000);
    assert(c == (0x1_0000_0000_0000_0000int, 0int, -64int));
    let d = down(c, 4, 0x10, 0x1_0000_0000_0000_0000);
    assert(d == one);
    assert(shrink(sq) == one);
    let quad: ZF = (0x4000_0000_0000_0000int, 0int, -62int);
    assert(shrink(quad) == one);
}

/// One times one is one, and the reciprocal of one is one.
proof fn lemma_one_times_one()
    ensures
        zmul(zone(), zone()) == zone(),
        zrecip(zone()) == zone(),
{
    lemma_norm_one();
    let h: int = HALF_TOP as int;
    assert(h * h == 0x1_0000_0000_0000_0000_0000_0000_0000_00int) by (nonlinear_arith)
        requires
            h == 0x1000_0000_0000_0000,
    ;
    assert(h * 0 == 0 && 0 * h == 0 && 0 * 0 == 0) by (nonlinear_arith);
    lemma_div_exact(h, h);
    assert(h * (4 * h) == (4 * h) * h) by (nonlinear_arith);
    lemma_div_exact(4 * h, h);
    assert((-0int) * (4 * h) == 0) by (nonlinear_arith);
    assert(0int / h == 0);
}

/// One less one is zero.
proof fn lemma_one_less_one()
    ensures
        zadd(zone(), zneg(zone())) == (0int, 0int, 0int),
{
    reveal(norm);
    reveal(shr);
    assert(shr(-(HALF_TOP as int), 0) == -(HALF_TOP as int));
    assert(shr(0, 0) == 0);
}

/// A zero step stays zero when it is damped.
proof fn lemma_damped_zero()
    ensures
        damped((0int, 0int, 0int), 2, ONE as int) == (0int, 0int, 0int),
{
    reveal(norm);
    assert(ONE * 0 == 0) by (nonlinear_arith);
    assert(ONE * 2 > 0);
    assert(0int / (ONE * 2) == 0);
}

/// At one the Newton step for the square without damping is zero.
proof fn lemma_no_step_at_one()
    ensures
        newton_delta(zone(), 2, ONE as int) == Some((0int, 0int, 0int)),
{
    lemma_one_times_one();
    lemma_one_less_one();
    lemma_damped_zero();
    let one = zone();
    assert(zpow(one, 0) == Some(one));
    assert(zpow(one, 1) == Some(one)) by {
        reveal_with_fuel(zpow, 2);
    }
}

/// The seed one is a root of every `z^p - 1`: with the square and no damping
/// it arrives without a step, in direction zero.
pub proof fn lemma_newton_unit_seed(nas: NewtonApproxStatus)
    requires
        nas.p == 2,
        nas.tau == ONE,
        nas.max >= 1,
    ensures
        from_fixed(ONE as int, 0) == zone(),
        newton_run(zone(), nas, 0) == Some((0nat, zone())),
        polar_angle(zone().1, zone().0) == 0,
{
    lemma_norm_one();
    lemma_no_step_at_one();
    let h: int = HALF_TOP as int;
    lemma_div_exact(h, ONE as int);
    assert(ONE * h == h * ONE) by (nonlinear_arith);
    assert((0 * h) / (ONE as int) == 0) by (nonlinear_arith);
    assert(arrived((0int, 0int, 0int)));
    crate::draw_func_color::lemma_polar_range(0, h);
}

/// The point of the canvas whose seed is one arrives at once and has the hue
/// of direction zero.
pub proof fn lemma_newton_unit_color(c: CF, s: CU, nas: NewtonApproxStatus)
    requires
        nas.p == 2,
        nas.tau == ONE,
        nas.max >= 1,
        keep_point(c, s, (1u16, 1u16), RCOrigin::Center) == (ONE as int, 0int),
    ensures
        newton_spec(c, s, nas) == newton_color(0, 0, nas),
{
    lemma_newton_unit_seed(nas);
}

/// A machine number as a specification number.
pub open spec fn zf(z: (i64, i64, i64)) -> ZF {
    (z.0 as int, z.1 as int, z.2 as int)
}

/// The bound on the exponents that the arithmetic takes: far more than
/// the format holds, far less than the machine.
pub const EXP_WIDE: i64 = 0x4_0000_0000_0000;

/// The exponent is within `EXP_WIDE`.
pub open spec fn modest(e: int) -> bool {
    -EXP_WIDE <= e <= EXP_WIDE
}

/// The exponent `e` lies between `lo` and `hi`, give or take the 64 bits by
/// which a normal form moves an exponent.
pub open spec fn about(e: int, lo: int, hi: int) -> bool {
    lo - 64 <= e <= hi + 64
}

fn down_at(z: (i128, i128, i64), k: i64, f: i128, t: i128, lo: i128) -> (res: (i128, i128, i64))
    requires
        f >= 1,
        lo >= 1,
        t == lo * f,
        0 <= k <= 32,
        within((z.0 as int, z.1 as int, z.2 as int), t * f),
        -2 * EXP_WIDE <= z.2 <= 2 * EXP_WIDE,
    ensures
        (res.0 as int, res.1 as int, res.2 as int) == down(
            (z.0 as int, z.1 as int, z.2 as int),
            k as int,
            f as int,
            t as int,
        ),
        within((res.0 as int, res.1 as int, res.2 as int), t as int),
        reaches((z.0 as int, z.1 as int, z.2 as int), lo as int) ==> reaches(
            (res.0 as int, res.1 as int, res.2 as int),
            lo as int,
        ),
        z.2 <= res.2 <= z.2 + k,
{
    if z.0 >= t || z.0 <= -t || z.1 >= t || z.1 <= -t {
        proof {
            lemma_div_exact(t as int, f as int);
            lemma_div_exact(-(t as int), f as int);
            lemma_div_exact(lo as int, f as int);
            lemma_div_exact(-(lo as int), f as int);
            assert((-(t as int)) * f == -(t * f)) by (nonlinear_arith);
            assert((-(lo as int)) * f == -(lo * f)) by (nonlinear_arith);
            lemma_div_monotone(z.0 as int, t * f, f as int);
            lemma_div_monotone(-(t * f), z.0 as int, f as int);
            lemma_div_monotone(z.1 as int, t * f, f as int);
            lemma_div_monotone(-(t * f), z.1 as int, f as int);
            if z.0 >= t {
                lemma_div_monotone(lo * f, z.0 as int, f as int);
            }
            if z.0 <= -t {
                lemma_div_monotone(z.0 as int, -(lo * f), f as int);
            }
            if z.1 >= t {
                lemma_div_monotone(lo * f, z.1 as int, f as int);
            }
            if z.1 <= -t {
                lemma_div_monotone(z.1 as int, -(lo * f), f as int);
            }
        }
        (div_floor(z.0, f), div_floor(z.1, f), z.2 + k)
    } else {
        z
    }
}

fn up_at(z: (i128, i128, i64), k: i64, f: i128, t: i128, lo: i128) -> (res: (i128, i128, i64))
    requires
        f >= 1,
        lo >= 1,
        1 <= t <= lo * f,
        t * f <= TOP,
        0 <= k <= 32,
        reaches((z.0 as int, z.1 as int, z.2 as int), lo as int),
        within((z.0 as int, z.1 as int, z.2 as int), TOP as int),
        -2 * EXP_WIDE <= z.2 <= 2 * EXP_WIDE,
    ensures
        (res.0 as int, res.1 as int, res.2 as int) == up(
            (z.0 as int, z.1 as int, z.2 as int),
            k as int,
            f as int,
            t as int,
        ),
        within((res.0 as int, res.1 as int, res.2 as int), TOP as int),
        reaches((res.0 as int, res.1 as int, res.2 as int), t as int),
        z.2 - k <= res.2 <= z.2,
{
    if z.0 >= t || z.0 <= -t || z.1 >= t || z.1 <= -t {
        z
    } else {
        proof {
            assert(-(t * f) <= z.0 * f <= t * f) by (nonlinear_arith)
                requires
                    -t <= z.0 <= t,
                    f >= 1,
            ;
            assert(-(t * f) <= z.1 * f <= t * f) by (nonlinear_arith)
                requires
                    -t <= z.1 <= t,
                    f >= 1,
            ;
            assert(z.0 >= lo ==> z.0 * f >= lo * f) by (nonlinear_arith)
                requires
                    f >= 1,
            ;
            assert(z.0 <= -lo ==> z.0 * f <= -(lo * f)) by (nonlinear_arith)
                requires
                    f >= 1,
            ;
            assert(z.1 >= lo ==> z.1 * f >= lo * f) by (nonlinear_arith)
                requires
                    f >= 1,
            ;
            assert(z.1 <= -lo ==> z.1 * f <= -(lo * f)) by (nonlinear_arith)
                requires
                    f >= 1,
            ;
        }
        (z.0 * f, z.1 * f, z.2 - k)
    }
}

/// The normal form of a number with mantissas of up to 124 bits.
fn norm_at(re: i128, im: i128, e: i64) -> (res: (i64, i64, i64))
    requires
        within(
            (re as int, im as int, e as int),
            0x1000_0000_0000_0000_0000_0000_0000_0000,
        ),
        modest(e as int),
    ensures
        zf(res) == norm((re as int, im as int, e as int)),
        normal(zf(res)),
        is_zero(zf(res)) || about(res.2 as int, e as int, e as int),
{
    reveal(norm);
    if re == 0 && im == 0 {
        return (0, 0, 0);
    }
    let z: (i128, i128, i64) = (re, im, e);
    let a = down_at(z, 32, 0x1_0000_0000, 0x1000_0000_0000_0000_0000_0000, 0x1000_0000_0000_0000);
    let b = down_at(a, 16, 0x1_0000, 0x1000_0000_0000_0000_0000, 0x1000_0000_0000_0000);
    let c = down_at(b, 8, 0x100, 0x10_0000_0000_0000_0000, 0x1000_0000_0000_0000);
    let d = down_at(c, 4, 0x10, 0x1_0000_0000_0000_0000, 0x1000_0000_0000_0000);
    let g = down_at(d, 2, 4, 0x4000_0000_0000_0000, 0x1000_0000_0000_0000);
    let h = down_at(g, 1, 2, 0x2000_0000_0000_0000, 0x1000_0000_0000_0000);
    proof {
        let zs = (re as int, im as int, e as int);
        assert(reaches(zs, 1));
        assert(reaches((h.0 as int, h.1 as int, h.2 as int), 1)) by {
            lemma_down_keeps_nonzero(zs, 32, 0x1_0000_0000, 0x1000_0000_0000_0000_0000_0000);
            lemma_down_keeps_nonzero(
                (a.0 as int, a.1 as int, a.2 as int),
                16,
                0x1_0000,
                0x1000_0000_0000_0000_0000,
            );
            lemma_down_keeps_nonzero(
                (b.0 as int, b.1 as int, b.2 as int),
                8,
                0x100,
                0x10_0000_0000_0000_0000,
            );
            lemma_down_keeps_nonzero(
                (c.0 as int, c.1 as int, c.2 as int),
                4,
                0x10,
                0x1_0000_0000_0000_0000,
            );
            lemma_down_keeps_nonzero(
                (d.0 as int, d.1 as int, d.2 as int),
                2,
                4,
                0x4000_0000_0000_0000,
            );
            lemma_down_keeps_nonzero(
                (g.0 as int, g.1 as int, g.2 as int),
                1,
                2,
                0x2000_0000_0000_0000,
            );
        }
    }
    let i = up_at(h, 32, 0x1_0000_0000, 0x1000_0000, 1);
    let j = up_at(i, 16, 0x1_0000, 0x1000_0000_0000, 0x1000_0000);
    let l = up_at(j, 8, 0x100, 0x10_0000_0000_0000, 0x1000_0000_0000);
    let m = up_at(l, 4, 0x10, 0x100_0000_0000_0000, 0x10_0000_0000_0000);
    let n = up_at(m, 2, 4, 0x400_0000_0000_0000, 0x100_0000_0000_0000);
    let o = up_at(n, 1, 2, 0x800_0000_0000_0000, 0x400_0000_0000_0000);
    let q = up_at(o, 1, 2, 0x1000_0000_0000_0000, 0x800_0000_0000_0000);
    (q.0 as i64, q.1 as i64, q.2)
}

/// Bringing a number down leaves a number other than zero other than zero.
proof fn lemma_down_keeps_nonzero(z: ZF, k: int, f: int, t: int)
    requires
        reaches(z, 1),
        f >= 1,
        t >= f,
    ensures
        reaches(down(z, k, f, t), 1),
{
    if reaches(z, t) {
        lemma_div_exact(1, f);
        lemma_div_exact(-1, f);
        if z.0 >= t {
            lemma_div_monotone(1 * f, z.0, f);
        }
        if z.0 <= -t {
            lemma_div_monotone(z.0, (-1) * f, f);
        }
        if z.1 >= t {
            lemma_div_monotone(1 * f, z.1, f);
        }
        if z.1 <= -t {
            lemma_div_monotone(z.1, (-1) * f, f);
        }
    }
}

/// A mantissa moved down by `d` bits.
fn shr_at(m: i64, d: i64) -> (res: i64)
    requires
        0 <= d < 64,
        -TOP <= m <= TOP,
    ensures
        res == shr(m as int, d as int),
        -TOP <= res <= TOP,
{
    reveal(shr);
    let m5: i128 = if d >= 32 { div_floor(m as i128, 0x1_0000_0000) } else { m as i128 };
    let d5: i64 = if d >= 32 { d - 32 } else { d };
    let m4: i128 = if d5 >= 16 { div_floor(m5, 0x1_0000) } else { m5 };
    let d4: i64 = if d5 >= 16 { d5 - 16 } else { d5 };
    let m3: i128 = if d4 >= 8 { div_floor(m4, 0x100) } else { m4 };
    let d3: i64 = if d4 >= 8 { d4 - 8 } else { d4 };
    let m2: i128 = if d3 >= 4 { div_floor(m3, 0x10) } else { m3 };
    let d2: i64 = if d3 >= 4 { d3 - 4 } else { d3 };
    let m1: i128 = if d2 >= 2 { div_floor(m2, 4) } else { m2 };
    let d1: i64 = if d2 >= 2 { d2 - 2 } else { d2 };
    let m0: i128 = if d1 >= 1 { div_floor(m1, 2) } else { m1 };
    m0 as i64
}

/// The fixed-point point `(x, y)` as a number with an exponent.
fn from_fixed_at(x: i64, y: i64) -> (res: (i64, i64, i64))
    requires
        -0x4000_0000_0000_0000 <= x <= 0x4000_0000_0000_0000,
        -0x4000_0000_0000_0000 <= y <= 0x4000_0000_0000_0000,
    ensures
        zf(res) == from_fixed(x as int, y as int),
        normal(zf(res)),
        about(res.2 as int, -60, 0),
{
    proof {
        lemma_wide_product(x as int, HALF_TOP as int);
        lemma_wide_product(y as int, HALF_TOP as int);
        lemma_div_bounds(x * HALF_TOP, ONE as int);
        lemma_div_bounds(y * HALF_TOP, ONE as int);
    }
    norm_at(
        div_floor(mul_wide(x, HALF_TOP), ONE as i128),
        div_floor(mul_wide(y, HALF_TOP), ONE as i128),
        -60,
    )
}

/// The product of two numbers that fit in 63 bits fits in 124.
proof fn lemma_wide_product(a: int, b: int)
    requires
        -0x4000_0000_0000_0000 <= a <= 0x4000_0000_0000_0000,
        -0x4000_0000_0000_0000 <= b <= 0x4000_0000_0000_0000,
    ensures
        -0x1000_0000_0000_0000_0000_0000_0000_0000 <= a * b
            <= 0x1000_0000_0000_0000_0000_0000_0000_0000,
{
    assert(-0x1000_0000_0000_0000_0000_0000_0000_0000 <= a * b
        <= 0x1000_0000_0000_0000_0000_0000_0000_0000) by (nonlinear_arith)
        requires
            -0x4000_0000_0000_0000 <= a <= 0x4000_0000_0000_0000,
            -0x4000_0000_0000_0000 <= b <= 0x4000_0000_0000_0000,
    ;
}

/// The product of two mantissas within `TOP` fits in 122 bits.
proof fn lemma_part_product(a: int, b: int)
    requires
        -TOP <= a <= TOP,
        -TOP <= b <= TOP,
    ensures
        -0x400_0000_0000_0000_0000_0000_0000_0000 <= a * b
            <= 0x400_0000_0000_0000_0000_0000_0000_0000,
{
    assert(-0x400_0000_0000_0000_0000_0000_0000_0000 <= a * b
        <= 0x400_0000_0000_0000_0000_0000_0000_0000) by (nonlinear_arith)
        requires
            -0x2000_0000_0000_0000 <= a <= 0x2000_0000_0000_0000,
            -0x2000_0000_0000_0000 <= b <= 0x2000_0000_0000_0000,
    ;
}

/// The sum of two numbers in normal form.
fn zadd_at(a: (i64, i64, i64), b: (i64, i64, i64)) -> (res: (i64, i64, i64))
    requires
        normal(zf(a)),
        normal(zf(b)),
        modest(a.2 as int),
        modest(b.2 as int),
    ensures
        zf(res) == zadd(zf(a), zf(b)),
        normal(zf(res)),
        is_zero(zf(res)) || about(
            res.2 as int,
            if a.2 < b.2 { a.2 as int } else { b.2 as int },
            if a.2 < b.2 { b.2 as int } else { a.2 as int },
        ),
{
    if b.0 == 0 && b.1 == 0 {
        return a;
    }
    if a.0 == 0 && a.1 == 0 {
        return b;
    }
    let d: i64 = a.2 - b.2;
    if d >= 64 {
        a
    } else if d <= -64 {
        b
    } else if d >= 0 {
        norm_at(
            (a.0 as i128) + (shr_at(b.0, d) as i128),
            (a.1 as i128) + (shr_at(b.1, d) as i128),
            a.2,
        )
    } else {
        norm_at(
            (shr_at(a.0, -d) as i128) + (b.0 as i128),
            (shr_at(a.1, -d) as i128) + (b.1 as i128),
            b.2,
        )
    }
}

/// The product of two numbers in normal form.
fn zmul_at(a: (i64, i64, i64), b: (i64, i64, i64)) -> (res: (i64, i64, i64))
    requires
        normal(zf(a)),
        normal(zf(b)),
        in_format(zf(a)),
        in_format(zf(b)),
    ensures
        zf(res) == zmul(zf(a), zf(b)),
        normal(zf(res)),
        about(res.2 as int, -2 * EXP_MAX, 2 * EXP_MAX),
{
    proof {
        lemma_part_product(a.0 as int, b.0 as int);
        lemma_part_product(a.1 as int, b.1 as int);
        lemma_part_product(a.0 as int, b.1 as int);
        lemma_part_product(a.1 as int, b.0 as int);
    }
    norm_at(
        mul_wide(a.0, b.0) - mul_wide(a.1, b.1),
        mul_wide(a.0, b.1) + mul_wide(a.1, b.0),
        a.2 + b.2,
    )
}

/// The square of the modulus of a number in normal form other than zero,
/// taken down by 60 bits, is at least `HALF_TOP`.
proof fn lemma_modulus(w: ZF)
    requires
        normal(w),
        !is_zero(w),
    ensures
        0 <= w.0 * w.0 <= 0x400_0000_0000_0000_0000_0000_0000_0000,
        0 <= w.1 * w.1 <= 0x400_0000_0000_0000_0000_0000_0000_0000,
        (w.0 * w.0 + w.1 * w.1) / (HALF_TOP as int) >= HALF_TOP,
{
    lemma_part_product(w.0, w.0);
    lemma_part_product(w.1, w.1);
    assert(w.0 * w.0 >= 0 && w.1 * w.1 >= 0) by (nonlinear_arith);
    assert(w.0 >= HALF_TOP || w.0 <= -HALF_TOP ==> w.0 * w.0 >= HALF_TOP * HALF_TOP)
        by (nonlinear_arith);
    assert(w.1 >= HALF_TOP || w.1 <= -HALF_TOP ==> w.1 * w.1 >= HALF_TOP * HALF_TOP)
        by (nonlinear_arith);
    lemma_div_exact(HALF_TOP as int, HALF_TOP as int);
    lemma_div_monotone(HALF_TOP * HALF_TOP, w.0 * w.0 + w.1 * w.1, HALF_TOP as int);
}

/// The reciprocal of a number in normal form other than zero.
fn zrecip_at(w: (i64, i64, i64)) -> (res: (i64, i64, i64))
    requires
        normal(zf(w)),
        !is_zero(zf(w)),
        in_format(zf(w)),
    ensures
        zf(res) == zrecip(zf(w)),
        normal(zf(res)),
        about(res.2 as int, -EXP_MAX - 122, EXP_MAX as int),
{
    proof {
        lemma_modulus(zf(w));
        lemma_wide_product(w.0 as int, 4 * HALF_TOP);
        lemma_wide_product(-w.1 as int, 4 * HALF_TOP);
    }
    let m: i128 = div_floor(mul_wide(w.0, w.0) + mul_wide(w.1, w.1), HALF_TOP as i128);
    proof {
        lemma_div_bounds(w.0 * (4 * HALF_TOP), m as int);
        lemma_div_bounds((-w.1) * (4 * HALF_TOP), m as int);
    }
    norm_at(
        div_floor(mul_wide(w.0, 4 * HALF_TOP), m),
        div_floor(mul_wide(-w.1, 4 * HALF_TOP), m),
        -w.2 - 122,
    )
}

/// The power `z^k`, or `None` once a power is beyond the format.
fn zpow_at(z: (i64, i64, i64), k: usize) -> (res: Option<(i64, i64, i64)>)
    requires
        normal(zf(z)),
        in_format(zf(z)),
    ensures
        match res {
            Some(w) => zpow(zf(z), k as nat) == Some(zf(w)) && normal(zf(w)) && in_format(zf(w)),
            None => zpow(zf(z), k as nat) is None,
        },
{
    let mut w: (i64, i64, i64) = (HALF_TOP, 0, -60);
    let mut i: usize = 0;
    while i < k
        invariant
            i <= k,
            normal(zf(z)),
            in_format(zf(z)),
            normal(zf(w)),
            in_format(zf(w)),
            zpow(zf(z), i as nat) == Some(zf(w)),
        decreases k - i,
    {
        let v: (i64, i64, i64) = zmul_at(w, z);
        if v.2 < -EXP_MAX || v.2 > EXP_MAX {
            proof {
                assert(zpow(zf(z), (i + 1) as nat) is None);
                lemma_zpow_lost(zf(z), (i + 1) as nat, k as nat);
            }
            return None;
        }
        w = v;
        i = i + 1;
    }
    Some(w)
}

/// `-tau * v / p` for a number in normal form.
fn damped_at(v: (i64, i64, i64), p: usize, tau: i64) -> (res: (i64, i64, i64))
    requires
        p >= 1,
        normal(zf(v)),
        modest(v.2 as int),
    ensures
        zf(res) == damped(zf(v), p as int, tau as int),
        normal(zf(res)),
        is_zero(zf(res)) || about(res.2 as int, v.2 as int, v.2 as int),
{
    proof {
        lemma_scaled_product(tau as int, v.0 as int);
        lemma_scaled_product(tau as int, v.1 as int);
        assert(0 < ONE * p <= ONE * 0x1_0000_0000_0000_0000) by (nonlinear_arith)
            requires
                1 <= p <= 0x1_0000_0000_0000_0000,
        ;
        lemma_div_bounds(tau * v.0, ONE * p);
        lemma_div_bounds(tau * v.1, ONE * p);
    }
    let d: i128 = (ONE as i128) * (p as i128);
    norm_at(-div_floor(mul_wide(tau, v.0), d), -div_floor(mul_wide(tau, v.1), d), v.2)
}

/// The product of a 64-bit number and a mantissa fits in 124 bits.
proof fn lemma_scaled_product(a: int, b: int)
    requires
        i64::MIN <= a <= i64::MAX,
        -TOP <= b <= TOP,
    ensures
        -0x1000_0000_0000_0000_0000_0000_0000_0000 <= a * b
            <= 0x1000_0000_0000_0000_0000_0000_0000_0000,
{
    assert(-0x1000_0000_0000_0000_0000_0000_0000_0000 <= a * b
        <= 0x1000_0000_0000_0000_0000_0000_0000_0000) by (nonlinear_arith)
        requires
            -0x8000_0000_0000_0000 <= a <= 0x8000_0000_0000_0000,
            -0x2000_0000_0000_0000 <= b <= 0x2000_0000_0000_0000,
    ;
}

/// The damped Newton step at `z`.
fn newton_delta_at(z: (i64, i64, i64), p: usize, tau: i64) -> (res: Option<(i64, i64, i64)>)
    requires
        normal(zf(z)),
        in_format(zf(z)),
        p >= 2,
    ensures
        match res {
            Some(dz) => newton_delta(zf(z), p as nat, tau as int) == Some(zf(dz)) && normal(
                zf(dz),
            ) && about(dz.2 as int, -EXP_MAX - 400, EXP_MAX + 400),
            None => newton_delta(zf(z), p as nat, tau as int) is None,
        },
{
    match zpow_at(z, p - 1) {
        None => None,
        Some(w) => {
            if w.0 == 0 && w.1 == 0 {
                None
            } else {
                let r: (i64, i64, i64) = zrecip_at(w);
                let back: (i64, i64, i64) = (-r.0, -r.1, r.2);
                let diff: (i64, i64, i64) = zadd_at(z, back);
                Some(damped_at(diff, p, tau))
            }
        },
    }
}

/// The step is no longer than a millionth.
fn arrived_at(dz: (i64, i64, i64)) -> (res: bool)
    requires
        normal(zf(dz)),
    ensures
        res == arrived(zf(dz)),
{
    proof {
        lemma_part_product(dz.0 as int, dz.0 as int);
        lemma_part_product(dz.1 as int, dz.1 as int);
    }
    let sq: i128 = mul_wide(dz.0, dz.0) + mul_wide(dz.1, dz.1);
    (dz.0 == 0 && dz.1 == 0) || dz.2 <= -82 || (dz.2 == -81 && sq <= NEAR_81) || (dz.2 == -80
        && sq <= NEAR_80)
}

/// One channel of a hue, darkened by the share of the budget used.
fn slowed(h: i64, n: usize, max: usize) -> (res: i64)
    requires
        0 <= h <= ONE,
        n < max,
    ensures
        res == (h * (max - n)) / (max as int),
        0 <= res <= ONE,
{
    proof {
        assert(0 <= h * (max - n) <= ONE * max) by (nonlinear_arith)
            requires
                0 <= h <= ONE,
                0 < max - n <= max,
        ;
        assert(ONE * max <= ONE * 0x1_0000_0000_0000_0000) by (nonlinear_arith)
            requires
                max <= 0x1_0000_0000_0000_0000,
        ;
        lemma_div_exact(ONE as int, max as int);
        lemma_div_monotone(h * (max - n), ONE * max, max as int);
        lemma_div_monotone(0, h * (max - n), max as int);
    }
    div_floor((h as i128) * ((max - n) as i128), max as i128) as i64
}

/// The colour of a point that arrived after `n` steps in direction `angle`.
pub fn newton_color_at(angle: i64, n: usize, nas: &NewtonApproxStatus) -> (res: C)
    requires
        n < nas.max,
    ensures
        res == newton_color(angle as int, n as nat, *nas),
        res.in_range(),
        res.continuous(),
{
    let h: (i64, i64, i64) = deg2rgb(angle);
    if nas.speed {
        C::Float {
            r: slowed((3 * h.0) / 5, n, nas.max),
            g: slowed((3 * h.1) / 5, n, nas.max),
            b: slowed((3 * h.2) / 5, n, nas.max),
            a: ONE,
        }
    } else {
        C::Float { r: (3 * h.0) / 5, g: (3 * h.1) / 5, b: (3 * h.2) / 5, a: ONE }
    }
}

/// The colour of the Newton picture at the point `c` of a canvas of size `s`.
pub fn newton_fragment(c: &CF, s: &CU, nas: &NewtonApproxStatus) -> (res: C)
    requires
        in_unit_square(*c),
        s.0 >= 1,
        s.1 >= 1,
        nas.wf(),
    ensures
        res == newton_spec(*c, *s, *nas),
        res.in_range(),
        res.continuous(),
{
    proof {
        lemma_keep_bounds(*c, *s, (1u16, 1u16), RCOrigin::Center);
    }
    let p: CF = rationalize_coord(c, s, (1, 1), RCOverflow::Keep, RCOrigin::Center).unwrap();
    let mut z: (i64, i64, i64) = from_fixed_at(p.0, p.1);
    let ghost seed: ZF = zf(z);
    let mut n: usize = 0;
    while n < nas.max
        invariant
            n <= nas.max,
            nas.wf(),
            seed == newton_seed(*c, *s),
            normal(zf(z)),
            about(z.2 as int, -EXP_MAX - 600, EXP_MAX + 600),
            newton_run(seed, *nas, 0) == newton_run(zf(z), *nas, n as nat),
        decreases nas.max - n,
    {
        if z.2 < -EXP_MAX || z.2 > EXP_MAX {
            return C::GFloat { v: 0, a: ONE };
        }
        match newton_delta_at(z, nas.p, nas.tau) {
            None => {
                return C::GFloat { v: 0, a: ONE };
            },
            Some(dz) => {
                if arrived_at(dz) {
                    return newton_color_at(polar_angle_at(z.1, z.0), n, nas);
                }
                z = zadd_at(z, dz);
                n = n + 1;
            },
        }
    }
    C::GFloat { v: 0, a: ONE }
}

} // verus!
