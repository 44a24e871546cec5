//! The hue pictures: the colour wheels and the charts of hue against
//! lightness, with the pointer handling that turns and shifts them.

use vstd::prelude::*;
use crate::data::{CSMode, ColorStatus, C};
use crate::draw_lib::{
    deg2rgb, deg2rgb_spec, keep_point, lemma_keep_bounds, rationalize_coord,
    RCOrigin, RCOverflow, PF,
};
use crate::fixed::{
    div_floor, fmul, in_unit_square, lemma_div_exact, lemma_div_monotone,
    lemma_fmul_unit, mul_fx, mul_wide, rem_floor, CF, CU, ONE, ONE_SQUARED, TURN,
};

verus! {

/// Forty-five degrees, in fixed point.
pub const EIGHTH_TURN: i64 = 45_360_000_000;

/// The three coefficients, in fixed-point degrees, of the correction that
/// bends the chord of the arctangent into the curve.
pub const BEND_0: i64 = 12_563_712_000;

pub const BEND_1: i64 = 11_600_064_000;

pub const BEND_2: i64 = 7_929_936_000;

/// The angle, in fixed-point degrees, whose tangent is `t / ONE`, for a
/// tangent between zero and one: the chord `45 t` plus a correction
/// `t (1 - t) (12.464 + 11.508 t - 7.867 t^2)` that vanishes at both ends.
/// The quartic is fitted to the arctangent; sampled over the octant it stays
/// within a hundredth of a degree of it, which nothing here proves.
pub open spec fn octant_angle(t: int) -> int {
    let w = fmul(t, ONE - t);
    let q = BEND_0 + fmul(t, BEND_1 - fmul(t, BEND_2 as int));
    45 * t + fmul(w, q)
}

/// The direction of the point `(x, y)` in fixed-point degrees, counted
/// anticlockwise from the positive horizontal axis, between minus and plus
/// half a turn. The origin has direction zero.
pub open spec fn polar_angle(y: int, x: int) -> int {
    let ax = if x < 0 { -x } else { x };
    let ay = if y < 0 { -y } else { y };
    let base = if ax == 0 && ay == 0 {
        0
    } else if ay <= ax {
        octant_angle((ay * ONE) / ax)
    } else {
        2 * EIGHTH_TURN - octant_angle((ax * ONE) / ay)
    };
    if x >= 0 {
        if y >= 0 { base } else { -base }
    } else {
        if y >= 0 { 4 * EIGHTH_TURN - base } else { base - 4 * EIGHTH_TURN }
    }
}

/// The angle of an octant lies between zero and forty-five degrees, and is
/// exact at both ends.
pub proof fn lemma_octant_range(t: int)
    requires
        0 <= t <= ONE,
    ensures
        0 <= octant_angle(t) <= EIGHTH_TURN,
        octant_angle(0) == 0,
        octant_angle(ONE as int) == EIGHTH_TURN,
{
    let s = ONE - t;
    let w = fmul(t, s);
    lemma_fmul_unit(t, s);
    lemma_fmul_unit(t, BEND_2 as int);
    let inner = BEND_1 - fmul(t, BEND_2 as int);
    lemma_fmul_unit(t, inner);
    let q = BEND_0 + fmul(t, inner);
    assert(0 <= q <= 24 * ONE);
    assert(0 <= w * q <= w * (24 * ONE)) by (nonlinear_arith)
        requires
            0 <= w,
            0 <= q <= 24 * ONE,
    ;
    assert(w * (24 * ONE) == (24 * w) * ONE) by (nonlinear_arith);
    lemma_div_exact(24 * w, ONE as int);
    lemma_div_monotone(w * q, (24 * w) * ONE, ONE as int);
    lemma_div_monotone(0, w * q, ONE as int);
    lemma_fmul_unit(0, ONE as int);
    lemma_fmul_unit(ONE as int, 0);
    lemma_fmul_unit(0, BEND_2 as int);
    lemma_fmul_unit(0, BEND_1 as int);
    lemma_fmul_unit(ONE as int, BEND_2 as int);
    lemma_fmul_unit(ONE as int, BEND_1 - BEND_2);
    assert(fmul(0, (BEND_0 + fmul(0, BEND_1 - fmul(0, BEND_2 as int)))) == 0) by {
        assert(0 * (BEND_0 + fmul(0, BEND_1 - fmul(0, BEND_2 as int))) == 0);
    }
    assert(fmul(0, (BEND_0 + fmul(ONE as int, BEND_1 - fmul(ONE as int, BEND_2 as int)))) == 0)
        by {
        assert(0 * (BEND_0 + fmul(ONE as int, BEND_1 - fmul(ONE as int, BEND_2 as int))) == 0);
    }
}

/// A direction lies within half a turn of zero; the positive horizontal axis
/// has direction zero, the positive vertical axis a quarter turn, and the
/// negative horizontal axis half a turn.
pub proof fn lemma_polar_range(y: int, x: int)
    ensures
        -4 * EIGHTH_TURN <= polar_angle(y, x) <= 4 * EIGHTH_TURN,
        x > 0 ==> polar_angle(0, x) == 0,
        y > 0 ==> polar_angle(y, 0) == 2 * EIGHTH_TURN,
        x < 0 ==> polar_angle(0, x) == 4 * EIGHTH_TURN,
        y < 0 ==> polar_angle(y, 0) == -2 * EIGHTH_TURN,
{
    let ax = if x < 0 { -x } else { x };
    let ay = if y < 0 { -y } else { y };
    lemma_octant_range(0);
    if ax == 0 && ay == 0 {
    } else if ay <= ax {
        lemma_ratio_unit(ay, ax);
        lemma_octant_range((ay * ONE) / ax);
    } else {
        lemma_ratio_unit(ax, ay);
        lemma_octant_range((ax * ONE) / ay);
    }
    if x != 0 {
        assert((0 * ONE) / ax == 0) by (nonlinear_arith)
            requires
                ax > 0,
        ;
    }
    if y != 0 {
        assert((0 * ONE) / ay == 0) by (nonlinear_arith)
            requires
                ay > 0,
        ;
    }
}

/// The ratio of a smaller to a larger non-negative number is a fraction
/// between zero and one.
pub proof fn lemma_ratio_unit(a: int, b: int)
    requires
        0 <= a <= b,
        b > 0,
    ensures
        0 <= (a * ONE) / b <= ONE,
{
    assert(0 <= a * ONE <= ONE * b) by (nonlinear_arith)
        requires
            0 <= a <= b,
    ;
    lemma_div_exact(ONE as int, b);
    lemma_div_monotone(a * ONE, ONE * b, b);
    lemma_div_monotone(0, a * ONE, b);
}

/// The angle whose tangent is `t / ONE`, for a tangent from zero to one.
fn octant_angle_at(t: i64) -> (res: i64)
    requires
        0 <= t <= ONE,
    ensures
        res == octant_angle(t as int),
        0 <= res <= EIGHTH_TURN,
{
    proof {
        lemma_octant_range(t as int);
        lemma_fmul_unit(t as int, ONE - t);
        lemma_fmul_unit(t as int, BEND_2 as int);
        lemma_fmul_unit(t as int, BEND_1 - fmul(t as int, BEND_2 as int));
    }
    let w: i64 = mul_fx(t, ONE - t) as i64;
    let inner: i64 = BEND_1 - (mul_fx(t, BEND_2) as i64);
    let q: i64 = BEND_0 + (mul_fx(t, inner) as i64);
    let bend: i128 = mul_fx(w, q);
    (45 * (t as i128) + bend) as i64
}

/// The direction of the point `(x, y)` in fixed-point degrees.
pub fn polar_angle_at(y: i64, x: i64) -> (res: i64)
    ensures
        res == polar_angle(y as int, x as int),
        -4 * EIGHTH_TURN <= res <= 4 * EIGHTH_TURN,
{
    proof {
        lemma_polar_range(y as int, x as int);
    }
    let ax: i128 = if x < 0 { -(x as i128) } else { x as i128 };
    let ay: i128 = if y < 0 { -(y as i128) } else { y as i128 };
    let base: i64 = if ax == 0 && ay == 0 {
        0
    } else if ay <= ax {
        proof {
            lemma_ratio_unit(ay as int, ax as int);
        }
        octant_angle_at(div_floor(ay * (ONE as i128), ax) as i64)
    } else {
        proof {
            lemma_ratio_unit(ax as int, ay as int);
        }
        2 * EIGHTH_TURN - octant_angle_at(div_floor(ax * (ONE as i128), ay) as i64)
    };
    if x >= 0 {
        if y >= 0 { base } else { -base }
    } else {
        if y >= 0 { 4 * EIGHTH_TURN - base } else { base - 4 * EIGHTH_TURN }
    }
}

/// `r` is the integer square root of `n`: the largest number whose square
/// does not exceed `n`.
pub open spec fn is_sqrt(n: int, r: int) -> bool {
    0 <= r && r * r <= n < (r + 1) * (r + 1)
}

/// The integer square root of a non-negative number.
pub open spec fn isqrt(n: int) -> int {
    choose|r: int| is_sqrt(n, r)
}

/// A number has at most one integer square root.
pub proof fn lemma_sqrt_unique(n: int, r1: int, r2: int)
    requires
        is_sqrt(n, r1),
        is_sqrt(n, r2),
    ensures
        r1 == r2,
{
    assert(r1 == r2) by (nonlinear_arith)
        requires
            0 <= r1,
            0 <= r2,
            r1 * r1 <= n < (r1 + 1) * (r1 + 1),
            r2 * r2 <= n < (r2 + 1) * (r2 + 1),
    ;
}

/// The integer square root of a number below `ONE` squared, by bisection.
pub fn isqrt_at(n: u64) -> (r: u64)
    requires
        n < ONE_SQUARED,
    ensures
        r == isqrt(n as int),
        is_sqrt(n as int, r as int),
        r < ONE,
{
    let mut lo: u64 = 0;
    let mut hi: u64 = ONE as u64;
    assert(0 * 0 == 0) by (nonlinear_arith);
    while hi - lo > 1
        invariant
            0 <= lo < hi <= ONE,
            lo * lo <= n < hi * hi,
        decreases hi - lo,
    {
        let mid: u64 = lo + (hi - lo) / 2;
        assert(mid * mid <= ONE * ONE) by (nonlinear_arith)
            requires
                0 <= mid <= ONE,
        ;
        if mid * mid <= n {
            lo = mid;
        } else {
            hi = mid;
        }
    }
    proof {
        assert(is_sqrt(n as int, lo as int));
        let r = isqrt(n as int);
        lemma_sqrt_unique(n as int, lo as int, r);
    }
    lo
}

/// Opaque white.
pub open spec fn white() -> C {
    C::Float { r: ONE, g: ONE, b: ONE, a: ONE }
}

/// One channel of a hue blended towards white: at `d == 0` white, at
/// `d == ONE` the pure hue.
pub open spec fn tint(d: int, h: int) -> int {
    ONE - fmul(d, ONE - h)
}

/// The wheel centred on the canvas: every direction from the centre has its
/// hue, turned back by the rotation of the picture. The plain wheel is fully
/// saturated everywhere; the white-centred wheel fades from white at the
/// centre to the pure hue at radius one and beyond. The centre itself is
/// white in both.
pub open spec fn hue_spec(c: CF, s: CU, cs: ColorStatus) -> C {
    let p = keep_point(c, s, (1u16, 1u16), RCOrigin::Center);
    let h = deg2rgb_spec(polar_angle(p.1, p.0) - cs.angle);
    let rr = p.0 * p.0 + p.1 * p.1;
    if rr == 0 {
        white()
    } else {
        match cs.mode {
            CSMode::ConicW => {
                let d = if rr >= ONE_SQUARED { ONE as int } else { isqrt(rr) };
                C::Float {
                    r: tint(d, h.0) as i64,
                    g: tint(d, h.1) as i64,
                    b: tint(d, h.2) as i64,
                    a: ONE,
                }
            },
            CSMode::Conic => C::Float { r: h.0 as i64, g: h.1 as i64, b: h.2 as i64, a: ONE },
            _ => C::Unset,
        }
    }
}

/// The hue at `x` across and the lightness at `y` down: the hue runs once
/// through the wheel from left to right, shifted by the offset of the
/// picture. In the `BVW` picture the top edge is white, the middle line the
/// pure hue and the bottom edge black; in the `BV` picture the top edge is
/// the pure hue and the bottom edge black.
pub open spec fn bvw_spec(c: CF, cs: ColorStatus) -> C {
    let h = deg2rgb_spec(360 * c.0 + cs.angle);
    match cs.mode {
        CSMode::BVW => if 2 * c.1 < ONE {
            C::Float {
                r: tint(2 * c.1, h.0) as i64,
                g: tint(2 * c.1, h.1) as i64,
                b: tint(2 * c.1, h.2) as i64,
                a: ONE,
            }
        } else {
            C::Float {
                r: fmul(2 * (ONE - c.1), h.0) as i64,
                g: fmul(2 * (ONE - c.1), h.1) as i64,
                b: fmul(2 * (ONE - c.1), h.2) as i64,
                a: ONE,
            }
        },
        CSMode::BV => C::Float {
            r: fmul(ONE - c.1, h.0) as i64,
            g: fmul(ONE - c.1, h.1) as i64,
            b: fmul(ONE - c.1, h.2) as i64,
            a: ONE,
        },
        _ => C::Unset,
    }
}

/// The chart from white to black has no seam at the middle line: there the
/// blend towards white and the blend towards black both give the pure hue.
pub proof fn lemma_chart_seam(c: CF, cs: ColorStatus)
    requires
        cs.mode is BVW,
        2 * c.1 == ONE,
    ensures
        ({
            let h = deg2rgb_spec(360 * c.0 + cs.angle);
            &&& bvw_spec(c, cs) == C::Float { r: h.0 as i64, g: h.1 as i64, b: h.2 as i64, a: ONE }
            &&& tint(2 * c.1, h.0) == h.0
            &&& tint(2 * c.1, h.1) == h.1
            &&& tint(2 * c.1, h.2) == h.2
        }),
{
    let h = deg2rgb_spec(360 * c.0 + cs.angle);
    crate::draw_lib::lemma_deg2rgb_range(360 * c.0 + cs.angle);
    lemma_fmul_unit(ONE as int, h.0);
    lemma_fmul_unit(ONE as int, h.1);
    lemma_fmul_unit(ONE as int, h.2);
    lemma_fmul_unit(ONE as int, ONE - h.0);
    lemma_fmul_unit(ONE as int, ONE - h.1);
    lemma_fmul_unit(ONE as int, ONE - h.2);
}

/// At radius one and beyond the white-centred wheel is the plain wheel.
pub proof fn lemma_wheel_rim(c: CF, s: CU, cs: ColorStatus)
    requires
        cs.mode is ConicW,
        ({
            let p = keep_point(c, s, (1u16, 1u16), RCOrigin::Center);
            p.0 * p.0 + p.1 * p.1 >= ONE_SQUARED
        }),
    ensures
        hue_spec(c, s, cs) == hue_spec(c, s, ColorStatus { mode: CSMode::Conic, ..cs }),
{
    let p = keep_point(c, s, (1u16, 1u16), RCOrigin::Center);
    let angle = polar_angle(p.1, p.0) - cs.angle;
    let h = deg2rgb_spec(angle);
    crate::draw_lib::lemma_deg2rgb_range(angle);
    lemma_fmul_unit(ONE as int, ONE - h.0);
    lemma_fmul_unit(ONE as int, ONE - h.1);
    lemma_fmul_unit(ONE as int, ONE - h.2);
}

/// The colour of a hue picture at the point `c` of a canvas of size `s`.
pub open spec fn color_spec(c: CF, s: CU, cs: ColorStatus) -> C {
    match cs.mode {
        CSMode::Conic | CSMode::ConicW => hue_spec(c, s, cs),
        CSMode::BV | CSMode::BVW => bvw_spec(c, cs),
    }
}

/// An angle brought into one turn.
pub open spec fn turn_mod(a: int) -> int {
    a % (TURN as int)
}

fn tint_at(d: i64, h: i64) -> (res: i64)
    requires
        0 <= d <= ONE,
        0 <= h <= ONE,
    ensures
        res == tint(d as int, h as int),
        0 <= res <= ONE,
        d == ONE ==> res == h,
{
    proof {
        lemma_fmul_unit(d as int, ONE - h);
    }
    ONE - (mul_fx(d, ONE - h) as i64)
}

fn shade_at(d: i64, h: i64) -> (res: i64)
    requires
        0 <= d <= ONE,
        0 <= h <= ONE,
    ensures
        res == fmul(d as int, h as int),
        0 <= res <= ONE,
{
    proof {
        lemma_fmul_unit(d as int, h as int);
    }
    mul_fx(d, h) as i64
}

/// An angle brought into one turn.
pub fn turn_mod_at(a: i128) -> (res: i64)
    ensures
        res == turn_mod(a as int),
        0 <= res < TURN,
{
    rem_floor(a, TURN as i128) as i64
}

/// The colour wheel at the point `c` of a canvas of size `s`.
pub fn hue_fragment(c: &CF, s: &CU, cs: &ColorStatus) -> (res: C)
    requires
        in_unit_square(*c),
        s.0 >= 1,
        s.1 >= 1,
    ensures
        res == hue_spec(*c, *s, *cs),
        res.in_range(),
        cs.mode is Conic || cs.mode is ConicW ==> res.continuous(),
{
    proof {
        lemma_keep_bounds(*c, *s, (1u16, 1u16), RCOrigin::Center);
    }
    let p: CF = rationalize_coord(c, s, (1, 1), RCOverflow::Keep, RCOrigin::Center).unwrap();
    let theta: i64 = turn_mod_at((polar_angle_at(p.1, p.0) as i128) - (cs.angle as i128));
    proof {
        vstd::arithmetic::div_mod::lemma_mod_twice(
            polar_angle(p.1 as int, p.0 as int) - cs.angle,
            TURN as int,
        );
    }
    let h: (i64, i64, i64) = deg2rgb(theta);
    proof {
        assert(0 <= p.0 * p.0 <= 0x1000_0000_0000_0000_0000_0000_0000_0000) by (nonlinear_arith)
            requires
                -0x4000_0000_0000_0000 <= p.0 <= 0x4000_0000_0000_0000,
        ;
        assert(0 <= p.1 * p.1 <= 0x1000_0000_0000_0000_0000_0000_0000_0000) by (nonlinear_arith)
            requires
                -0x4000_0000_0000_0000 <= p.1 <= 0x4000_0000_0000_0000,
        ;
        assert(p.0 != 0 ==> p.0 * p.0 > 0) by (nonlinear_arith);
        assert(p.1 != 0 ==> p.1 * p.1 > 0) by (nonlinear_arith);
    }
    let rr: i128 = mul_wide(p.0, p.0) + mul_wide(p.1, p.1);
    if rr == 0 {
        return C::Float { r: ONE, g: ONE, b: ONE, a: ONE };
    }
    match cs.mode {
        CSMode::ConicW => {
            let d: i64 = if rr >= mul_wide(ONE, ONE) {
                ONE
            } else {
                isqrt_at(rr as u64) as i64
            };
            C::Float { r: tint_at(d, h.0), g: tint_at(d, h.1), b: tint_at(d, h.2), a: ONE }
        },
        CSMode::Conic => C::Float { r: h.0, g: h.1, b: h.2, a: ONE },
        _ => C::Unset,
    }
}

/// The hue and lightness chart at the point `c` of the unit square.
pub fn bvw_fragment(c: &CF, cs: &ColorStatus) -> (res: C)
    requires
        in_unit_square(*c),
    ensures
        res == bvw_spec(*c, *cs),
        res.in_range(),
        cs.mode is BV || cs.mode is BVW ==> res.continuous(),
{
    let theta: i64 = turn_mod_at(360 * (c.0 as i128) + (cs.angle as i128));
    proof {
        vstd::arithmetic::div_mod::lemma_mod_twice(360 * c.0 + cs.angle, TURN as int);
    }
    let h: (i64, i64, i64) = deg2rgb(theta);
    match cs.mode {
        CSMode::BVW => {
            if 2 * c.1 < ONE {
                let d: i64 = 2 * c.1;
                C::Float { r: tint_at(d, h.0), g: tint_at(d, h.1), b: tint_at(d, h.2), a: ONE }
            } else {
                let d: i64 = 2 * (ONE - c.1);
                C::Float { r: shade_at(d, h.0), g: shade_at(d, h.1), b: shade_at(d, h.2), a: ONE }
            }
        },
        CSMode::BV => {
            let d: i64 = ONE - c.1;
            C::Float { r: shade_at(d, h.0), g: shade_at(d, h.1), b: shade_at(d, h.2), a: ONE }
        },
        _ => C::Unset,
    }
}

/// The colour of a hue picture at the point `c` of a canvas of size `s`:
/// always a continuous colour with every channel in range.
pub fn color_fragment(c: &CF, s: &CU, cs: &ColorStatus) -> (res: C)
    requires
        in_unit_square(*c),
        s.0 >= 1,
        s.1 >= 1,
    ensures
        res == color_spec(*c, *s, *cs),
        res.in_range(),
        res.continuous(),
{
    match cs.mode {
        CSMode::Conic | CSMode::ConicW => hue_fragment(c, s, cs),
        CSMode::BV | CSMode::BVW => bvw_fragment(c, cs),
    }
}

/// Where the pointer is, in the terms in which the picture remembers it: on
/// the wheels the rationalised point, on the charts the point itself.
pub open spec fn pointer_spec(c: CF, s: CU, mode: CSMode) -> PF {
    match mode {
        CSMode::Conic | CSMode::ConicW => keep_point(c, s, (1u16, 1u16), RCOrigin::Center),
        CSMode::BV | CSMode::BVW => (c.0 as int, c.1 as int),
    }
}

/// The rotation after the pointer has been dragged from `from` to `to`. A
/// wheel turns by the angle that the pointer has swept round the centre. A
/// chart shifts against the pointer by one full turn per width of the canvas.
/// Either way the result lies in one turn.
pub open spec fn dragged_angle(angle: int, from: PF, to: PF, mode: CSMode) -> int {
    match mode {
        CSMode::Conic | CSMode::ConicW => turn_mod(
            angle + polar_angle(to.1, to.0) - polar_angle(from.1, from.0),
        ),
        CSMode::BV | CSMode::BVW => turn_mod(angle - 360 * (to.0 - from.0)),
    }
}

/// The pointer went down on a wheel: the picture remembers the rationalised
/// point.
pub fn hue_mouse_down(c: &CF, s: &CU, cs: &mut ColorStatus)
    requires
        in_unit_square(*c),
        s.0 >= 1,
        s.1 >= 1,
    ensures
        final(cs).angle == old(cs).angle,
        final(cs).mode == old(cs).mode,
        (final(cs).mouse_position.0 as int, final(cs).mouse_position.1 as int) == keep_point(
            *c,
            *s,
            (1u16, 1u16),
            RCOrigin::Center,
        ),
{
    cs.mouse_position =
    rationalize_coord(c, s, (1, 1), RCOverflow::Keep, RCOrigin::Center).unwrap();
}

/// The pointer was dragged on a wheel: the wheel turns by the angle that the
/// pointer swept round the centre since it was last seen.
pub fn hue_mouse_drag(c: &CF, s: &CU, cs: &mut ColorStatus)
    requires
        in_unit_square(*c),
        s.0 >= 1,
        s.1 >= 1,
    ensures
        final(cs).mode == old(cs).mode,
        (final(cs).mouse_position.0 as int, final(cs).mouse_position.1 as int) == keep_point(
            *c,
            *s,
            (1u16, 1u16),
            RCOrigin::Center,
        ),
        final(cs).angle == turn_mod(
            old(cs).angle + polar_angle(
                final(cs).mouse_position.1 as int,
                final(cs).mouse_position.0 as int,
            ) - polar_angle(old(cs).mouse_position.1 as int, old(cs).mouse_position.0 as int),
        ),
        0 <= final(cs).angle < TURN,
{
    let mpp: CF = cs.mouse_position;
    let mpc: CF = rationalize_coord(c, s, (1, 1), RCOverflow::Keep, RCOrigin::Center).unwrap();
    cs.mouse_position = mpc;
    let to: i128 = polar_angle_at(mpc.1, mpc.0) as i128;
    let from: i128 = polar_angle_at(mpp.1, mpp.0) as i128;
    cs.angle = turn_mod_at((cs.angle as i128) + to - from);
}

/// The pointer went down on a chart: the picture remembers the point.
pub fn bvw_mouse_down(c: &CF, cs: &mut ColorStatus)
    ensures
        final(cs).angle == old(cs).angle,
        final(cs).mode == old(cs).mode,
        final(cs).mouse_position == *c,
{
    cs.mouse_position = (c.0, c.1);
}

/// The pointer was dragged on a chart: the chart shifts against the pointer
/// by one full turn per width of the canvas.
pub fn bvw_mouse_drag(c: &CF, cs: &mut ColorStatus)
    ensures
        final(cs).mode == old(cs).mode,
        final(cs).mouse_position == *c,
        final(cs).angle == turn_mod(old(cs).angle - 360 * (c.0 - old(cs).mouse_position.0)),
        0 <= final(cs).angle < TURN,
{
    let mpp: CF = cs.mouse_position;
    cs.mouse_position = (c.0, c.1);
    cs.angle = turn_mod_at((cs.angle as i128) - 360 * ((c.0 as i128) - (mpp.0 as i128)));
}

/// The pointer went down at the point `c` of the canvas: the picture
/// remembers where, and nothing else changes.
pub fn color_mouse_down(c: &CF, s: &CU, cs: &mut ColorStatus)
    requires
        in_unit_square(*c),
        s.0 >= 1,
        s.1 >= 1,
    ensures
        final(cs).angle == old(cs).angle,
        final(cs).mode == old(cs).mode,
        (final(cs).mouse_position.0 as int, final(cs).mouse_position.1 as int) == pointer_spec(
            *c,
            *s,
            old(cs).mode,
        ),
{
    match cs.mode {
        CSMode::Conic | CSMode::ConicW => hue_mouse_down(c, s, cs),
        CSMode::BV | CSMode::BVW => bvw_mouse_down(c, cs),
    }
}

/// The pointer was dragged to the point `c` of the canvas: the picture turns
/// (or shifts) by what the pointer moved since it was last seen, and
/// remembers the new position.
pub fn color_mouse_drag(c: &CF, s: &CU, cs: &mut ColorStatus)
    requires
        in_unit_square(*c),
        s.0 >= 1,
        s.1 >= 1,
    ensures
        final(cs).mode == old(cs).mode,
        (final(cs).mouse_position.0 as int, final(cs).mouse_position.1 as int) == pointer_spec(
            *c,
            *s,
            old(cs).mode,
        ),
        final(cs).angle == dragged_angle(
            old(cs).angle as int,
            (old(cs).mouse_position.0 as int, old(cs).mouse_position.1 as int),
            pointer_spec(*c, *s, old(cs).mode),
            old(cs).mode,
        ),
        0 <= final(cs).angle < TURN,
{
    match cs.mode {
        CSMode::Conic | CSMode::ConicW => hue_mouse_drag(c, s, cs),
        CSMode::BV | CSMode::BVW => bvw_mouse_drag(c, cs),
    }
}

} // verus!
