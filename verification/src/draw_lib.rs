//! The geometry shared by the pictures: fitting a picture of a given aspect
//! ratio into a canvas, and the hue wheel.

use vstd::prelude::*;
use crate::fixed::{
    div_floor, in_unit_square, lemma_div_bounds, lemma_div_exact, lemma_div_monotone, mul_wide,
    rem_floor, CF, CU, ONE, TURN,
};

verus! {

/// A fixed-point point in specifications, free of machine bounds.
pub type PF = (int, int);

/// What happens to a point that falls outside the fitted rectangle.
#[derive(Clone, Copy, Debug, PartialEq, Eq, Structural)]
pub enum RCOverflow {
    Keep,
    Repeat,
    Discard,
}

/// Where the logical plane has its origin.
#[derive(Clone, Copy, Debug, PartialEq, Eq, Structural)]
pub enum RCOrigin {
    Center,
    TopLeft,
}

/// Sixty degrees in fixed point: the width of one sector of the hue wheel.
pub const SECTOR: i64 = 60_480_000_000;

/// The factor, as numerator and denominator, by which the horizontal axis is
/// stretched so that the largest rectangle of the target ratio inside the
/// canvas spans the whole nominal range. It is one unless the canvas is wider
/// than the target ratio.
pub open spec fn stretch_x(size: CU, ratio: CU) -> (int, int) {
    let a = size.1 as int * ratio.0 as int;
    let b = size.0 as int * ratio.1 as int;
    if b > a {
        (b, a)
    } else {
        (1, 1)
    }
}

/// The vertical counterpart of `stretch_x`: one unless the canvas is taller
/// than the target ratio.
pub open spec fn stretch_y(size: CU, ratio: CU) -> (int, int) {
    let a = size.1 as int * ratio.0 as int;
    let b = size.0 as int * ratio.1 as int;
    if a > b {
        (a, b)
    } else {
        (1, 1)
    }
}

/// The point `c` of the canvas lies inside (or on the edge of) the largest
/// centred rectangle of the target ratio.
pub open spec fn in_letterbox(c: CF, size: CU, ratio: CU) -> bool {
    let (xn, xd) = stretch_x(size, ratio);
    let (yn, yd) = stretch_y(size, ratio);
    &&& -(ONE * xd) <= (2 * c.0 - ONE) * xn <= ONE * xd
    &&& -(ONE * yd) <= (2 * c.1 - ONE) * yn <= ONE * yd
}

/// The point `c` re-expressed relative to the fitted rectangle, with nothing
/// done about overflow. With the origin at the top left the rectangle spans
/// zero to `ONE` both ways; with the origin at the centre it spans `-ONE` to
/// `ONE` and the vertical axis points up. Each component is the floor of the
/// exact rational value.
pub open spec fn keep_point(c: CF, size: CU, ratio: CU, origin: RCOrigin) -> PF {
    let (xn, xd) = stretch_x(size, ratio);
    let (yn, yd) = stretch_y(size, ratio);
    match origin {
        RCOrigin::TopLeft => (
            ((2 * c.0 - ONE) * xn) / (2 * xd) + ONE / 2,
            ((2 * c.1 - ONE) * yn) / (2 * yd) + ONE / 2,
        ),
        RCOrigin::Center => (((2 * c.0 - ONE) * xn) / xd, ((ONE - 2 * c.1) * yn) / yd),
    }
}

/// One component wrapped into the nominal range of the origin: into
/// `[0, ONE)` for the top left, into `(-ONE, ONE]` for the centre.
pub open spec fn wrap(v: int, origin: RCOrigin) -> int {
    match origin {
        RCOrigin::TopLeft => v % (ONE as int),
        RCOrigin::Center => {
            let m = v % (2 * ONE);
            if m > ONE {
                m - 2 * ONE
            } else {
                m
            }
        },
    }
}

/// Both components lie in the nominal range of the origin.
pub open spec fn nominal(p: PF, origin: RCOrigin) -> bool {
    match origin {
        RCOrigin::TopLeft => 0 <= p.0 <= ONE && 0 <= p.1 <= ONE,
        RCOrigin::Center => -ONE <= p.0 <= ONE && -ONE <= p.1 <= ONE,
    }
}

/// The rationalised point, or nothing where the overflow policy discards it.
pub open spec fn rationalize_spec(
    c: CF,
    size: CU,
    ratio: CU,
    overflow: RCOverflow,
    origin: RCOrigin,
) -> Option<PF> {
    let k = keep_point(c, size, ratio, origin);
    match overflow {
        RCOverflow::Keep => Some(k),
        RCOverflow::Repeat => Some((wrap(k.0, origin), wrap(k.1, origin))),
        RCOverflow::Discard => if in_letterbox(c, size, ratio) {
            Some(k)
        } else {
            None
        },
    }
}

/// The executable point `r` is the specification point `m`.
pub open spec fn same_point(r: Option<CF>, m: Option<PF>) -> bool {
    match (r, m) {
        (Some(p), Some(q)) => p.0 == q.0 && p.1 == q.1,
        (None, None) => true,
        _ => false,
    }
}

/// A stretch factor is at least one and its parts fit in 32 bits.
pub proof fn lemma_stretch_bounds(size: CU, ratio: CU)
    requires
        size.0 >= 1,
        size.1 >= 1,
        ratio.0 >= 1,
        ratio.1 >= 1,
    ensures
        1 <= stretch_x(size, ratio).1 <= stretch_x(size, ratio).0 <= 0xffff_ffff,
        1 <= stretch_y(size, ratio).1 <= stretch_y(size, ratio).0 <= 0xffff_ffff,
{
    let a = size.1 as int * ratio.0 as int;
    let b = size.0 as int * ratio.1 as int;
    assert(1 <= a <= 0xffff_ffff) by (nonlinear_arith)
        requires
            a == size.1 as int * ratio.0 as int,
            1 <= size.1 <= 0xffff,
            1 <= ratio.0 <= 0xffff,
    ;
    assert(1 <= b <= 0xffff_ffff) by (nonlinear_arith)
        requires
            b == size.0 as int * ratio.1 as int,
            1 <= size.0 <= 0xffff,
            1 <= ratio.1 <= 0xffff,
    ;
}

/// The magnitude of a component of `keep_point` is bounded by the stretch.
pub proof fn lemma_keep_bounds(c: CF, size: CU, ratio: CU, origin: RCOrigin)
    requires
        in_unit_square(c),
        size.0 >= 1,
        size.1 >= 1,
        ratio.0 >= 1,
        ratio.1 >= 1,
    ensures
        ({
            let k = keep_point(c, size, ratio, origin);
            let sx = stretch_x(size, ratio).0;
            let sy = stretch_y(size, ratio).0;
            &&& -(ONE * sx) <= k.0 <= ONE * sx + ONE
            &&& -(ONE * sy) <= k.1 <= ONE * sy + ONE
            &&& -0x4000_0000_0000_0000 <= k.0 <= 0x4000_0000_0000_0000
            &&& -0x4000_0000_0000_0000 <= k.1 <= 0x4000_0000_0000_0000
        }),
{
    lemma_stretch_bounds(size, ratio);
    let (xn, xd) = stretch_x(size, ratio);
    let (yn, yd) = stretch_y(size, ratio);
    let ux = 2 * c.0 - ONE;
    let uy = 2 * c.1 - ONE;
    lemma_scaled_bounds(ux, xn, xd);
    lemma_scaled_bounds(ux, xn, 2 * xd);
    lemma_scaled_bounds(uy, yn, 2 * yd);
    lemma_scaled_bounds(-uy, yn, yd);
    assert((ONE - 2 * c.1) * yn == (-uy) * yn) by (nonlinear_arith)
        requires
            uy == 2 * c.1 - ONE,
    ;
    assert(ONE * xn <= ONE * 0xffff_ffff) by (nonlinear_arith)
        requires
            xn <= 0xffff_ffff,
    ;
    assert(ONE * yn <= ONE * 0xffff_ffff) by (nonlinear_arith)
        requires
            yn <= 0xffff_ffff,
    ;
}

/// `u * n / d`, with `u` within one unit either way, is within `ONE * n`.
pub proof fn lemma_scaled_bounds(u: int, n: int, d: int)
    requires
        -ONE <= u <= ONE,
        n >= 1,
        d >= 1,
    ensures
        -(ONE * n) <= (u * n) / d <= ONE * n,
        -(ONE * n) <= u * n <= ONE * n,
{
    assert(-(ONE * n) <= u * n <= ONE * n) by (nonlinear_arith)
        requires
            -ONE <= u <= ONE,
            n >= 1,
    ;
    lemma_div_bounds(u * n, d);
}

/// A point of the canvas inside the fitted rectangle has a `keep_point` in the
/// nominal range.
pub proof fn lemma_letterbox_nominal(c: CF, size: CU, ratio: CU, origin: RCOrigin)
    requires
        size.0 >= 1,
        size.1 >= 1,
        ratio.0 >= 1,
        ratio.1 >= 1,
        in_letterbox(c, size, ratio),
    ensures
        nominal(keep_point(c, size, ratio, origin), origin),
{
    lemma_stretch_bounds(size, ratio);
    let (xn, xd) = stretch_x(size, ratio);
    let (yn, yd) = stretch_y(size, ratio);
    let ux = (2 * c.0 - ONE) * xn;
    let uy = (2 * c.1 - ONE) * yn;
    let half: int = ONE as int / 2;
    assert(ONE * xd == half * (2 * xd)) by (nonlinear_arith)
        requires
            half * 2 == ONE,
    ;
    assert(ONE * yd == half * (2 * yd)) by (nonlinear_arith)
        requires
            half * 2 == ONE,
    ;
    assert(-(ONE * xd) == (-half) * (2 * xd)) by (nonlinear_arith)
        requires
            half * 2 == ONE,
    ;
    assert(-(ONE * yd) == (-half) * (2 * yd)) by (nonlinear_arith)
        requires
            half * 2 == ONE,
    ;
    assert(-(ONE * xd) == (-(ONE as int)) * xd) by (nonlinear_arith);
    assert(-(ONE * yd) == (-(ONE as int)) * yd) by (nonlinear_arith);
    assert((ONE - 2 * c.1) * yn == -uy) by (nonlinear_arith)
        requires
            uy == (2 * c.1 - ONE) * yn,
    ;
    match origin {
        RCOrigin::TopLeft => {
            lemma_div_exact(half, 2 * xd);
            lemma_div_exact(-half, 2 * xd);
            lemma_div_exact(half, 2 * yd);
            lemma_div_exact(-half, 2 * yd);
            lemma_div_monotone(ux, ONE * xd, 2 * xd);
            lemma_div_monotone(-(ONE * xd), ux, 2 * xd);
            lemma_div_monotone(uy, ONE * yd, 2 * yd);
            lemma_div_monotone(-(ONE * yd), uy, 2 * yd);
        },
        RCOrigin::Center => {
            lemma_div_exact(ONE as int, xd);
            lemma_div_exact(-(ONE as int), xd);
            lemma_div_exact(ONE as int, yd);
            lemma_div_exact(-(ONE as int), yd);
            lemma_div_monotone(ux, ONE * xd, xd);
            lemma_div_monotone(-(ONE * xd), ux, xd);
            lemma_div_monotone(-uy, ONE * yd, yd);
            lemma_div_monotone(-(ONE * yd), -uy, yd);
        },
    }
}

/// Under the discarding policy a point of the canvas outside the fitted
/// rectangle gives nothing, and a point inside it gives a point whose two
/// components lie in the nominal range of the origin.
pub proof fn lemma_discard_letterbox(c: CF, size: CU, ratio: CU, origin: RCOrigin)
    requires
        size.0 >= 1,
        size.1 >= 1,
        ratio.0 >= 1,
        ratio.1 >= 1,
    ensures
        !in_letterbox(c, size, ratio) ==> rationalize_spec(
            c,
            size,
            ratio,
            RCOverflow::Discard,
            origin,
        ) is None,
        in_letterbox(c, size, ratio) ==> {
            let r = rationalize_spec(c, size, ratio, RCOverflow::Discard, origin);
            r is Some && nominal(r->0, origin)
        },
{
    if in_letterbox(c, size, ratio) {
        lemma_letterbox_nominal(c, size, ratio, origin);
    }
}

/// Under the repeating policy every point lands in the nominal range.
pub proof fn lemma_repeat_nominal(c: CF, size: CU, ratio: CU, origin: RCOrigin)
    ensures
        ({
            let r = rationalize_spec(c, size, ratio, RCOverflow::Repeat, origin);
            r is Some && nominal(r->0, origin)
        }),
{
    let k = keep_point(c, size, ratio, origin);
    vstd::arithmetic::div_mod::lemma_mod_bound(k.0, ONE as int);
    vstd::arithmetic::div_mod::lemma_mod_bound(k.1, ONE as int);
    vstd::arithmetic::div_mod::lemma_mod_bound(k.0, 2 * ONE);
    vstd::arithmetic::div_mod::lemma_mod_bound(k.1, 2 * ONE);
}

/// The stretch factors of both axes, as `(xn, xd, yn, yd)`.
fn stretches(size: &CU, ratio: CU) -> (s: (i64, i64, i64, i64))
    requires
        size.0 >= 1,
        size.1 >= 1,
        ratio.0 >= 1,
        ratio.1 >= 1,
    ensures
        (s.0 as int, s.1 as int) == stretch_x(*size, ratio),
        (s.2 as int, s.3 as int) == stretch_y(*size, ratio),
{
    proof {
        lemma_stretch_bounds(*size, ratio);
    }
    let a: i64 = mul_wide(size.1 as i64, ratio.0 as i64) as i64;
    let b: i64 = mul_wide(size.0 as i64, ratio.1 as i64) as i64;
    if b > a {
        (b, a, 1, 1)
    } else if a > b {
        (1, 1, a, b)
    } else {
        (1, 1, 1, 1)
    }
}

/// One component wrapped into the nominal range of the origin.
fn wrap_component(v: i64, origin: RCOrigin) -> (r: i64)
    ensures
        r == wrap(v as int, origin),
{
    match origin {
        RCOrigin::TopLeft => rem_floor(v as i128, ONE as i128) as i64,
        RCOrigin::Center => {
            let m: i64 = rem_floor(v as i128, 2 * (ONE as i128)) as i64;
            if m > ONE {
                m - 2 * ONE
            } else {
                m
            }
        },
    }
}

/// Maps a point of the canvas, given in the unit square, into the logical
/// plane of a picture with the given aspect ratio: the largest centred
/// rectangle of that ratio inside the canvas becomes the nominal range of the
/// chosen origin. What lies outside the rectangle is kept as it falls, wrapped
/// back into the range, or discarded, as the overflow policy says.
pub fn rationalize_coord(
    coord: &CF,
    size: &CU,
    ratio: CU,
    overflow: RCOverflow,
    origin: RCOrigin,
) -> (res: Option<CF>)
    requires
        in_unit_square(*coord),
        size.0 >= 1,
        size.1 >= 1,
        ratio.0 >= 1,
        ratio.1 >= 1,
    ensures
        same_point(res, rationalize_spec(*coord, *size, ratio, overflow, origin)),
{
    let (xn, xd, yn, yd) = stretches(size, ratio);
    let ux: i64 = 2 * coord.0 - ONE;
    let uy: i64 = 2 * coord.1 - ONE;
    proof {
        lemma_stretch_bounds(*size, ratio);
        lemma_keep_bounds(*coord, *size, ratio, origin);
        lemma_scaled_bounds(ux as int, xn as int, xd as int);
        lemma_scaled_bounds(uy as int, yn as int, yd as int);
        assert(ONE * xd <= ONE * 0xffff_ffff) by (nonlinear_arith)
            requires
                xd <= 0xffff_ffff,
        ;
        assert(ONE * yd <= ONE * 0xffff_ffff) by (nonlinear_arith)
            requires
                yd <= 0xffff_ffff,
        ;
        assert(ONE * xn <= ONE * 0xffff_ffff) by (nonlinear_arith)
            requires
                xn <= 0xffff_ffff,
        ;
        assert(ONE * yn <= ONE * 0xffff_ffff) by (nonlinear_arith)
            requires
                yn <= 0xffff_ffff,
        ;
    }
    let px: i128 = mul_wide(ux, xn);
    let py: i128 = mul_wide(uy, yn);
    let norm: CF = match origin {
        RCOrigin::TopLeft => (
            (div_floor(px, 2 * (xd as i128)) + (ONE / 2) as i128) as i64,
            (div_floor(py, 2 * (yd as i128)) + (ONE / 2) as i128) as i64,
        ),
        RCOrigin::Center => {
            proof {
                assert((ONE - 2 * coord.1) * yn == -(uy * yn)) by (nonlinear_arith)
                    requires
                        uy == 2 * coord.1 - ONE,
                ;
            }
            (div_floor(px, xd as i128) as i64, div_floor(-py, yd as i128) as i64)
        },
    };
    match overflow {
        RCOverflow::Keep => Some(norm),
        RCOverflow::Repeat => Some((wrap_component(norm.0, origin), wrap_component(norm.1, origin))),
        RCOverflow::Discard => {
            let lx: i128 = mul_wide(ONE, xd);
            let ly: i128 = mul_wide(ONE, yd);
            if -lx <= px && px <= lx && -ly <= py && py <= ly {
                Some(norm)
            } else {
                None
            }
        },
    }
}

/// The three channels of the fully saturated, full-value hue at `deg`
/// fixed-point degrees: six sectors of sixty degrees, in each of which one
/// channel is at `ONE`, one at zero, and one rises or falls linearly.
pub open spec fn deg2rgb_spec(deg: int) -> (int, int, int) {
    let can = deg % (TURN as int);
    let sector = can / (SECTOR as int);
    let f = (can % (SECTOR as int)) / 60;
    if sector == 0 {
        (ONE as int, f, 0)
    } else if sector == 1 {
        (ONE - f, ONE as int, 0)
    } else if sector == 2 {
        (0, ONE as int, f)
    } else if sector == 3 {
        (0, ONE - f, ONE as int)
    } else if sector == 4 {
        (f, 0, ONE as int)
    } else {
        (ONE as int, 0, ONE - f)
    }
}

/// Each channel of a hue lies between zero and `ONE`.
pub proof fn lemma_deg2rgb_range(deg: int)
    ensures
        0 <= deg2rgb_spec(deg).0 <= ONE,
        0 <= deg2rgb_spec(deg).1 <= ONE,
        0 <= deg2rgb_spec(deg).2 <= ONE,
{
    let can = deg % (TURN as int);
    let t = can % (SECTOR as int);
    vstd::arithmetic::div_mod::lemma_mod_bound(can, SECTOR as int);
    assert(0 <= t / 60 < ONE);
}

/// The hue law has a period of one full turn: adding any whole number of
/// turns to the angle leaves all three channels as they were, and each
/// channel lies between zero and `ONE`.
pub proof fn lemma_deg2rgb_periodic(deg: int, k: int)
    ensures
        deg2rgb_spec(deg + k * TURN) == deg2rgb_spec(deg),
        0 <= deg2rgb_spec(deg).0 <= ONE,
        0 <= deg2rgb_spec(deg).1 <= ONE,
        0 <= deg2rgb_spec(deg).2 <= ONE,
{
    vstd::arithmetic::div_mod::lemma_mod_multiples_vanish(k, deg, TURN as int);
    assert(TURN * k + deg == deg + k * TURN) by (nonlinear_arith);
    lemma_deg2rgb_range(deg);
}

/// The red, green and blue of the hue at `deg` fixed-point degrees, each
/// between zero and `ONE`. The angle may be any number: it is first brought
/// into one turn.
pub fn deg2rgb(deg: i64) -> (rgb: (i64, i64, i64))
    ensures
        (rgb.0 as int, rgb.1 as int, rgb.2 as int) == deg2rgb_spec(deg as int),
        0 <= rgb.0 <= ONE,
        0 <= rgb.1 <= ONE,
        0 <= rgb.2 <= ONE,
{
    proof {
        lemma_deg2rgb_range(deg as int);
    }
    let can: i128 = rem_floor(deg as i128, TURN as i128);
    let sector: i128 = div_floor(can, SECTOR as i128);
    let t: i128 = rem_floor(can, SECTOR as i128);
    let f: i64 = div_floor(t, 60) as i64;
    if sector == 0 {
        (ONE, f, 0)
    } else if sector == 1 {
        (ONE - f, ONE, 0)
    } else if sector == 2 {
        (0, ONE, f)
    } else if sector == 3 {
        (0, ONE - f, ONE)
    } else if sector == 4 {
        (f, 0, ONE)
    } else {
        (ONE, 0, ONE - f)
    }
}

} // verus!
