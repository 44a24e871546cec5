//! The Mandelbrot set by escape time.

use vstd::prelude::*;
use crate::data::C;
use crate::draw_lib::{
    deg2rgb, deg2rgb_spec, keep_point, lemma_keep_bounds, rationalize_coord,
    RCOrigin, RCOverflow, PF,
};
use crate::fixed::{div_floor, in_unit_square, mul_wide, CF, CU, ONE, ONE_SQUARED};

verus! {

/// How many times the recurrence is applied before a point counts as
/// belonging to the set.
pub const CAP: u32 = 200;

/// Nine tenths of a degree in fixed point: how far the hue moves per
/// iteration.
pub const HUE_STEP: i64 = 907_200_000;

/// The hue of a point that escapes at once: 240 degrees, blue.
pub const HUE_START: i64 = 241_920_000_000;

/// One application of `z -> z * z + c` on fixed-point complex numbers, each
/// product rounded down.
pub open spec fn mandel_step(z: PF, c: PF) -> PF {
    ((z.0 * z.0 - z.1 * z.1) / (ONE as int) + c.0, (2 * z.0 * z.1) / (ONE as int) + c.1)
}

/// The modulus of `z` exceeds two.
pub open spec fn escaped(z: PF) -> bool {
    z.0 * z.0 + z.1 * z.1 > 4 * ONE_SQUARED
}

/// Starting from `z` with `n` applications already made: the number of
/// applications made before the one that first takes the orbit beyond
/// modulus two, or `None` if that does not happen within the cap.
pub open spec fn escape_time(c: PF, z: PF, n: nat) -> Option<nat>
    decreases CAP - n,
{
    if n >= CAP {
        None
    } else {
        let next = mandel_step(z, c);
        if escaped(next) {
            Some(n)
        } else {
            escape_time(c, next, n + 1)
        }
    }
}

/// A channel darkened to three fifths.
pub open spec fn dim(h: int) -> int {
    (3 * h) / 5
}

/// The colour of a point that escapes after `n` applications: a hue that
/// runs from blue towards red as `n` grows, darkened to three fifths.
pub open spec fn escape_color(n: int) -> C {
    let h = deg2rgb_spec(HUE_START - n * HUE_STEP);
    C::Float { r: dim(h.0) as i64, g: dim(h.1) as i64, b: dim(h.2) as i64, a: ONE }
}

/// Opaque black, as a grey.
pub open spec fn black() -> C {
    C::GFloat { v: 0, a: ONE }
}

/// The parameter `c` of the recurrence at a point of the canvas: the
/// rationalised point, moved half a unit to the left.
pub open spec fn mandel_param(c: CF, s: CU) -> PF {
    let p = keep_point(c, s, (1u16, 1u16), RCOrigin::Center);
    (p.0 - ONE / 2, p.1)
}

/// The colour of the Mandelbrot picture at the point `c` of a canvas of size
/// `s`: black inside the set, the colour of the escape time outside.
pub open spec fn mandelbrot_spec(c: CF, s: CU) -> C {
    match escape_time(mandel_param(c, s), (0, 0), 0) {
        Some(n) => escape_color(n as int),
        None => black(),
    }
}

/// With parameter zero the orbit of zero stays at zero and never escapes.
pub proof fn lemma_zero_never_escapes(n: nat)
    ensures
        escape_time((0, 0), (0, 0), n) is None,
    decreases CAP - n,
{
    if n < CAP {
        assert(mandel_step((0, 0), (0, 0)) == (0int, 0int));
        lemma_zero_never_escapes(n + 1);
    }
}

/// The point of the canvas whose parameter is zero is black.
pub proof fn lemma_mandelbrot_centre(c: CF, s: CU)
    requires
        mandel_param(c, s) == (0int, 0int),
    ensures
        mandelbrot_spec(c, s) == black(),
{
    lemma_zero_never_escapes(0);
}

/// The inner product of two vectors is at most the product of their lengths.
proof fn lemma_inner_product(p: int, q: int, r: int, s: int, a: int, b: int)
    requires
        p * p + q * q <= a * a,
        r * r + s * s <= b * b,
        a >= 0,
        b >= 0,
    ensures
        p * r + q * s <= a * b,
{
    let t = p * r + q * s;
    let m = p * p + q * q;
    let n = r * r + s * s;
    let d = p * s - q * r;
    let pr = p * r;
    let qs = q * s;
    let ps = p * s;
    let qr = q * r;
    assert(pr * pr == (p * p) * (r * r)) by (nonlinear_arith)
        requires
            pr == p * r,
    ;
    assert(qs * qs == (q * q) * (s * s)) by (nonlinear_arith)
        requires
            qs == q * s,
    ;
    assert(ps * ps == (p * p) * (s * s)) by (nonlinear_arith)
        requires
            ps == p * s,
    ;
    assert(qr * qr == (q * q) * (r * r)) by (nonlinear_arith)
        requires
            qr == q * r,
    ;
    assert(pr * qs == ps * qr) by (nonlinear_arith)
        requires
            pr == p * r,
            qs == q * s,
            ps == p * s,
            qr == q * r,
    ;
    assert(m * n == (p * p) * (r * r) + (p * p) * (s * s) + (q * q) * (r * r) + (q * q) * (s * s))
        by (nonlinear_arith)
        requires
            m == p * p + q * q,
            n == r * r + s * s,
    ;
    assert(t * t == pr * pr + 2 * (pr * qs) + qs * qs) by (nonlinear_arith)
        requires
            t == pr + qs,
    ;
    assert(d * d == ps * ps - 2 * (ps * qr) + qr * qr) by (nonlinear_arith)
        requires
            d == ps - qr,
    ;
    assert(m * n - t * t == d * d);
    assert(d * d >= 0) by (nonlinear_arith);
    assert(m >= 0 && n >= 0) by (nonlinear_arith)
        requires
            m == p * p + q * q,
            n == r * r + s * s,
    ;
    assert(m * n <= (a * a) * (b * b)) by (nonlinear_arith)
        requires
            0 <= m <= a * a,
            0 <= n <= b * b,
    ;
    assert((a * a) * (b * b) == (a * b) * (a * b)) by (nonlinear_arith);
    assert(t <= a * b) by (nonlinear_arith)
        requires
            t * t <= (a * b) * (a * b),
            a >= 0,
            b >= 0,
    ;
}

/// The length of a sum of two vectors is at most the sum of their lengths.
proof fn lemma_triangle(p: int, q: int, r: int, s: int, a: int, b: int)
    requires
        p * p + q * q <= a * a,
        r * r + s * s <= b * b,
        a >= 0,
        b >= 0,
    ensures
        (p + r) * (p + r) + (q + s) * (q + s) <= (a + b) * (a + b),
{
    lemma_inner_product(p, q, r, s, a, b);
    let t = p * r + q * s;
    assert((p + r) * (p + r) + (q + s) * (q + s) == (p * p + q * q) + (r * r + s * s) + 2 * t)
        by (nonlinear_arith)
        requires
            t == p * r + q * s,
    ;
    assert((a + b) * (a + b) == a * a + b * b + 2 * (a * b)) by (nonlinear_arith);
}

/// The radius within which the orbit of a parameter of modulus at most a
/// quarter stays after `n` applications: a half, and another four units for
/// each application, which is more than rounding can add.
pub open spec fn disc_radius(n: int) -> int {
    ONE / 2 + 4 * n
}

/// One application of the recurrence with a parameter of modulus at most a
/// quarter takes a point within one radius to a point within the next.
proof fn lemma_disc_step(z: PF, c: PF, n: int)
    requires
        0 <= n < CAP,
        c.0 * c.0 + c.1 * c.1 <= (ONE / 4) * (ONE / 4),
        z.0 * z.0 + z.1 * z.1 <= disc_radius(n) * disc_radius(n),
    ensures
        ({
            let next = mandel_step(z, c);
            next.0 * next.0 + next.1 * next.1 <= disc_radius(n + 1) * disc_radius(n + 1)
        }),
{
    let one: int = ONE as int;
    let (x, y) = z;
    let u = x * x - y * y;
    let v = 2 * x * y;
    let m = x * x + y * y;
    let fx = u / one;
    let fy = v / one;
    let r = disc_radius(n);
    let r2 = disc_radius(n + 1);
    // the square of z has the square of its modulus for a modulus
    assert(u * u + v * v == m * m) by (nonlinear_arith)
        requires
            u == x * x - y * y,
            v == 2 * x * y,
            m == x * x + y * y,
    ;
    assert(m >= 0) by (nonlinear_arith)
        requires
            m == x * x + y * y,
    ;
    // rounding moves each part by less than one unit
    vstd::arithmetic::div_mod::lemma_fundamental_div_mod(u, one);
    vstd::arithmetic::div_mod::lemma_fundamental_div_mod(v, one);
    vstd::arithmetic::div_mod::lemma_mod_bound(u, one);
    vstd::arithmetic::div_mod::lemma_mod_bound(v, one);
    let eu = one * fx - u;
    let ev = one * fy - v;
    assert(-one < eu <= 0 && -one < ev <= 0);
    assert(eu * eu + ev * ev <= (2 * one) * (2 * one)) by (nonlinear_arith)
        requires
            -one < eu <= 0,
            -one < ev <= 0,
    ;
    lemma_triangle(u, v, eu, ev, m, 2 * one);
    // the parameter, in the same scale
    let cu = one * c.0;
    let cv = one * c.1;
    let q = one * (one / 4);
    assert(cu * cu + cv * cv <= q * q) by (nonlinear_arith)
        requires
            cu == one * c.0,
            cv == one * c.1,
            q == one * (one / 4),
            c.0 * c.0 + c.1 * c.1 <= (one / 4) * (one / 4),
    ;
    assert(q >= 0) by (nonlinear_arith)
        requires
            q == one * (one / 4),
            one > 0,
    ;
    lemma_triangle(u + eu, v + ev, cu, cv, m + 2 * one, q);
    let next = mandel_step(z, c);
    assert(v == 2 * x * y);
    assert(one * next.0 == (u + eu) + cu) by (nonlinear_arith)
        requires
            next.0 == fx + c.0,
            eu == one * fx - u,
            cu == one * c.0,
    ;
    assert(one * next.1 == (v + ev) + cv) by (nonlinear_arith)
        requires
            next.1 == fy + c.1,
            ev == one * fy - v,
            cv == one * c.1,
    ;
    // the bound fits the next radius
    let total = m + 2 * one + q;
    assert(r * r == (one / 2) * (one / 2) + 4 * n * one + 16 * n * n) by (nonlinear_arith)
        requires
            r == one / 2 + 4 * n,
            one == 1_008_000_000,
    ;
    assert(16 * n * n <= 2 * one) by (nonlinear_arith)
        requires
            0 <= n < 200,
            one == 1_008_000_000,
    ;
    assert(one * r2 == one * (one / 2) + 4 * n * one + 4 * one) by (nonlinear_arith)
        requires
            r2 == one / 2 + 4 * (n + 1),
    ;
    assert((one / 2) * (one / 2) + q == one * (one / 2)) by (nonlinear_arith)
        requires
            q == one * (one / 4),
            one == 1_008_000_000,
    ;
    assert(0 <= total <= one * r2);
    assert(total * total <= (one * r2) * (one * r2)) by (nonlinear_arith)
        requires
            0 <= total <= one * r2,
    ;
    let nx = next.0;
    let ny = next.1;
    assert((one * nx) * (one * nx) + (one * ny) * (one * ny) == (one * one) * (nx * nx + ny * ny))
        by (nonlinear_arith);
    assert((one * r2) * (one * r2) == (one * one) * (r2 * r2)) by (nonlinear_arith);
    assert(nx * nx + ny * ny <= r2 * r2) by (nonlinear_arith)
        requires
            (one * one) * (nx * nx + ny * ny) <= (one * one) * (r2 * r2),
            one * one > 0,
    ;
}

/// A point within the disc of an application has not escaped.
proof fn lemma_disc_is_inside(z: PF, n: int)
    requires
        0 <= n <= CAP,
        z.0 * z.0 + z.1 * z.1 <= disc_radius(n) * disc_radius(n),
    ensures
        !escaped(z),
{
    let r = disc_radius(n);
    assert(r * r <= 4 * ONE_SQUARED) by (nonlinear_arith)
        requires
            0 <= r <= 1_008_000_000,
    ;
}

/// From a point within the disc of the applications already made, the orbit
/// of a parameter of modulus at most a quarter never escapes.
pub proof fn lemma_disc_never_escapes(c: PF, z: PF, n: nat)
    requires
        n <= CAP,
        c.0 * c.0 + c.1 * c.1 <= (ONE / 4) * (ONE / 4),
        z.0 * z.0 + z.1 * z.1 <= disc_radius(n as int) * disc_radius(n as int),
    ensures
        escape_time(c, z, n) is None,
    decreases CAP - n,
{
    if n < CAP {
        lemma_disc_step(z, c, n as int);
        lemma_disc_is_inside(mandel_step(z, c), (n + 1) as int);
        lemma_disc_never_escapes(c, mandel_step(z, c), n + 1);
    }
}

/// Every point of the canvas whose parameter is within a quarter of zero is
/// black: the disc of radius a quarter round zero lies in the set.
pub proof fn lemma_mandelbrot_disc(c: CF, s: CU)
    requires
        ({
            let p = mandel_param(c, s);
            p.0 * p.0 + p.1 * p.1 <= (ONE / 4) * (ONE / 4)
        }),
    ensures
        mandelbrot_spec(c, s) == black(),
{
    assert(0 * 0 + 0 * 0 <= disc_radius(0) * disc_radius(0)) by (nonlinear_arith)
        requires
            disc_radius(0) >= 0,
    ;
    lemma_disc_never_escapes(mandel_param(c, s), (0, 0), 0);
}

/// A complex number of modulus at most two has both parts within two.
proof fn lemma_small_parts(z: PF)
    requires
        !escaped(z),
    ensures
        -2 * ONE <= z.0 <= 2 * ONE,
        -2 * ONE <= z.1 <= 2 * ONE,
{
    assert(-2 * ONE <= z.0 <= 2 * ONE) by (nonlinear_arith)
        requires
            z.0 * z.0 + z.1 * z.1 <= 4 * ONE * ONE,
    ;
    assert(-2 * ONE <= z.1 <= 2 * ONE) by (nonlinear_arith)
        requires
            z.0 * z.0 + z.1 * z.1 <= 4 * ONE * ONE,
    ;
}

/// The colour of a point that escapes after `n` applications.
pub fn escape_color_at(n: u32) -> (res: C)
    requires
        n < CAP,
    ensures
        res == escape_color(n as int),
        res.in_range(),
        res.continuous(),
{
    let h: (i64, i64, i64) = deg2rgb(HUE_START - (n as i64) * HUE_STEP);
    C::Float { r: (3 * h.0) / 5, g: (3 * h.1) / 5, b: (3 * h.2) / 5, a: ONE }
}

/// The colour of the Mandelbrot picture at the point `c` of a canvas of size
/// `s`.
pub fn mandelbrot_fragment(c: &CF, s: &CU) -> (res: C)
    requires
        in_unit_square(*c),
        s.0 >= 1,
        s.1 >= 1,
    ensures
        res == mandelbrot_spec(*c, *s),
        res.in_range(),
        res.continuous(),
{
    proof {
        lemma_keep_bounds(*c, *s, (1u16, 1u16), RCOrigin::Center);
    }
    let p: CF = rationalize_coord(c, s, (1, 1), RCOverflow::Keep, RCOrigin::Center).unwrap();
    let cc: CF = (p.0 - ONE / 2, p.1);
    let ghost cs: PF = (cc.0 as int, cc.1 as int);
    let mut z: CF = (0, 0);
    let mut n: u32 = 0;
    assert(!escaped((0, 0)));
    while n < CAP
        invariant
            n <= CAP,
            cs == (cc.0 as int, cc.1 as int),
            cs == mandel_param(*c, *s),
            -0x4000_0000_0000_0000 - ONE <= cc.0 <= 0x4000_0000_0000_0000,
            -0x4000_0000_0000_0000 <= cc.1 <= 0x4000_0000_0000_0000,
            !escaped((z.0 as int, z.1 as int)),
            escape_time(cs, (0, 0), 0) == escape_time(cs, (z.0 as int, z.1 as int), n as nat),
        decreases CAP - n,
    {
        proof {
            lemma_small_parts((z.0 as int, z.1 as int));
            assert(-4 * ONE * ONE <= z.0 * z.0 - z.1 * z.1 <= 4 * ONE * ONE) by (nonlinear_arith)
                requires
                    -2 * ONE <= z.0 <= 2 * ONE,
                    -2 * ONE <= z.1 <= 2 * ONE,
            ;
            assert(-8 * ONE * ONE <= 2 * z.0 * z.1 <= 8 * ONE * ONE) by (nonlinear_arith)
                requires
                    -2 * ONE <= z.0 <= 2 * ONE,
                    -2 * ONE <= z.1 <= 2 * ONE,
            ;
            crate::fixed::lemma_div_monotone(
                z.0 * z.0 - z.1 * z.1,
                4 * ONE * ONE,
                ONE as int,
            );
            crate::fixed::lemma_div_monotone(
                -4 * ONE * ONE,
                z.0 * z.0 - z.1 * z.1,
                ONE as int,
            );
            crate::fixed::lemma_div_monotone(2 * z.0 * z.1, 8 * ONE * ONE, ONE as int);
            crate::fixed::lemma_div_monotone(-8 * ONE * ONE, 2 * z.0 * z.1, ONE as int);
            crate::fixed::lemma_div_exact(4 * ONE, ONE as int);
            crate::fixed::lemma_div_exact(-4 * ONE, ONE as int);
            crate::fixed::lemma_div_exact(8 * ONE, ONE as int);
            crate::fixed::lemma_div_exact(-8 * ONE, ONE as int);
            assert(2 * z.0 * z.1 == 2 * (z.0 * z.1)) by (nonlinear_arith);
        }
        let re: i128 = div_floor(mul_wide(z.0, z.0) - mul_wide(z.1, z.1), ONE as i128) + (
        cc.0 as i128);
        let im: i128 = div_floor(2 * mul_wide(z.0, z.1), ONE as i128) + (cc.1 as i128);
        let next: CF = (re as i64, im as i64);
        assert((next.0 as int, next.1 as int) == mandel_step((z.0 as int, z.1 as int), cs));
        proof {
            assert(next.0 * next.0 <= 0x2000_0000_0000_0000_0000_0000_0000_0000)
                by (nonlinear_arith)
                requires
                    -0x5000_0000_0000_0000 <= next.0 <= 0x5000_0000_0000_0000,
            ;
            assert(next.1 * next.1 <= 0x2000_0000_0000_0000_0000_0000_0000_0000)
                by (nonlinear_arith)
                requires
                    -0x5000_0000_0000_0000 <= next.1 <= 0x5000_0000_0000_0000,
            ;
            assert(next.0 * next.0 >= 0) by (nonlinear_arith);
            assert(next.1 * next.1 >= 0) by (nonlinear_arith);
        }
        if mul_wide(next.0, next.0) + mul_wide(next.1, next.1) > 4 * mul_wide(ONE, ONE) {
            assert(escaped((next.0 as int, next.1 as int)));
            assert(escape_time(cs, (z.0 as int, z.1 as int), n as nat) == Some(n as nat));
            return escape_color_at(n);
        }
        z = next;
        n = n + 1;
    }
    C::GFloat { v: 0, a: ONE }
}

} // verus!
