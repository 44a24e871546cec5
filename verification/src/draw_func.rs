//! From pictures to pixels: the choice of the picture, the subpixel grid,
//! and the averaging of samples.

use vstd::prelude::*;
use crate::data::{DrawMode, Status, C};
use crate::draw_func_ansi::{ansi_fragment, ansi_spec};
use crate::draw_func_color::{color_fragment, color_spec};
use crate::draw_func_colorbar::{colorbar_fragment, colorbar_spec};
use crate::draw_func_mandelbrot::{mandelbrot_fragment, mandelbrot_spec};
use crate::draw_func_newton::{newton_fragment, newton_spec};
use crate::draw_lib::PF;
use crate::fixed::{
    div_floor, in_unit_square, lemma_div_exact, lemma_div_monotone, CF, CU, ONE,
};

verus! {

/// The colour that the picture of mode `dm` has at the point `c` of a canvas
/// of size `size`.
pub open spec fn fragment_spec(c: CF, size: CU, dm: DrawMode) -> C {
    match dm {
        DrawMode::Color(cs) => color_spec(c, size, cs),
        DrawMode::Colorbar(cbs) => colorbar_spec(c, size, cbs),
        DrawMode::Mandelbrot => mandelbrot_spec(c, size),
        DrawMode::NewtonApprox(nas) => newton_spec(c, size, nas),
        DrawMode::Ansi => ansi_spec(c, size),
    }
}

/// The colour of the active picture at one point of the canvas. Every point
/// of the unit square has a colour; a mode that supports supersampling gives
/// a continuous colour everywhere.
pub fn fragment(coord: CF, size: &CU, status: &Status) -> (res: C)
    requires
        in_unit_square(coord),
        size.0 >= 1,
        size.1 >= 1,
        status.draw_mode.wf(),
    ensures
        res == fragment_spec(coord, *size, status.draw_mode),
        res.in_range(),
        status.draw_mode.supports_aa() ==> res.continuous(),
        !(status.draw_mode is Ansi) ==> res.plain(),
{
    match &status.draw_mode {
        DrawMode::Color(cs) => color_fragment(&coord, size, cs),
        DrawMode::Colorbar(cbs) => colorbar_fragment(&coord, size, cbs),
        DrawMode::Mandelbrot => mandelbrot_fragment(&coord, size),
        DrawMode::NewtonApprox(nas) => newton_fragment(&coord, size, nas),
        DrawMode::Ansi => ansi_fragment(&coord, size),
    }
}

/// The largest offset, either way, that a subpixel may have.
pub const OFFSET_MAX: i64 = 0x4000_0000_0000_0000;

/// Both parts of the offset are within `OFFSET_MAX`.
pub open spec fn offset_fits(o: CF) -> bool {
    -OFFSET_MAX <= o.0 <= OFFSET_MAX && -OFFSET_MAX <= o.1 <= OFFSET_MAX
}

/// The point of the unit square at which pixel `(x, y)` of a grid of the
/// given size is sampled with subpixel offset `o`: the top left corner of the
/// pixel, moved by the offset.
pub open spec fn unify_point(x: u16, y: u16, size: CU, o: CF) -> PF {
    ((x * ONE) / (size.0 as int) + o.0, (y * ONE) / (size.1 as int) + o.1)
}

/// The sample point lies in the unit square.
pub open spec fn lands_in_unit(x: u16, y: u16, size: CU, o: CF) -> bool {
    let p = unify_point(x, y, size, o);
    0 <= p.0 <= ONE && 0 <= p.1 <= ONE
}

/// A specification point as a machine point.
pub open spec fn as_coord(p: PF) -> CF {
    (p.0 as i64, p.1 as i64)
}

/// The sample points of pixel `(x, y)`: one for each subpixel offset, in the
/// order of the offsets.
pub fn unify_coord(x: u16, y: u16, size: &CU, subpixels: &[CF]) -> (res: Vec<CF>)
    requires
        size.0 >= 1,
        size.1 >= 1,
        forall|i: int| 0 <= i < subpixels@.len() ==> offset_fits(#[trigger] subpixels@[i]),
    ensures
        res@.len() == subpixels@.len(),
        forall|i: int|
            0 <= i < res@.len() ==> (res@[i].0 as int, res@[i].1 as int) == unify_point(
                x,
                y,
                *size,
                #[trigger] subpixels@[i],
            ),
{
    let x0: i64 = ((x as i64) * ONE) / (size.0 as i64);
    let y0: i64 = ((y as i64) * ONE) / (size.1 as i64);
    let mut res: Vec<CF> = Vec::new();
    let mut i: usize = 0;
    while i < subpixels.len()
        invariant
            i <= subpixels@.len(),
            res@.len() == i,
            size.0 >= 1,
            size.1 >= 1,
            x0 == (x * ONE) / (size.0 as int),
            y0 == (y * ONE) / (size.1 as int),
            0 <= x0 <= 0xffff * ONE,
            0 <= y0 <= 0xffff * ONE,
            forall|k: int| 0 <= k < subpixels@.len() ==> offset_fits(#[trigger] subpixels@[k]),
            forall|k: int|
                0 <= k < i ==> (res@[k].0 as int, res@[k].1 as int) == unify_point(
                    x,
                    y,
                    *size,
                    #[trigger] subpixels@[k],
                ),
        decreases subpixels@.len() - i,
    {
        let o: CF = subpixels[i];
        assert(offset_fits(subpixels@[i as int]));
        res.push((x0 + o.0, y0 + o.1));
        i = i + 1;
    }
    res
}

/// The offset of step `i` of a regular grid that divides a pixel of a row of
/// `n` pixels into `aa` steps.
pub open spec fn grid_offset(i: int, n: int, aa: int) -> int {
    (i * ONE) / (n * aa)
}

/// How many subpixels a pixel has down its height: twice as many as across
/// where a sample stands for a cell twice as high as wide.
pub open spec fn rows_of(aa: u8, stretched: bool) -> int {
    if stretched {
        2 * aa
    } else {
        aa as int
    }
}

/// The subpixel offsets of supersampling level `aa` on a grid of the given
/// size.
///
/// Level zero samples once, at the centre of the pixel; where a sample
/// stands for a stretched cell, two pixels high, the centre is that of the
/// cell. A level of one or more lays a regular grid of `aa` columns over the
/// pixel, with `aa` rows, or `2 * aa` rows of the same spacing over a
/// stretched cell, starting at the top left corner and running down each
/// column in turn.
pub open spec fn subpixel_spec(aa: u8, size: CU, stretched: bool) -> Seq<PF> {
    if aa == 0 {
        seq![
            (
                ONE as int / (2 * size.0),
                if stretched {
                    ONE as int / (size.1 as int)
                } else {
                    ONE as int / (2 * size.1)
                },
            ),
        ]
    } else {
        let rows = rows_of(aa, stretched);
        Seq::new(
            (aa * rows) as nat,
            |k: int|
                (
                    grid_offset(k / rows, size.0 as int, aa as int),
                    grid_offset(k % rows, size.1 as int, aa as int),
                ),
        )
    }
}

/// The subpixel offsets as machine points.
pub open spec fn subpixel_coords(aa: u8, size: CU, stretched: bool) -> Seq<CF> {
    Seq::new(
        subpixel_spec(aa, size, stretched).len(),
        |k: int| as_coord(subpixel_spec(aa, size, stretched)[k]),
    )
}

/// A grid offset lies between zero and the step count over the row length.
pub proof fn lemma_grid_offset_bounds(i: int, n: int, aa: int)
    requires
        0 <= i <= 0xffff,
        1 <= n <= 0xffff,
        1 <= aa <= 0xff,
    ensures
        0 <= grid_offset(i, n, aa) <= i * ONE,
        0 < n * aa <= 0xffff * 0xff,
        0 <= i * ONE <= 0xffff * ONE,
{
    assert(0 < n * aa <= 0xffff * 0xff) by (nonlinear_arith)
        requires
            1 <= n <= 0xffff,
            1 <= aa <= 0xff,
    ;
    assert(0 <= i * ONE <= 0xffff * ONE) by (nonlinear_arith)
        requires
            0 <= i <= 0xffff,
    ;
    crate::fixed::lemma_div_bounds(i * ONE, n * aa);
}

/// The subpixel offsets of supersampling level `aa` on a grid of the given
/// size; `stretched` says that a sample stands for a cell two pixels high.
pub fn aa_subpixels(aa: u8, size: &CU, stretched: bool) -> (res: Vec<CF>)
    requires
        size.0 >= 1,
        size.1 >= 1,
    ensures
        res@.len() == subpixel_spec(aa, *size, stretched).len(),
        res@.len() >= 1,
        forall|k: int|
            0 <= k < res@.len() ==> (res@[k].0 as int, res@[k].1 as int) == subpixel_spec(
                aa,
                *size,
                stretched,
            )[k],
        forall|k: int| 0 <= k < res@.len() ==> offset_fits(#[trigger] res@[k]),
        res@ == subpixel_coords(aa, *size, stretched),
{
    let w: i64 = size.0 as i64;
    let h: i64 = size.1 as i64;
    let mut res: Vec<CF> = Vec::new();
    if aa == 0 {
        let dy: i64 = if stretched {
            ONE / h
        } else {
            ONE / (2 * h)
        };
        res.push((ONE / (2 * w), dy));
        assert(res@ =~= subpixel_coords(aa, *size, stretched));
        return res;
    }
    let cols: u16 = aa as u16;
    let rows: u16 = if stretched {
        2 * (aa as u16)
    } else {
        aa as u16
    };
    let ghost spec_seq = subpixel_spec(aa, *size, stretched);
    assert(spec_seq.len() == cols * rows);
    let mut i: u16 = 0;
    while i < cols
        invariant
            i <= cols,
            cols == aa,
            rows == rows_of(aa, stretched),
            1 <= aa,
            w == size.0,
            h == size.1,
            w >= 1,
            h >= 1,
            spec_seq == subpixel_spec(aa, *size, stretched),
            spec_seq.len() == cols * rows,
            res@.len() == i * rows,
            forall|k: int|
                0 <= k < res@.len() ==> (res@[k].0 as int, res@[k].1 as int) == spec_seq[k],
            forall|k: int| 0 <= k < res@.len() ==> offset_fits(#[trigger] res@[k]),
        decreases cols - i,
    {
        let mut j: u16 = 0;
        while j < rows
            invariant
                i < cols,
                j <= rows,
                cols == aa,
                rows == rows_of(aa, stretched),
                1 <= aa,
                w == size.0,
                h == size.1,
                w >= 1,
                h >= 1,
                spec_seq == subpixel_spec(aa, *size, stretched),
                spec_seq.len() == cols * rows,
                res@.len() == i * rows + j,
                forall|k: int|
                    0 <= k < res@.len() ==> (res@[k].0 as int, res@[k].1 as int) == spec_seq[k],
                forall|k: int| 0 <= k < res@.len() ==> offset_fits(#[trigger] res@[k]),
            decreases rows - j,
        {
            proof {
                lemma_grid_offset_bounds(i as int, w as int, aa as int);
                lemma_grid_offset_bounds(j as int, h as int, aa as int);
                let k = i * rows + j;
                vstd::arithmetic::div_mod::lemma_fundamental_div_mod_converse(
                    k as int,
                    rows as int,
                    i as int,
                    j as int,
                );
                assert(rows * i + j == i * rows + j) by (nonlinear_arith);
                assert(i * rows + j < cols * rows) by (nonlinear_arith)
                    requires
                        i < cols,
                        j < rows,
                ;
            }
            let dx: i64 = ((i as i64) * ONE) / (w * (aa as i64));
            let dy: i64 = ((j as i64) * ONE) / (h * (aa as i64));
            res.push((dx, dy));
            j = j + 1;
        }
        proof {
            assert(i * rows + rows == (i + 1) * rows) by (nonlinear_arith);
        }
        i = i + 1;
    }
    proof {
        assert(cols * rows >= 1) by (nonlinear_arith)
            requires
                cols >= 1,
                rows >= 1,
        ;
        assert(res@ =~= subpixel_coords(aa, *size, stretched));
    }
    res
}

/// A sample at step `q` of `m` steps per pixel, in pixel `p` of a row of `n`
/// pixels, lies before the end of the row.
pub proof fn lemma_sample_in_row(p: int, n: int, q: int, m: int)
    requires
        0 <= p,
        0 <= q,
        1 <= n,
        1 <= m,
        p * m + q < n * m,
    ensures
        0 <= (p * ONE) / n + (q * ONE) / (n * m) < ONE,
{
    let a = (p * ONE) / n;
    let b = (q * ONE) / (n * m);
    assert(n * m >= 1) by (nonlinear_arith)
        requires
            n >= 1,
            m >= 1,
    ;
    assert(p * ONE >= 0 && q * ONE >= 0) by (nonlinear_arith)
        requires
            p >= 0,
            q >= 0,
    ;
    crate::fixed::lemma_div_bounds(p * ONE, n);
    crate::fixed::lemma_div_bounds(q * ONE, n * m);
    vstd::arithmetic::div_mod::lemma_fundamental_div_mod(p * ONE, n);
    vstd::arithmetic::div_mod::lemma_fundamental_div_mod(q * ONE, n * m);
    vstd::arithmetic::div_mod::lemma_mod_bound(p * ONE, n);
    vstd::arithmetic::div_mod::lemma_mod_bound(q * ONE, n * m);
    assert(a + b < ONE) by (nonlinear_arith)
        requires
            n * a <= p * ONE,
            (n * m) * b <= q * ONE,
            p * m + q < n * m,
            n >= 1,
            m >= 1,
            a >= 0,
            b >= 0,
    ;
}

/// Every sample point that `subpixel_spec` gives to a pixel of the grid lies
/// in the unit square; where a sample stands for a stretched cell, the pixel
/// below must be on the grid too.
pub proof fn lemma_subpixels_land(aa: u8, size: CU, stretched: bool, x: u16, y: u16, k: int)
    requires
        size.0 >= 1,
        size.1 >= 1,
        x < size.0,
        y < size.1,
        stretched ==> y + 1 < size.1,
        0 <= k < subpixel_spec(aa, size, stretched).len(),
    ensures
        lands_in_unit(x, y, size, as_coord(subpixel_spec(aa, size, stretched)[k])),
        offset_fits(as_coord(subpixel_spec(aa, size, stretched)[k])),
        0 <= subpixel_spec(aa, size, stretched)[k].0 <= ONE,
        0 <= subpixel_spec(aa, size, stretched)[k].1 <= 2 * ONE,
{
    let w = size.0 as int;
    let h = size.1 as int;
    if aa == 0 {
        lemma_sample_in_row(x as int, w, 1, 2);
        assert(1 * ONE == ONE);
        assert(w * 2 == 2 * w);
        if stretched {
            lemma_sample_in_row(y as int, h, 1, 1);
            assert(h * 1 == h);
        } else {
            lemma_sample_in_row(y as int, h, 1, 2);
            assert(h * 2 == 2 * h);
        }
        crate::fixed::lemma_div_bounds(ONE as int, 2 * w);
        crate::fixed::lemma_div_bounds(ONE as int, h);
        crate::fixed::lemma_div_bounds(ONE as int, 2 * h);
    } else {
        let rows = rows_of(aa, stretched);
        let i = k / rows;
        let j = k % rows;
        vstd::arithmetic::div_mod::lemma_fundamental_div_mod(k, rows);
        vstd::arithmetic::div_mod::lemma_mod_bound(k, rows);
        crate::fixed::lemma_div_bounds(k, rows);
        assert(i < aa) by (nonlinear_arith)
            requires
                k < aa * rows,
                k == rows * i + j,
                0 <= j,
                rows >= 1,
        ;
        assert(x * aa + i < w * aa) by (nonlinear_arith)
            requires
                x + 1 <= w,
                0 <= i < aa,
        ;
        assert(y * aa + j < h * aa) by (nonlinear_arith)
            requires
                y + 1 <= h,
                stretched ==> y + 2 <= h,
                0 <= j < rows,
                rows == if stretched { 2 * aa } else { aa as int },
        ;
        lemma_sample_in_row(x as int, w, i, aa as int);
        lemma_sample_in_row(y as int, h, j, aa as int);
        lemma_grid_offset_bounds(i, w, aa as int);
        lemma_grid_offset_bounds(j, h, aa as int);
        assert(i * ONE < ONE * (w * aa)) by (nonlinear_arith)
            requires
                0 <= i < aa,
                w >= 1,
        ;
        assert(j * ONE < (2 * ONE) * (h * aa)) by (nonlinear_arith)
            requires
                0 <= j < 2 * aa,
                h >= 1,
        ;
        lemma_div_exact(ONE as int, w * aa);
        lemma_div_exact(2 * ONE, h * aa);
        lemma_div_monotone(i * ONE, ONE * (w * aa), w * aa);
        lemma_div_monotone(j * ONE, (2 * ONE) * (h * aa), h * aa);
    }
}

/// One of the four channels of a colour as it enters an average: red, green,
/// blue and alpha are numbered 0 to 3, and a grey counts as all three colours
/// alike. A colour that is not continuous has no channels.
pub open spec fn channel(c: C, ch: int) -> int {
    match c {
        C::Float { r, g, b, a } => if ch == 0 {
            r as int
        } else if ch == 1 {
            g as int
        } else if ch == 2 {
            b as int
        } else {
            a as int
        },
        C::GFloat { v, a } => if ch == 3 {
            a as int
        } else {
            v as int
        },
        _ => 0,
    }
}

/// The sum of one channel over a sequence of colours.
pub open spec fn channel_sum(samples: Seq<C>, ch: int) -> int
    decreases samples.len(),
{
    if samples.len() == 0 {
        0
    } else {
        channel_sum(samples.drop_last(), ch) + channel(samples.last(), ch)
    }
}

/// The arithmetic mean of a sequence of continuous colours, channel by
/// channel: the sum divided by the count, rounded down.
pub open spec fn mean_color(samples: Seq<C>) -> C {
    let n = samples.len() as int;
    C::Float {
        r: (channel_sum(samples, 0) / n) as i64,
        g: (channel_sum(samples, 1) / n) as i64,
        b: (channel_sum(samples, 2) / n) as i64,
        a: (channel_sum(samples, 3) / n) as i64,
    }
}

/// The colours of the picture at the sample points of pixel `(x, y)`.
pub open spec fn samples_spec(x: u16, y: u16, size: CU, dm: DrawMode, sub: Seq<CF>) -> Seq<C> {
    Seq::new(sub.len(), |i: int| fragment_spec(as_coord(unify_point(x, y, size, sub[i])), size, dm))
}

/// The colour of pixel `(x, y)`: without supersampling the colour at the
/// first sample point, with it the mean over all sample points.
pub open spec fn get_color_spec(x: u16, y: u16, size: CU, s: Status, sub: Seq<CF>) -> C {
    let samples = samples_spec(x, y, size, s.draw_mode, sub);
    if s.aa == 0 {
        samples[0]
    } else {
        mean_color(samples)
    }
}

/// The sum of a channel over equal colours is the count times the channel.
pub proof fn lemma_channel_sum_constant(samples: Seq<C>, c: C, ch: int)
    requires
        forall|i: int| 0 <= i < samples.len() ==> #[trigger] samples[i] == c,
    ensures
        channel_sum(samples, ch) == samples.len() * channel(c, ch),
    decreases samples.len(),
{
    if samples.len() > 0 {
        lemma_channel_sum_constant(samples.drop_last(), c, ch);
        assert(samples.last() == c);
        assert((samples.len() - 1) * channel(c, ch) + channel(c, ch) == samples.len() * channel(
            c,
            ch,
        )) by (nonlinear_arith);
    } else {
        assert(samples.len() * channel(c, ch) == 0) by (nonlinear_arith)
            requires
                samples.len() == 0,
        ;
    }
}

/// The mean of equal samples is the sample: averaging one continuous colour
/// with itself any number of times gives back that colour exactly, a grey as
/// the same grey in three channels.
pub proof fn lemma_mean_of_constant(samples: Seq<C>, c: C)
    requires
        samples.len() > 0,
        c.continuous(),
        forall|i: int| 0 <= i < samples.len() ==> #[trigger] samples[i] == c,
    ensures
        mean_color(samples) == (C::Float {
            r: channel(c, 0) as i64,
            g: channel(c, 1) as i64,
            b: channel(c, 2) as i64,
            a: channel(c, 3) as i64,
        }),
        c is Float ==> mean_color(samples) == c,
{
    let n = samples.len() as int;
    lemma_channel_sum_constant(samples, c, 0);
    lemma_channel_sum_constant(samples, c, 1);
    lemma_channel_sum_constant(samples, c, 2);
    lemma_channel_sum_constant(samples, c, 3);
    lemma_div_exact(channel(c, 0), n);
    lemma_div_exact(channel(c, 1), n);
    lemma_div_exact(channel(c, 2), n);
    lemma_div_exact(channel(c, 3), n);
    assert(n * channel(c, 0) == channel(c, 0) * n) by (nonlinear_arith);
    assert(n * channel(c, 1) == channel(c, 1) * n) by (nonlinear_arith);
    assert(n * channel(c, 2) == channel(c, 2) * n) by (nonlinear_arith);
    assert(n * channel(c, 3) == channel(c, 3) * n) by (nonlinear_arith);
}

/// Taking one colour out of a sequence takes its channel out of the sum.
pub proof fn lemma_channel_sum_remove(samples: Seq<C>, j: int, ch: int)
    requires
        0 <= j < samples.len(),
    ensures
        channel_sum(samples, ch) == channel_sum(samples.remove(j), ch) + channel(samples[j], ch),
    decreases samples.len(),
{
    if j == samples.len() - 1 {
        assert(samples.remove(j) =~= samples.drop_last());
    } else {
        lemma_channel_sum_remove(samples.drop_last(), j, ch);
        assert(samples.remove(j).drop_last() =~= samples.drop_last().remove(j));
        assert(samples.remove(j).last() == samples.last());
    }
}

/// The sum of a channel does not depend on the order of the colours.
pub proof fn lemma_channel_sum_order_free(a: Seq<C>, b: Seq<C>, ch: int)
    requires
        a.to_multiset() == b.to_multiset(),
    ensures
        channel_sum(a, ch) == channel_sum(b, ch),
    decreases a.len(),
{
    a.to_multiset_ensures();
    b.to_multiset_ensures();
    if a.len() > 0 {
        let x = a.last();
        assert(a.contains(x));
        assert(a.to_multiset().count(x) > 0);
        assert(b.to_multiset().count(x) > 0);
        assert(b.contains(x));
        let j = choose|j: int| 0 <= j < b.len() && b[j] == x;
        assert(a.remove(a.len() - 1) =~= a.drop_last());
        vstd::seq_lib::to_multiset_remove(a, a.len() - 1);
        vstd::seq_lib::to_multiset_remove(b, j);
        lemma_channel_sum_order_free(a.drop_last(), b.remove(j), ch);
        lemma_channel_sum_remove(b, j, ch);
    }
}

/// The mean of a sequence of colours does not depend on their order: two
/// sequences that hold the same colours the same number of times have the
/// same mean.
pub proof fn lemma_mean_order_free(a: Seq<C>, b: Seq<C>)
    requires
        a.to_multiset() == b.to_multiset(),
    ensures
        mean_color(a) == mean_color(b),
{
    a.to_multiset_ensures();
    b.to_multiset_ensures();
    lemma_channel_sum_order_free(a, b, 0);
    lemma_channel_sum_order_free(a, b, 1);
    lemma_channel_sum_order_free(a, b, 2);
    lemma_channel_sum_order_free(a, b, 3);
}

/// Supersampling a picture that has one continuous colour at every sample
/// point of a pixel gives that colour for the pixel, exactly.
pub proof fn lemma_constant_picture(x: u16, y: u16, size: CU, s: Status, sub: Seq<CF>, c: C)
    requires
        s.aa > 0,
        sub.len() > 0,
        c is Float,
        forall|i: int|
            0 <= i < sub.len() ==> fragment_spec(
                as_coord(unify_point(x, y, size, #[trigger] sub[i])),
                size,
                s.draw_mode,
            ) == c,
    ensures
        get_color_spec(x, y, size, s, sub) == c,
{
    let samples = samples_spec(x, y, size, s.draw_mode, sub);
    assert forall|i: int| 0 <= i < samples.len() implies #[trigger] samples[i] == c by {
        assert(samples[i] == fragment_spec(
            as_coord(unify_point(x, y, size, sub[i])),
            size,
            s.draw_mode,
        ));
    }
    lemma_mean_of_constant(samples, c);
}

/// The four channels that a continuous colour contributes to an average.
fn channels_of(c: C) -> (res: (i64, i64, i64, i64))
    requires
        c.continuous(),
    ensures
        res.0 == channel(c, 0),
        res.1 == channel(c, 1),
        res.2 == channel(c, 2),
        res.3 == channel(c, 3),
{
    match c {
        C::Float { r, g, b, a } => (r, g, b, a),
        C::GFloat { v, a } => (v, v, v, a),
        _ => (0, 0, 0, 0),
    }
}

/// The four channels of the picture at one sample point, for a mode that
/// supports supersampling.
fn sample_channels(coord: CF, size: &CU, s: &Status) -> (res: (i64, i64, i64, i64))
    requires
        in_unit_square(coord),
        size.0 >= 1,
        size.1 >= 1,
        s.draw_mode.wf(),
        s.draw_mode.supports_aa(),
    ensures
        res.0 == channel(fragment_spec(coord, *size, s.draw_mode), 0),
        res.1 == channel(fragment_spec(coord, *size, s.draw_mode), 1),
        res.2 == channel(fragment_spec(coord, *size, s.draw_mode), 2),
        res.3 == channel(fragment_spec(coord, *size, s.draw_mode), 3),
        0 <= res.0 <= ONE,
        0 <= res.1 <= ONE,
        0 <= res.2 <= ONE,
        0 <= res.3 <= ONE,
{
    channels_of(fragment(coord, size, s))
}

/// The colour of pixel `(x, y)` of a grid of the given size.
///
/// The picture is evaluated at the sample point of every subpixel offset.
/// Without supersampling the first sample is the colour. With it, the colour
/// is the mean of all samples, channel by channel, each sample counting the
/// same, so the order of the samples does not matter.
pub fn get_color(x: u16, y: u16, size: &CU, s: &Status, subpixels: &[CF]) -> (res: C)
    requires
        size.0 >= 1,
        size.1 >= 1,
        s.draw_mode.wf(),
        s.aa > 0 ==> s.draw_mode.supports_aa(),
        subpixels@.len() >= 1,
        forall|i: int| 0 <= i < subpixels@.len() ==> offset_fits(#[trigger] subpixels@[i]),
        forall|i: int|
            0 <= i < subpixels@.len() ==> lands_in_unit(x, y, *size, #[trigger] subpixels@[i]),
    ensures
        res == get_color_spec(x, y, *size, *s, subpixels@),
        res.in_range(),
        s.aa > 0 ==> res is Float,
        !(s.draw_mode is Ansi) ==> res.plain(),
{
    let coords: Vec<CF> = unify_coord(x, y, size, subpixels);
    let ghost samples = samples_spec(x, y, *size, s.draw_mode, subpixels@);
    assert(lands_in_unit(x, y, *size, subpixels@[0]));
    assert forall|k: int| 0 <= k < coords@.len() implies in_unit_square(#[trigger] coords@[k])
        && samples[k] == fragment_spec(coords@[k], *size, s.draw_mode) by {
        assert(lands_in_unit(x, y, *size, subpixels@[k]));
        assert(as_coord(unify_point(x, y, *size, subpixels@[k])) == coords@[k]);
    }
    if s.aa == 0 {
        return fragment(coords[0], size, s);
    }
    let n: usize = coords.len();
    let mut sum: (i128, i128, i128, i128) = (0, 0, 0, 0);
    let mut i: usize = 0;
    assert(samples.take(0) =~= Seq::<C>::empty());
    while i < n
        invariant
            i <= n,
            n == coords@.len(),
            n == samples.len(),
            size.0 >= 1,
            size.1 >= 1,
            s.draw_mode.wf(),
            s.draw_mode.supports_aa(),
            forall|k: int|
                0 <= k < n ==> in_unit_square(#[trigger] coords@[k]) && samples[k]
                    == fragment_spec(coords@[k], *size, s.draw_mode),
            sum.0 == channel_sum(samples.take(i as int), 0),
            sum.1 == channel_sum(samples.take(i as int), 1),
            sum.2 == channel_sum(samples.take(i as int), 2),
            sum.3 == channel_sum(samples.take(i as int), 3),
            0 <= sum.0 <= i * ONE,
            0 <= sum.1 <= i * ONE,
            0 <= sum.2 <= i * ONE,
            0 <= sum.3 <= i * ONE,
        decreases n - i,
    {
        let ch: (i64, i64, i64, i64) = sample_channels(coords[i], size, s);
        proof {
            assert(samples.take(i + 1).drop_last() =~= samples.take(i as int));
            assert(samples.take(i + 1).last() == samples[i as int]);
            assert(i * ONE + ONE == (i + 1) * ONE) by (nonlinear_arith);
            assert(i * ONE <= 0x1_0000_0000_0000_0000 * ONE) by (nonlinear_arith)
                requires
                    i <= 0x1_0000_0000_0000_0000,
            ;
        }
        sum = (
            sum.0 + (ch.0 as i128),
            sum.1 + (ch.1 as i128),
            sum.2 + (ch.2 as i128),
            sum.3 + (ch.3 as i128),
        );
        i = i + 1;
    }
    proof {
        assert(samples.take(n as int) =~= samples);
        lemma_div_exact(ONE as int, n as int);
        lemma_div_monotone(sum.0 as int, ONE * n, n as int);
        lemma_div_monotone(sum.1 as int, ONE * n, n as int);
        lemma_div_monotone(sum.2 as int, ONE * n, n as int);
        lemma_div_monotone(sum.3 as int, ONE * n, n as int);
        lemma_div_monotone(0, sum.0 as int, n as int);
        lemma_div_monotone(0, sum.1 as int, n as int);
        lemma_div_monotone(0, sum.2 as int, n as int);
        lemma_div_monotone(0, sum.3 as int, n as int);
        assert(n * ONE == ONE * n) by (nonlinear_arith);
    }
    let d: i128 = n as i128;
    C::Float {
        r: div_floor(sum.0, d) as i64,
        g: div_floor(sum.1, d) as i64,
        b: div_floor(sum.2, d) as i64,
        a: div_floor(sum.3, d) as i64,
    }
}

/// The colour of pixel `(x, y)` of a picture rendered at the given size,
/// sampled with the given offsets, which are those of the size.
pub fn pixel_color(x: u16, y: u16, s: &Status, size: &CU, subpixels: &[CF]) -> (res: C)
    requires
        size.0 >= 1,
        size.1 >= 1,
        x < size.0,
        y < size.1,
        s.draw_mode.wf(),
        s.aa > 0 ==> s.draw_mode.supports_aa(),
        subpixels@ == subpixel_coords(s.aa, *size, false),
    ensures
        res == get_color_spec(x, y, *size, *s, subpixel_coords(s.aa, *size, false)),
        res.in_range(),
        s.aa > 0 ==> res is Float,
        !(s.draw_mode is Ansi) ==> res.plain(),
{
    proof {
        assert forall|k: int| 0 <= k < subpixels@.len() implies offset_fits(
            #[trigger] subpixels@[k],
        ) && lands_in_unit(x, y, *size, subpixels@[k]) by {
            lemma_subpixels_land(s.aa, *size, false, x, y, k);
        }
        lemma_subpixels_exist(s.aa, *size, false);
    }
    get_color(x, y, size, s, subpixels)
}

/// Every level has at least one subpixel.
pub proof fn lemma_subpixels_exist(aa: u8, size: CU, stretched: bool)
    ensures
        subpixel_spec(aa, size, stretched).len() >= 1,
        subpixel_coords(aa, size, stretched).len() >= 1,
{
    if aa > 0 {
        assert(aa * rows_of(aa, stretched) >= 1) by (nonlinear_arith)
            requires
                aa >= 1,
                rows_of(aa, stretched) >= 1,
        ;
    }
}

/// The picture as a grid of colours: one colour to a pixel, the pixels row
/// by row from the top and from left to right in each row.
pub open spec fn render_spec(s: Status, size: CU) -> Seq<C> {
    Seq::new(
        (size.1 * size.0) as nat,
        |i: int|
            get_color_spec(
                (i % (size.0 as int)) as u16,
                (i / (size.0 as int)) as u16,
                size,
                s,
                subpixel_coords(s.aa, size, false),
            ),
    )
}

/// Renders the picture of the session on a grid of the given size, with the
/// supersampling level of the session.
pub fn render(s: &Status, size: &CU) -> (res: Vec<C>)
    requires
        size.0 >= 1,
        size.1 >= 1,
        s.draw_mode.wf(),
        s.aa > 0 ==> s.draw_mode.supports_aa(),
    ensures
        res@ == render_spec(*s, *size),
{
    let w: u16 = size.0;
    let h: u16 = size.1;
    let subpixels: Vec<CF> = aa_subpixels(s.aa, size, false);
    let mut grid: Vec<C> = Vec::new();
    let mut y: u16 = 0;
    while y < h
        invariant
            w == size.0,
            h == size.1,
            w >= 1,
            y <= h,
            s.draw_mode.wf(),
            s.aa > 0 ==> s.draw_mode.supports_aa(),
            subpixels@ == subpixel_coords(s.aa, *size, false),
            grid@.len() == y * w,
            forall|i: int| 0 <= i < grid@.len() ==> grid@[i] == render_spec(*s, *size)[i],
        decreases h - y,
    {
        let mut x: u16 = 0;
        while x < w
            invariant
                w == size.0,
                h == size.1,
                w >= 1,
                y < h,
                x <= w,
                s.draw_mode.wf(),
                s.aa > 0 ==> s.draw_mode.supports_aa(),
                subpixels@ == subpixel_coords(s.aa, *size, false),
                grid@.len() == y * w + x,
                forall|i: int| 0 <= i < grid@.len() ==> grid@[i] == render_spec(*s, *size)[i],
            decreases w - x,
        {
            let c: C = pixel_color(x, y, s, size, subpixels.as_slice());
            proof {
                let n = y * w + x;
                vstd::arithmetic::div_mod::lemma_fundamental_div_mod_converse(
                    n as int,
                    w as int,
                    y as int,
                    x as int,
                );
                assert(w * y + x == y * w + x) by (nonlinear_arith);
                assert(y * w + x < h * w) by (nonlinear_arith)
                    requires
                        y < h,
                        x < w,
                ;
            }
            grid.push(c);
            x = x + 1;
        }
        proof {
            assert(y * w + w == (y + 1) * w) by (nonlinear_arith);
        }
        y = y + 1;
    }
    assert(grid@ =~= render_spec(*s, *size));
    grid
}

} // verus!
