//! The broadcast colour bars: the analogue pattern of seven bars and the
//! digital one with its ramp and calibration blocks.

use vstd::prelude::*;
use crate::data::{CBSMode, ColorbarStatus, C};
use crate::draw_lib::{
    keep_point, lemma_repeat_nominal, rationalize_coord, rationalize_spec, RCOrigin, RCOverflow,
    PF,
};
use crate::fixed::{in_unit_square, CENT, CF, CU, ONE};

verus! {

/// The native aspect ratio of a bar pattern.
pub open spec fn bar_ratio(mode: CBSMode) -> CU {
    match mode {
        CBSMode::SMPTE => (4u16, 3u16),
        CBSMode::ARIB => (16u16, 9u16),
    }
}

/// The overflow policy of a bar pattern: tiled when it repeats, letterboxed
/// when it does not.
pub open spec fn bar_overflow(repeat: bool) -> RCOverflow {
    if repeat {
        RCOverflow::Repeat
    } else {
        RCOverflow::Discard
    }
}

/// An opaque 8-bit colour.
pub open spec fn rgb8(r: u8, g: u8, b: u8) -> C {
    C::Int { r, g, b, a: 255 }
}

/// An opaque continuous colour given in hundredths.
pub open spec fn pct(r: int, g: int, b: int) -> C {
    C::Float {
        r: (r * CENT) as i64,
        g: (g * CENT) as i64,
        b: (b * CENT) as i64,
        a: ONE,
    }
}

/// The band of the analogue pattern at height `y`: the tall bars fill the
/// top two thirds, a thin strip of reversed bars the next twelfth, and the
/// calibration blocks the bottom quarter.
pub open spec fn smpte_row(y: int) -> int {
    let t = (12 * y) / (ONE as int);
    if t <= 7 {
        0
    } else if t == 8 {
        1
    } else {
        2
    }
}

/// The column of the analogue pattern at `x` in band `row`. The two upper
/// bands have seven equal bars. The bottom band has four blocks of five
/// twenty-eighths each under the first five bars, three narrow stripes under
/// the sixth, and one block under the seventh. The right edge itself belongs
/// to no column (`None`).
pub open spec fn smpte_col(x: int, row: int) -> Option<int> {
    let k = (7 * x) / (ONE as int);
    if row != 2 {
        Some(k)
    } else if k <= 4 {
        Some(((28 * x) / (ONE as int)) / 5)
    } else if k == 5 {
        Some((21 * x) / (ONE as int) - 11)
    } else if k == 6 {
        Some(7)
    } else {
        None
    }
}

/// The swatch in column `col` of band `row` of the analogue pattern.
pub open spec fn smpte_swatch(col: int, row: int) -> C {
    if row == 0 {
        if col == 0 {
            rgb8(204, 204, 204)
        } else if col == 1 {
            rgb8(255, 255, 0)
        } else if col == 2 {
            rgb8(0, 255, 255)
        } else if col == 3 {
            rgb8(0, 255, 1)
        } else if col == 4 {
            rgb8(255, 0, 254)
        } else if col == 5 {
            rgb8(254, 0, 0)
        } else if col == 6 {
            rgb8(0, 0, 254)
        } else {
            C::Unset
        }
    } else if row == 1 {
        if col == 0 {
            rgb8(0, 0, 254)
        } else if col == 2 {
            rgb8(255, 0, 254)
        } else if col == 4 {
            rgb8(0, 255, 255)
        } else if col == 6 {
            rgb8(204, 204, 204)
        } else if col == 1 || col == 3 || col == 5 {
            rgb8(19, 19, 19)
        } else {
            C::Unset
        }
    } else {
        if col == 0 {
            rgb8(8, 62, 90)
        } else if col == 1 {
            rgb8(255, 255, 255)
        } else if col == 2 {
            rgb8(59, 0, 126)
        } else if col == 4 {
            rgb8(0, 0, 0)
        } else if col == 6 {
            rgb8(38, 38, 38)
        } else if col == 3 || col == 5 || col == 7 {
            rgb8(19, 19, 19)
        } else {
            C::Unset
        }
    }
}

/// The analogue bar pattern at the point `p` of its own unit square.
pub open spec fn smpte_spec(p: PF) -> C {
    let row = smpte_row(p.1);
    match smpte_col(p.0, row) {
        Some(col) => smpte_swatch(col, row),
        None => C::Unset,
    }
}

/// The band of the digital pattern at height `y`: the bars fill the top
/// seven twelfths, then come two strips of one twelfth each, and the
/// calibration blocks fill the bottom quarter.
pub open spec fn arib_row(y: int) -> int {
    let t = (12 * y) / (ONE as int);
    if t <= 6 {
        0
    } else if t == 7 {
        1
    } else if t == 8 {
        2
    } else {
        3
    }
}

/// The column of the digital pattern at `x` in band `row`, or `None` on the
/// two outer edges. Column 0 is the left eighth, column 1 the right eighth.
/// The three quarters between are numbered from 2: seven equal bars in the
/// top band; a first seventh and the rest in the second; one ramp in the
/// third; and in the bottom band blocks of three, four and one fourteenths, six
/// narrow stripes of a third of a seventh each, and a last seventh.
pub open spec fn arib_col(x: int, row: int) -> Option<int> {
    let u = 8 * x - ONE;
    if x <= 0 || x >= ONE {
        None
    } else if 8 * x <= ONE {
        Some(0)
    } else if 8 * x >= 7 * ONE {
        Some(1)
    } else if row == 0 {
        Some(2 + ((7 * u) / (ONE as int)) / 6)
    } else if row == 1 {
        if 7 * u >= 6 * ONE { Some(3) } else { Some(2) }
    } else if row == 2 {
        Some(2)
    } else {
        let k = ((7 * u) / (ONE as int)) / 6;
        if k <= 3 {
            let h = ((14 * u) / (ONE as int)) / 6;
            if h <= 2 { Some(2) } else if h <= 6 { Some(3) } else { Some(4) }
        } else if k <= 5 {
            Some(((21 * u) / (ONE as int)) / 6 - 8)
        } else {
            Some(10)
        }
    }
}

/// The swatch in column `col` of band `row` of the digital pattern; `x` is
/// needed for the ramp, which rises linearly from black at the left eighth
/// to white at the right eighth.
pub open spec fn arib_swatch(col: int, row: int, x: int) -> C {
    if col == 0 || col == 1 {
        if row == 0 {
            pct(40, 40, 40)
        } else if row == 1 {
            if col == 0 { pct(0, 100, 100) } else { pct(0, 0, 100) }
        } else if row == 2 {
            if col == 0 { pct(100, 100, 0) } else { pct(100, 0, 0) }
        } else {
            pct(15, 15, 15)
        }
    } else if row == 0 {
        if col == 2 {
            pct(75, 75, 75)
        } else if col == 3 {
            pct(75, 75, 0)
        } else if col == 4 {
            pct(0, 75, 75)
        } else if col == 5 {
            pct(0, 75, 0)
        } else if col == 6 {
            pct(75, 0, 75)
        } else if col == 7 {
            pct(75, 0, 0)
        } else if col == 8 {
            pct(0, 0, 75)
        } else {
            C::Unset
        }
    } else if row == 1 {
        if col == 2 {
            pct(100, 100, 100)
        } else if col == 3 {
            pct(75, 75, 75)
        } else {
            C::Unset
        }
    } else if row == 2 {
        if col == 2 {
            C::GFloat { v: ((8 * x - ONE) / 6) as i64, a: ONE }
        } else {
            C::Unset
        }
    } else {
        if col == 3 {
            pct(100, 100, 100)
        } else if col == 7 {
            pct(2, 2, 2)
        } else if col == 9 {
            pct(4, 4, 4)
        } else if 2 <= col <= 10 {
            pct(0, 0, 0)
        } else {
            C::Unset
        }
    }
}

/// The digital bar pattern at the point `p` of its own unit square.
pub open spec fn arib_spec(p: PF) -> C {
    let row = arib_row(p.1);
    match arib_col(p.0, row) {
        Some(col) => arib_swatch(col, row, p.0),
        None => C::Unset,
    }
}

/// The bar pattern of the given kind at the point `p` of its own unit square.
pub open spec fn bar_spec(p: PF, mode: CBSMode) -> C {
    match mode {
        CBSMode::SMPTE => smpte_spec(p),
        CBSMode::ARIB => arib_spec(p),
    }
}

/// The colour of a bar picture at the point `c` of a canvas of size `s`:
/// nothing outside the letterbox, else the swatch at the rationalised point.
pub open spec fn colorbar_spec(c: CF, s: CU, cbs: ColorbarStatus) -> C {
    match rationalize_spec(c, s, bar_ratio(cbs.mode), bar_overflow(cbs.repeat), RCOrigin::TopLeft) {
        Some(p) => bar_spec(p, cbs.mode),
        None => C::Unset,
    }
}

/// A tiled bar picture repeats with the period of the pattern: two points of
/// the canvas whose unwrapped positions differ by whole pattern widths and
/// heights show the same swatch.
pub proof fn lemma_colorbar_periodic(
    c1: CF,
    c2: CF,
    s: CU,
    cbs: ColorbarStatus,
    kx: int,
    ky: int,
)
    requires
        cbs.repeat,
        keep_point(c2, s, bar_ratio(cbs.mode), RCOrigin::TopLeft).0 == keep_point(
            c1,
            s,
            bar_ratio(cbs.mode),
            RCOrigin::TopLeft,
        ).0 + kx * ONE,
        keep_point(c2, s, bar_ratio(cbs.mode), RCOrigin::TopLeft).1 == keep_point(
            c1,
            s,
            bar_ratio(cbs.mode),
            RCOrigin::TopLeft,
        ).1 + ky * ONE,
    ensures
        colorbar_spec(c1, s, cbs) == colorbar_spec(c2, s, cbs),
{
    let k1 = keep_point(c1, s, bar_ratio(cbs.mode), RCOrigin::TopLeft);
    vstd::arithmetic::div_mod::lemma_mod_multiples_vanish(kx, k1.0, ONE as int);
    vstd::arithmetic::div_mod::lemma_mod_multiples_vanish(ky, k1.1, ONE as int);
    assert(ONE * kx + k1.0 == k1.0 + kx * ONE) by (nonlinear_arith);
    assert(ONE * ky + k1.1 == k1.1 + ky * ONE) by (nonlinear_arith);
}

fn rgb8_at(r: u8, g: u8, b: u8) -> (res: C)
    ensures
        res == rgb8(r, g, b),
        res.plain(),
{
    C::Int { r, g, b, a: 255 }
}

fn pct_at(r: u8, g: u8, b: u8) -> (res: C)
    requires
        r <= 100,
        g <= 100,
        b <= 100,
    ensures
        res == pct(r as int, g as int, b as int),
        res.in_range(),
        res.plain(),
{
    C::Float {
        r: (r as i64) * CENT,
        g: (g as i64) * CENT,
        b: (b as i64) * CENT,
        a: ONE,
    }
}

fn smpte_swatch_at(col: i64, row: u8) -> (res: C)
    ensures
        res == smpte_swatch(col as int, row as int),
        res.in_range(),
        res.plain(),
{
    if row == 0 {
        match col {
            0 => rgb8_at(204, 204, 204),
            1 => rgb8_at(255, 255, 0),
            2 => rgb8_at(0, 255, 255),
            3 => rgb8_at(0, 255, 1),
            4 => rgb8_at(255, 0, 254),
            5 => rgb8_at(254, 0, 0),
            6 => rgb8_at(0, 0, 254),
            _ => C::Unset,
        }
    } else if row == 1 {
        match col {
            0 => rgb8_at(0, 0, 254),
            2 => rgb8_at(255, 0, 254),
            4 => rgb8_at(0, 255, 255),
            6 => rgb8_at(204, 204, 204),
            1 | 3 | 5 => rgb8_at(19, 19, 19),
            _ => C::Unset,
        }
    } else {
        match col {
            0 => rgb8_at(8, 62, 90),
            1 => rgb8_at(255, 255, 255),
            2 => rgb8_at(59, 0, 126),
            4 => rgb8_at(0, 0, 0),
            6 => rgb8_at(38, 38, 38),
            3 | 5 | 7 => rgb8_at(19, 19, 19),
            _ => C::Unset,
        }
    }
}

/// The analogue bar pattern at the point `p` of its own unit square.
pub fn smpte_fragment(p: CF) -> (res: C)
    requires
        in_unit_square(p),
    ensures
        res == smpte_spec((p.0 as int, p.1 as int)),
        res.in_range(),
        res.plain(),
{
    let t: i64 = (12 * p.1) / ONE;
    let row: u8 = if t <= 7 {
        0
    } else if t == 8 {
        1
    } else {
        2
    };
    let k: i64 = (7 * p.0) / ONE;
    let col: i64 = if row != 2 {
        k
    } else if k <= 4 {
        ((28 * p.0) / ONE) / 5
    } else if k == 5 {
        (21 * p.0) / ONE - 11
    } else if k == 6 {
        7
    } else {
        return C::Unset;
    };
    smpte_swatch_at(col, row)
}

fn arib_swatch_at(col: i64, row: u8, x: i64) -> (res: C)
    requires
        0 <= x <= ONE,
        col >= 2 ==> ONE <= 8 * x <= 7 * ONE,
    ensures
        res == arib_swatch(col as int, row as int, x as int),
        res.in_range(),
        res.plain(),
{
    if col == 0 || col == 1 {
        if row == 0 {
            pct_at(40, 40, 40)
        } else if row == 1 {
            if col == 0 { pct_at(0, 100, 100) } else { pct_at(0, 0, 100) }
        } else if row == 2 {
            if col == 0 { pct_at(100, 100, 0) } else { pct_at(100, 0, 0) }
        } else {
            pct_at(15, 15, 15)
        }
    } else if row == 0 {
        match col {
            2 => pct_at(75, 75, 75),
            3 => pct_at(75, 75, 0),
            4 => pct_at(0, 75, 75),
            5 => pct_at(0, 75, 0),
            6 => pct_at(75, 0, 75),
            7 => pct_at(75, 0, 0),
            8 => pct_at(0, 0, 75),
            _ => C::Unset,
        }
    } else if row == 1 {
        match col {
            2 => pct_at(100, 100, 100),
            3 => pct_at(75, 75, 75),
            _ => C::Unset,
        }
    } else if row == 2 {
        if col == 2 {
            C::GFloat { v: (8 * x - ONE) / 6, a: ONE }
        } else {
            C::Unset
        }
    } else {
        if col == 3 {
            pct_at(100, 100, 100)
        } else if col == 7 {
            pct_at(2, 2, 2)
        } else if col == 9 {
            pct_at(4, 4, 4)
        } else if 2 <= col && col <= 10 {
            pct_at(0, 0, 0)
        } else {
            C::Unset
        }
    }
}

/// The digital bar pattern at the point `p` of its own unit square.
pub fn arib_fragment(p: CF) -> (res: C)
    requires
        in_unit_square(p),
    ensures
        res == arib_spec((p.0 as int, p.1 as int)),
        res.in_range(),
        res.plain(),
{
    let t: i64 = (12 * p.1) / ONE;
    let row: u8 = if t <= 6 {
        0
    } else if t == 7 {
        1
    } else if t == 8 {
        2
    } else {
        3
    };
    let x: i64 = p.0;
    if x <= 0 || x >= ONE {
        return C::Unset;
    }
    let col: i64 = if 8 * x <= ONE {
        0
    } else if 8 * x >= 7 * ONE {
        1
    } else {
        let u: i64 = 8 * x - ONE;
        if row == 0 {
            2 + ((7 * u) / ONE) / 6
        } else if row == 1 {
            if 7 * u >= 6 * ONE { 3 } else { 2 }
        } else if row == 2 {
            2
        } else {
            let k: i64 = ((7 * u) / ONE) / 6;
            if k <= 3 {
                let h: i64 = ((14 * u) / ONE) / 6;
                if h <= 2 { 2 } else if h <= 6 { 3 } else { 4 }
            } else if k <= 5 {
                ((21 * u) / ONE) / 6 - 8
            } else {
                10
            }
        }
    };
    arib_swatch_at(col, row, x)
}

/// The colour of a bar picture at the point `c` of a canvas of size `s`. The
/// pattern keeps its native aspect ratio, centred on the canvas; around it
/// there is no colour, unless the picture repeats, and then the pattern tiles
/// the canvas.
pub fn colorbar_fragment(c: &CF, s: &CU, cbs: &ColorbarStatus) -> (res: C)
    requires
        in_unit_square(*c),
        s.0 >= 1,
        s.1 >= 1,
    ensures
        res == colorbar_spec(*c, *s, *cbs),
        res.in_range(),
        res.plain(),
{
    let ratio: CU = match cbs.mode {
        CBSMode::SMPTE => (4, 3),
        CBSMode::ARIB => (16, 9),
    };
    let overflow: RCOverflow = if cbs.repeat {
        RCOverflow::Repeat
    } else {
        RCOverflow::Discard
    };
    proof {
        lemma_repeat_nominal(*c, *s, ratio, RCOrigin::TopLeft);
        crate::draw_lib::lemma_discard_letterbox(*c, *s, ratio, RCOrigin::TopLeft);
    }
    match rationalize_coord(c, s, ratio, overflow, RCOrigin::TopLeft) {
        Some(p) => match cbs.mode {
            CBSMode::SMPTE => smpte_fragment(p),
            CBSMode::ARIB => arib_fragment(p),
        },
        None => C::Unset,
    }
}

} // verus!
