//! The pattern that shows what a terminal can display: reverse video, the
//! grey scale, the sixteen colours by name, by index, in true colour and in
//! the colour cube.

use vstd::prelude::*;
use crate::data::C;
use crate::fixed::{in_unit_square, CF, CU, ONE};

verus! {

/// A canvas at least twice as wide as it is high gets the wide layout.
pub open spec fn ansi_wide(s: CU) -> bool {
    s.0 as int >= 2 * s.1
}

/// The group a point falls into, with its position inside the group:
/// `(group, gx, gy)`.
///
/// The tall layout stacks the five groups. The wide layout has the first
/// group across the top third and the other four in a two-by-two block below
/// it, numbered down the left column and then down the right one. The first
/// group, whose grey scale ends in white at the right edge, includes that
/// edge. Elsewhere a point on the right edge, and any point on the bottom
/// edge, belongs to no group.
pub open spec fn ansi_cell(c: CF, s: CU) -> Option<(int, int, int)> {
    let band = if ansi_wide(s) {
        (3 * c.1) / (ONE as int)
    } else {
        (5 * c.1) / (ONE as int)
    };
    let gy = if ansi_wide(s) {
        (3 * c.1) % (ONE as int)
    } else {
        (5 * c.1) % (ONE as int)
    };
    if c.1 >= ONE {
        None
    } else if band == 0 {
        Some((0, c.0 as int, gy))
    } else if c.0 >= ONE {
        None
    } else if ansi_wide(s) {
        Some((2 * ((2 * c.0) / (ONE as int)) + band, (2 * c.0) % (ONE as int), gy))
    } else {
        Some((band, c.0 as int, gy))
    }
}

/// The sixteen classic colours: one column per colour, light above dark.
pub open spec fn named16(col: int, row: int) -> C {
    if col == 0 {
        if row == 0 { C::KL } else { C::KD }
    } else if col == 1 {
        if row == 0 { C::RL } else { C::RD }
    } else if col == 2 {
        if row == 0 { C::GL } else { C::GD }
    } else if col == 3 {
        if row == 0 { C::YL } else { C::YD }
    } else if col == 4 {
        if row == 0 { C::BL } else { C::BD }
    } else if col == 5 {
        if row == 0 { C::ML } else { C::MD }
    } else if col == 6 {
        if row == 0 { C::CL } else { C::CD }
    } else {
        if row == 0 { C::WL } else { C::WD }
    }
}

/// One channel of the true-colour rendition of the sixteen colours: `on`
/// says whether the colour of this column has the channel at all.
pub open spec fn level16(on: bool, col: int, row: int) -> u8 {
    if col == 0 && row == 0 {
        0x80
    } else if col == 7 && row == 1 {
        0xc0
    } else if !on {
        0x00
    } else if row == 0 {
        0xff
    } else {
        0x80
    }
}

/// The sixteen colours as 8-bit RGB: the column number has red in bit 0,
/// green in bit 1 and blue in bit 2; the light row is at full level, the
/// dark row at half, but light black is mid grey and dark white is light
/// grey.
pub open spec fn int16(col: int, row: int) -> C {
    C::Int {
        r: level16(col % 2 == 1, col, row),
        g: level16((col / 2) % 2 == 1, col, row),
        b: level16(col / 4 == 1, col, row),
        a: 0xff,
    }
}

/// The sixteen colours as indices of the 256-colour palette: cube level 5
/// for a light channel and 2 for a dark one, and entries of the grey ramp
/// (or the cube's corners) for the blacks and whites.
pub open spec fn cube16(col: int, row: int) -> int {
    if col == 0 {
        if row == 0 { 244 } else { 16 }
    } else if col == 7 {
        if row == 0 { 231 } else { 250 }
    } else {
        let l: int = if row == 0 { 5 } else { 2 };
        let r: int = if col % 2 == 1 { l } else { 0 };
        let g: int = if (col / 2) % 2 == 1 { l } else { 0 };
        let b: int = if col / 4 == 1 { l } else { 0 };
        r * 36 + g * 6 + b + 16
    }
}

/// The palette index of step `v` of a 26-step grey scale: black and white
/// are the corners of the colour cube, the 24 steps between are the grey
/// ramp.
pub open spec fn gray_index(v: int) -> int {
    if v <= 0 {
        16
    } else if v < 25 {
        v + 231
    } else {
        231
    }
}

/// The step of the 26-step grey scale at `gx`: the scale runs from step 0
/// at one eighth to step 25 at the right edge, and each point shows the
/// nearest step, `25 * (8 * gx - ONE) / (7 * ONE)` rounded with halves
/// upwards.
pub open spec fn gray_step(gx: int) -> int {
    ((50 * (8 * gx - ONE) + 7 * ONE) / (ONE as int)) / 14
}

/// The swatch at position `(gx, gy)` of group `g`.
///
/// Group 0 has, in its left eighth, nothing above reverse video, and to the
/// right of it a grey scale running from black to white: as palette indices
/// above, as continuous grey below. Groups 1 to 4 each show the sixteen
/// colours in eight columns and two rows: by name, as palette indices 8 to 15
/// above 0 to 7, as 8-bit RGB, and as entries of the colour cube.
pub open spec fn ansi_swatch(g: int, gx: int, gy: int) -> C {
    let row = (2 * gy) / (ONE as int);
    let col = (8 * gx) / (ONE as int);
    if g == 0 {
        if 8 * gx <= ONE {
            if row == 0 { C::Unset } else { C::Reverse }
        } else if row == 0 {
            C::Ansi(gray_index(gray_step(gx)) as u8)
        } else {
            C::GFloat { v: ((8 * gx - ONE) / 7) as i64, a: ONE }
        }
    } else if g == 1 {
        named16(col, row)
    } else if g == 2 {
        C::Ansi((col + 8 * (1 - row)) as u8)
    } else if g == 3 {
        int16(col, row)
    } else if g == 4 {
        C::Ansi(cube16(col, row) as u8)
    } else {
        C::Unset
    }
}

/// The colour of the capability pattern at the point `c` of a canvas of size
/// `s`.
pub open spec fn ansi_spec(c: CF, s: CU) -> C {
    match ansi_cell(c, s) {
        Some((g, gx, gy)) => ansi_swatch(g, gx, gy),
        None => C::Unset,
    }
}

fn named16_at(col: u8, row: u8) -> (res: C)
    requires
        col < 8,
        row < 2,
    ensures
        res == named16(col as int, row as int),
{
    let light: bool = row == 0;
    match col {
        0 => if light { C::KL } else { C::KD },
        1 => if light { C::RL } else { C::RD },
        2 => if light { C::GL } else { C::GD },
        3 => if light { C::YL } else { C::YD },
        4 => if light { C::BL } else { C::BD },
        5 => if light { C::ML } else { C::MD },
        6 => if light { C::CL } else { C::CD },
        _ => if light { C::WL } else { C::WD },
    }
}

fn level16_at(on: bool, col: u8, row: u8) -> (res: u8)
    ensures
        res == level16(on, col as int, row as int),
{
    if col == 0 && row == 0 {
        0x80
    } else if col == 7 && row == 1 {
        0xc0
    } else if !on {
        0x00
    } else if row == 0 {
        0xff
    } else {
        0x80
    }
}

fn int16_at(col: u8, row: u8) -> (res: C)
    requires
        col < 8,
        row < 2,
    ensures
        res == int16(col as int, row as int),
{
    C::Int {
        r: level16_at(col % 2 == 1, col, row),
        g: level16_at((col / 2) % 2 == 1, col, row),
        b: level16_at(col / 4 == 1, col, row),
        a: 0xff,
    }
}

fn cube16_at(col: u8, row: u8) -> (res: u8)
    requires
        col < 8,
        row < 2,
    ensures
        res == cube16(col as int, row as int),
{
    if col == 0 {
        if row == 0 { 244 } else { 16 }
    } else if col == 7 {
        if row == 0 { 231 } else { 250 }
    } else {
        let l: u8 = if row == 0 { 5 } else { 2 };
        let r: u8 = if col % 2 == 1 { l } else { 0 };
        let g: u8 = if (col / 2) % 2 == 1 { l } else { 0 };
        let b: u8 = if col / 4 == 1 { l } else { 0 };
        r * 36 + g * 6 + b + 16
    }
}

/// The palette index of step `v` of the 26-step grey scale.
pub fn gray_index_at(v: u8) -> (res: u8)
    ensures
        res == gray_index(v as int),
{
    if v == 0 {
        16
    } else if v < 25 {
        v + 231
    } else {
        231
    }
}

fn ansi_swatch_at(g: u8, gx: i64, gy: i64) -> (res: C)
    requires
        0 <= gx <= ONE,
        g != 0 ==> gx < ONE,
        0 <= gy < ONE,
    ensures
        res == ansi_swatch(g as int, gx as int, gy as int),
        res.in_range(),
{
    let row: u8 = ((2 * gy) / ONE) as u8;
    let col: u8 = ((8 * gx) / ONE) as u8;
    if g == 0 {
        if 8 * gx <= ONE {
            if row == 0 { C::Unset } else { C::Reverse }
        } else if row == 0 {
            let v: i64 = ((50 * (8 * gx - ONE) + 7 * ONE) / ONE) / 14;
            C::Ansi(gray_index_at(v as u8))
        } else {
            C::GFloat { v: (8 * gx - ONE) / 7, a: ONE }
        }
    } else if g == 1 {
        named16_at(col, row)
    } else if g == 2 {
        C::Ansi(col + 8 * (1 - row))
    } else if g == 3 {
        int16_at(col, row)
    } else if g == 4 {
        C::Ansi(cube16_at(col, row))
    } else {
        C::Unset
    }
}

/// The terminal capability pattern: which swatch the point `c` of the unit
/// square shows on a canvas of size `s`. The layout depends on the shape of
/// the canvas only; every point has exactly one swatch, or no colour.
pub fn ansi_fragment(c: &CF, s: &CU) -> (res: C)
    requires
        in_unit_square(*c),
    ensures
        res == ansi_spec(*c, *s),
        res.in_range(),
{
    if c.1 >= ONE {
        return C::Unset;
    }
    let wide: bool = (s.0 as u32) >= 2 * (s.1 as u32);
    let band: u8 = if wide {
        ((3 * c.1) / ONE) as u8
    } else {
        ((5 * c.1) / ONE) as u8
    };
    let gy: i64 = if wide {
        (3 * c.1) % ONE
    } else {
        (5 * c.1) % ONE
    };
    if band == 0 {
        ansi_swatch_at(0, c.0, gy)
    } else if c.0 >= ONE {
        C::Unset
    } else if wide {
        let x: u8 = ((2 * c.0) / ONE) as u8;
        ansi_swatch_at(2 * x + band, (2 * c.0) % ONE, gy)
    } else {
        ansi_swatch_at(band, c.0, gy)
    }
}

} // verus!
