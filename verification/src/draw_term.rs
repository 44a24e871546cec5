//! The terminal: colours at the depth of the terminal, the cells of a text
//! frame, and the decisions of a session.

use vstd::prelude::*;
use vstd::string::StringExecFns;
use crate::data::{DrawMode, Status, TerminalColor, TerminalMode, TerminalPixels, C};
use crate::draw_func::{
    aa_subpixels, as_coord, get_color, get_color_spec, lemma_subpixels_land, subpixel_coords,
};
use crate::draw_func_ansi::{gray_index, gray_index_at};
use crate::draw_func_color::{color_mouse_down, color_mouse_drag, dragged_angle, pointer_spec};
use crate::draw_image::{base64_image, base64_image_spec, ImageOutputError};
use crate::fixed::{clamp, round_unit, CF, CU, ONE};

verus! {

/// A colour as a terminal takes it: 24-bit RGB, an index of the 256-colour
/// palette, or one of the sixteen classic names.
#[derive(Clone, Copy, Debug, PartialEq, Eq, Structural)]
pub enum TermColor {
    Rgb { r: u8, g: u8, b: u8 },
    AnsiValue(u8),
    Black,
    DarkGrey,
    Red,
    DarkRed,
    Green,
    DarkGreen,
    Yellow,
    DarkYellow,
    Blue,
    DarkBlue,
    Magenta,
    DarkMagenta,
    Cyan,
    DarkCyan,
    White,
    Grey,
}

/// A continuous channel as one of `levels + 1` equal steps, rounded to the
/// nearest; what lies below zero or above `ONE` goes to the nearest end.
pub open spec fn quantize(v: int, levels: int) -> int {
    clamp(round_unit(levels * v), 0, levels)
}

/// An 8-bit channel as the nearest of the six levels of the colour cube,
/// which stand at 0, 51, 102, 153, 204 and 255.
pub open spec fn level6(v: int) -> int {
    (10 * v + 255) / 510
}

/// The index in the 256-colour palette of the cube entry with the given
/// levels of red, green and blue, each from 0 to 5.
pub open spec fn cube_index(r: int, g: int, b: int) -> int {
    16 + 36 * r + 6 * g + b
}

/// The terminal colour of a generated colour at the given colour depth.
///
/// At full depth a continuous channel is rounded to the nearest of 256
/// levels and a grey fills all three channels alike. At reduced depth each
/// channel of a continuous or 8-bit colour is rounded to the nearest of the
/// six levels of the colour cube, and the three levels select the entry; a
/// grey is rounded to the nearest of the 26 steps of the grey scale. A
/// palette index and the sixteen names go through unchanged at either
/// depth.
pub open spec fn convert_color_spec(c: C, depth: TerminalColor) -> TermColor {
    match c {
        C::Float { r, g, b, a } => match depth {
            TerminalColor::Less => TermColor::AnsiValue(
                cube_index(quantize(r as int, 5), quantize(g as int, 5), quantize(b as int, 5))
                    as u8,
            ),
            _ => TermColor::Rgb {
                r: quantize(r as int, 255) as u8,
                g: quantize(g as int, 255) as u8,
                b: quantize(b as int, 255) as u8,
            },
        },
        C::Int { r, g, b, a } => match depth {
            TerminalColor::Less => TermColor::AnsiValue(
                cube_index(level6(r as int), level6(g as int), level6(b as int)) as u8,
            ),
            _ => TermColor::Rgb { r, g, b },
        },
        C::GFloat { v, a } => match depth {
            TerminalColor::Less => TermColor::AnsiValue(gray_index(quantize(v as int, 25)) as u8),
            _ => TermColor::Rgb {
                r: quantize(v as int, 255) as u8,
                g: quantize(v as int, 255) as u8,
                b: quantize(v as int, 255) as u8,
            },
        },
        C::Ansi(v) => TermColor::AnsiValue(v),
        C::KL => TermColor::DarkGrey,
        C::KD => TermColor::Black,
        C::RL => TermColor::Red,
        C::RD => TermColor::DarkRed,
        C::GL => TermColor::Green,
        C::GD => TermColor::DarkGreen,
        C::YL => TermColor::Yellow,
        C::YD => TermColor::DarkYellow,
        C::BL => TermColor::Blue,
        C::BD => TermColor::DarkBlue,
        C::ML => TermColor::Magenta,
        C::MD => TermColor::DarkMagenta,
        C::CL => TermColor::Cyan,
        C::CD => TermColor::DarkCyan,
        C::WL => TermColor::White,
        _ => TermColor::Grey,
    }
}

/// A continuous channel as one of `levels + 1` equal steps.
pub fn quantize_at(v: i64, levels: u8) -> (res: u8)
    requires
        levels >= 1,
    ensures
        res == quantize(v as int, levels as int),
        res <= levels,
{
    proof {
        assert(v <= 0 ==> levels * v <= 0) by (nonlinear_arith)
            requires
                levels >= 1,
        ;
        assert(v >= ONE ==> levels * v >= levels * ONE) by (nonlinear_arith)
            requires
                levels >= 1,
        ;
        assert(0 < v < ONE ==> 0 < levels * v < levels * ONE) by (nonlinear_arith)
            requires
                levels >= 1,
        ;
    }
    if v <= 0 {
        0
    } else if v >= ONE {
        levels
    } else {
        let scaled: i64 = (levels as i64) * v;
        (((2 * scaled + ONE) / ONE) / 2) as u8
    }
}

/// An 8-bit channel as the nearest of the six levels of the colour cube.
pub fn level6_at(v: u8) -> (res: u8)
    ensures
        res == level6(v as int),
        res <= 5,
{
    ((10 * (v as u16) + 255) / 510) as u8
}

fn cube_index_at(r: u8, g: u8, b: u8) -> (res: u8)
    requires
        r <= 5,
        g <= 5,
        b <= 5,
    ensures
        res == cube_index(r as int, g as int, b as int),
{
    16 + 36 * r + 6 * g + b
}

/// The terminal colour of a generated colour at the colour depth of the
/// session. Reverse video and the absence of colour are no colours, and a
/// colour with channels needs a depth that has been decided.
pub fn convert_color(c: C, s: &Status) -> (res: TermColor)
    requires
        !(c is Unset),
        !(c is Reverse),
        !c.named() ==> !(s.color is Auto),
    ensures
        res == convert_color_spec(c, s.color),
{
    let less: bool = match s.color {
        TerminalColor::Less => true,
        _ => false,
    };
    match c {
        C::Float { r, g, b, a: _ } => {
            if less {
                TermColor::AnsiValue(
                    cube_index_at(quantize_at(r, 5), quantize_at(g, 5), quantize_at(b, 5)),
                )
            } else {
                TermColor::Rgb {
                    r: quantize_at(r, 255),
                    g: quantize_at(g, 255),
                    b: quantize_at(b, 255),
                }
            }
        },
        C::Int { r, g, b, a: _ } => {
            if less {
                TermColor::AnsiValue(cube_index_at(level6_at(r), level6_at(g), level6_at(b)))
            } else {
                TermColor::Rgb { r, g, b }
            }
        },
        C::GFloat { v, a: _ } => {
            if less {
                TermColor::AnsiValue(gray_index_at(quantize_at(v, 25)))
            } else {
                let u: u8 = quantize_at(v, 255);
                TermColor::Rgb { r: u, g: u, b: u }
            }
        },
        C::Ansi(v) => TermColor::AnsiValue(v),
        C::KL => TermColor::DarkGrey,
        C::KD => TermColor::Black,
        C::RL => TermColor::Red,
        C::RD => TermColor::DarkRed,
        C::GL => TermColor::Green,
        C::GD => TermColor::DarkGreen,
        C::YL => TermColor::Yellow,
        C::YD => TermColor::DarkYellow,
        C::BL => TermColor::Blue,
        C::BD => TermColor::DarkBlue,
        C::ML => TermColor::Magenta,
        C::MD => TermColor::DarkMagenta,
        C::CL => TermColor::Cyan,
        C::CD => TermColor::DarkCyan,
        C::WL => TermColor::White,
        _ => TermColor::Grey,
    }
}

/// The character that a cell shows: a blank, or a block filling its upper or
/// its lower half.
#[derive(Clone, Copy, Debug, PartialEq, Eq, Structural)]
pub enum Glyph {
    Space,
    Upper,
    Lower,
}

/// What is written into one cell of the terminal: a character, its
/// foreground and background colours where it has them, and whether it is
/// shown in reverse video.
#[derive(Clone, Copy, Debug, PartialEq, Eq)]
pub struct Cell {
    pub glyph: Glyph,
    pub fg: Option<TermColor>,
    pub bg: Option<TermColor>,
    pub reverse: bool,
}

/// The cell for one sample: nothing where there is no colour, a blank in
/// reverse video, or a blank on the colour of the sample.
pub open spec fn single_cell_spec(c: C, depth: TerminalColor) -> Option<Cell> {
    match c {
        C::Unset => None,
        C::Reverse => Some(Cell { glyph: Glyph::Space, fg: None, bg: None, reverse: true }),
        _ => Some(
            Cell {
                glyph: Glyph::Space,
                fg: None,
                bg: Some(convert_color_spec(c, depth)),
                reverse: false,
            },
        ),
    }
}

/// The cell for two samples, one above the other: nothing where neither has
/// a colour; a half block in the colour of the one that has; else a lower
/// half block in the colour of the lower sample on the colour of the upper.
pub open spec fn double_cell_spec(upper: C, lower: C, depth: TerminalColor) -> Option<Cell> {
    if upper is Unset && lower is Unset {
        None
    } else if lower is Unset {
        Some(
            Cell {
                glyph: Glyph::Upper,
                fg: Some(convert_color_spec(upper, depth)),
                bg: None,
                reverse: false,
            },
        )
    } else if upper is Unset {
        Some(
            Cell {
                glyph: Glyph::Lower,
                fg: Some(convert_color_spec(lower, depth)),
                bg: None,
                reverse: false,
            },
        )
    } else {
        Some(
            Cell {
                glyph: Glyph::Lower,
                fg: Some(convert_color_spec(lower, depth)),
                bg: Some(convert_color_spec(upper, depth)),
                reverse: false,
            },
        )
    }
}

/// The cell for one sample.
pub fn single_cell(c: C, s: &Status) -> (res: Option<Cell>)
    requires
        !c.named() ==> !(s.color is Auto),
    ensures
        res == single_cell_spec(c, s.color),
{
    match c {
        C::Unset => None,
        C::Reverse => Some(Cell { glyph: Glyph::Space, fg: None, bg: None, reverse: true }),
        _ => Some(
            Cell { glyph: Glyph::Space, fg: None, bg: Some(convert_color(c, s)), reverse: false },
        ),
    }
}

/// The cell for two samples, one above the other.
pub fn double_cell(upper: C, lower: C, s: &Status) -> (res: Option<Cell>)
    requires
        !(upper is Reverse),
        !(lower is Reverse),
        !upper.named() || !lower.named() ==> !(s.color is Auto),
    ensures
        res == double_cell_spec(upper, lower, s.color),
{
    let no_upper: bool = match upper {
        C::Unset => true,
        _ => false,
    };
    let no_lower: bool = match lower {
        C::Unset => true,
        _ => false,
    };
    if no_upper && no_lower {
        None
    } else if no_lower {
        Some(Cell { glyph: Glyph::Upper, fg: Some(convert_color(upper, s)), bg: None, reverse: false })
    } else if no_upper {
        Some(Cell { glyph: Glyph::Lower, fg: Some(convert_color(lower, s)), bg: None, reverse: false })
    } else {
        Some(
            Cell {
                glyph: Glyph::Lower,
                fg: Some(convert_color(lower, s)),
                bg: Some(convert_color(upper, s)),
                reverse: false,
            },
        )
    }
}

/// With one sample to a cell, the sample stands for the whole cell, two
/// pixels high.
pub open spec fn stretched(pixels: TerminalPixels) -> bool {
    pixels is Single
}

/// The subpixel offsets of a text frame.
pub open spec fn text_offsets(s: Status) -> Seq<CF> {
    subpixel_coords(s.aa, s.size, stretched(s.pixels))
}

/// The cell whose upper pixel is `(x, y)`.
pub open spec fn text_cell_spec(x: u16, y: u16, s: Status) -> Option<Cell> {
    match s.pixels {
        TerminalPixels::Single => single_cell_spec(
            get_color_spec(x, y, s.size, s, text_offsets(s)),
            s.color,
        ),
        TerminalPixels::Double => double_cell_spec(
            get_color_spec(x, y, s.size, s, text_offsets(s)),
            get_color_spec(x, (y + 1) as u16, s.size, s, text_offsets(s)),
            s.color,
        ),
    }
}

/// What a text frame needs: a well-formed session on a grid of even height,
/// a decided colour depth, and no capability pattern at two samples to a
/// cell.
pub open spec fn text_ready(s: Status) -> bool {
    &&& s.wf()
    &&& s.size.1 % 2 == 0
    &&& !(s.color is Auto)
    &&& (s.pixels is Double ==> !(s.draw_mode is Ansi))
}

/// Whether a text frame can be drawn.
pub fn is_text_ready(s: &Status) -> (res: bool)
    ensures
        res == text_ready(*s),
{
    let decided: bool = match s.color {
        TerminalColor::Auto => false,
        _ => true,
    };
    let fits: bool = match (s.pixels, &s.draw_mode) {
        (TerminalPixels::Double, DrawMode::Ansi) => false,
        _ => true,
    };
    crate::data::status_is_wf(s) && s.size.1 % 2 == 0 && decided && fits
}

/// The colour of pixel `(x, y)` of a text frame.
fn text_sample(x: u16, y: u16, s: &Status, subpixels: &[CF]) -> (res: C)
    requires
        text_ready(*s),
        x < s.size.0,
        y < s.size.1,
        s.pixels is Single ==> y + 1 < s.size.1,
        subpixels@ == text_offsets(*s),
    ensures
        res == get_color_spec(x, y, s.size, *s, text_offsets(*s)),
        !(s.draw_mode is Ansi) ==> res.plain(),
{
    proof {
        assert forall|k: int| 0 <= k < subpixels@.len() implies crate::draw_func::offset_fits(
            #[trigger] subpixels@[k],
        ) && crate::draw_func::lands_in_unit(x, y, s.size, subpixels@[k]) by {
            lemma_subpixels_land(s.aa, s.size, stretched(s.pixels), x, y, k);
        }
        crate::draw_func::lemma_subpixels_exist(s.aa, s.size, stretched(s.pixels));
    }
    get_color(x, y, &s.size, s, subpixels)
}

/// The cell whose upper pixel is `(x, y)`: the picture sampled with the
/// given offsets, which are those of the session, and turned into a
/// character with its colours.
pub fn text_cell(x: u16, y: u16, s: &Status, subpixels: &[CF]) -> (res: Option<Cell>)
    requires
        text_ready(*s),
        x < s.size.0,
        y + 1 < s.size.1,
        subpixels@ == text_offsets(*s),
    ensures
        res == text_cell_spec(x, y, *s),
{
    match s.pixels {
        TerminalPixels::Single => {
            let c: C = text_sample(x, y, s, subpixels);
            single_cell(c, s)
        },
        TerminalPixels::Double => {
            let c1: C = text_sample(x, y, s, subpixels);
            let c2: C = text_sample(x, y + 1, s, subpixels);
            double_cell(c1, c2, s)
        },
    }
}

/// The cells of a text frame, row by row from the top and from left to right
/// in each row. Each entry holds the column of the cell, the pixel row of its
/// upper half, and what to write there, if anything.
pub open spec fn frame_texts_spec(s: Status) -> Seq<(u16, u16, Option<Cell>)> {
    Seq::new(
        ((s.size.1 / 2) * s.size.0) as nat,
        |i: int|
            {
                let x = (i % (s.size.0 as int)) as u16;
                let y = (2 * (i / (s.size.0 as int))) as u16;
                (x, y, text_cell_spec(x, y, s))
            },
    )
}

/// The cells of a text frame.
pub fn frame_texts(s: &Status) -> (res: Vec<(u16, u16, Option<Cell>)>)
    requires
        text_ready(*s),
    ensures
        res@ == frame_texts_spec(*s),
{
    let w: u16 = s.size.0;
    let h: u16 = s.size.1;
    let single: bool = match s.pixels {
        TerminalPixels::Single => true,
        TerminalPixels::Double => false,
    };
    let subpixels: Vec<CF> = aa_subpixels(s.aa, &s.size, single);
    let mut res: Vec<(u16, u16, Option<Cell>)> = Vec::new();
    let mut row: u16 = 0;
    while row < h / 2
        invariant
            text_ready(*s),
            w == s.size.0,
            h == s.size.1,
            row <= h / 2,
            subpixels@ == text_offsets(*s),
            res@.len() == row * w,
            forall|i: int| 0 <= i < res@.len() ==> res@[i] == frame_texts_spec(*s)[i],
        decreases h / 2 - row,
    {
        let mut x: u16 = 0;
        while x < w
            invariant
                text_ready(*s),
                w == s.size.0,
                h == s.size.1,
                row < h / 2,
                x <= w,
                subpixels@ == text_offsets(*s),
                res@.len() == row * w + x,
                forall|i: int| 0 <= i < res@.len() ==> res@[i] == frame_texts_spec(*s)[i],
            decreases w - x,
        {
            let y: u16 = 2 * row;
            let cell: Option<Cell> = text_cell(x, y, s, subpixels.as_slice());
            proof {
                let i = row * w + x;
                vstd::arithmetic::div_mod::lemma_fundamental_div_mod_converse(
                    i as int,
                    w as int,
                    row as int,
                    x as int,
                );
                assert(w * row + x == row * w + x) by (nonlinear_arith);
                assert(row * w + x < (h / 2) * w) by (nonlinear_arith)
                    requires
                        row < h / 2,
                        x < w,
                ;
            }
            res.push((x, y, cell));
            x = x + 1;
        }
        proof {
            assert(row * w + w == (row + 1) * w) by (nonlinear_arith);
        }
        row = row + 1;
    }
    assert(res@ =~= frame_texts_spec(*s));
    res
}

/// Why a terminal session cannot start.
#[derive(Clone, Copy, Debug, PartialEq, Eq, Structural)]
pub enum TermError {
    /// The output is not a terminal.
    NotATty,
    /// The capability pattern cannot be shown as an inline image.
    AnsiImage,
    /// The capability pattern cannot be shown at two samples to a cell.
    AnsiDouble,
}

/// What to tell the operator about a session that cannot start.
pub fn term_error_message(e: TermError) -> (res: String)
    ensures
        res@ == match e {
            TermError::NotATty => "出力結果をリダイレクトできません。"@,
            TermError::AnsiImage => "ANSIカラー表示の画像出力には対応していません"@,
            TermError::AnsiDouble => "ANSIカラー表示の double 出力には対応していません"@,
        },
{
    match e {
        TermError::NotATty => String::from_str("出力結果をリダイレクトできません。"),
        TermError::AnsiImage => String::from_str("ANSIカラー表示の画像出力には対応していません"),
        TermError::AnsiDouble => String::from_str(
            "ANSIカラー表示の double 出力には対応していません",
        ),
    }
}

/// The environment says that the terminal shows 24-bit colour.
pub open spec fn says_truecolor(colorterm: Option<Seq<char>>) -> bool {
    colorterm == Some("truecolor"@)
}

/// The colour depth of the session once it is decided: the capability
/// pattern always runs at full depth; an undecided depth of a text session
/// follows the environment; anything else stays as requested.
pub open spec fn decided_depth(s: Status, colorterm: Option<Seq<char>>) -> TerminalColor {
    if s.draw_mode is Ansi {
        TerminalColor::Full
    } else if s.color is Auto && s.terminal is Texts {
        if says_truecolor(colorterm) {
            TerminalColor::Full
        } else {
            TerminalColor::Less
        }
    } else {
        s.color
    }
}

/// Why the session cannot start on this terminal, if it cannot.
pub open spec fn start_error(s: Status, is_tty: bool) -> Option<TermError> {
    if !is_tty {
        Some(TermError::NotATty)
    } else if s.draw_mode is Ansi && s.terminal is Image {
        Some(TermError::AnsiImage)
    } else if s.draw_mode is Ansi && s.pixels is Double {
        Some(TermError::AnsiDouble)
    } else {
        None
    }
}

/// Checks that the session can run on this terminal and decides its colour
/// depth. `colorterm` is the value of the `COLORTERM` variable of the
/// environment, if it is set. On an error the session is left as it was.
pub fn prepare_terminal(s: &mut Status, is_tty: bool, colorterm: Option<&String>) -> (res: Result<
    (),
    TermError,
>)
    ensures
        match start_error(*old(s), is_tty) {
            Some(e) => res == Err::<(), TermError>(e) && *final(s) == *old(s),
            None => res is Ok && *final(s) == (Status {
                color: decided_depth(
                    *old(s),
                    match colorterm {
                        Some(v) => Some(v@),
                        None => None,
                    },
                ),
                ..*old(s)
            }),
        },
{
    if !is_tty {
        return Err(TermError::NotATty);
    }
    let ansi: bool = match s.draw_mode {
        DrawMode::Ansi => true,
        _ => false,
    };
    let image: bool = match s.terminal {
        TerminalMode::Image => true,
        TerminalMode::Texts => false,
    };
    let auto: bool = match s.color {
        TerminalColor::Auto => true,
        _ => false,
    };
    if ansi {
        if image {
            return Err(TermError::AnsiImage);
        }
        match s.pixels {
            TerminalPixels::Double => {
                return Err(TermError::AnsiDouble);
            },
            TerminalPixels::Single => {},
        }
        s.color = TerminalColor::Full;
    } else if auto && !image {
        let wanted: String = String::from_str("truecolor");
        let full: bool = match colorterm {
            Some(v) => v.eq(&wanted),
            None => false,
        };
        s.color = if full {
            TerminalColor::Full
        } else {
            TerminalColor::Less
        };
    }
    Ok(())
}

/// The pixel grid of a terminal of the given numbers of columns and rows:
/// one pixel across and two down for each cell. A terminal without cells, or
/// with more rows than a grid can hold, has no grid.
pub fn cell_grid(cols: u16, rows: u16) -> (res: Option<CU>)
    ensures
        res == if cols >= 1 && 1 <= rows <= 0x7fff {
            Some((cols, (2 * rows) as u16))
        } else {
            None
        },
{
    if cols >= 1 && rows >= 1 && rows <= 0x7fff {
        Some((cols, 2 * rows))
    } else {
        None
    }
}

/// What the terminal reports: a key, the pointer going down or being
/// dragged (or released) at a cell given by column and row, or a new size in
/// columns and rows.
#[derive(Clone, Copy, Debug)]
pub enum Input {
    Char(char),
    Enter,
    Esc,
    Down(u16, u16),
    Drag(u16, u16),
    Resize(u16, u16),
    Other,
}

/// What the session does next.
#[derive(Clone, Copy, Debug, PartialEq, Eq, Structural)]
pub enum Action {
    Quit,
    Redraw,
    Idle,
}

/// The point of the canvas at the centre of the cell in the given column and
/// row, if the cell is on the grid.
pub open spec fn pointer_coord(col: u16, row: u16, size: CU) -> Option<CF> {
    if col < size.0 && 2 * row + 1 < size.1 {
        Some(
            (
                ((col * ONE) / (size.0 as int) + (ONE as int) / (2 * size.0)) as i64,
                ((2 * row * ONE) / (size.1 as int) + (ONE as int) / (size.1 as int)) as i64,
            ),
        )
    } else {
        None
    }
}

/// The session after an input, and what it does next.
///
/// The letter `q`, the enter key and the escape key end the session. While
/// dragging is enabled and a hue picture is shown, the pointer going down on
/// a cell of the grid is remembered, and the pointer dragged to a cell turns
/// the picture and asks for a redraw. A new size that has a grid replaces the
/// old one and asks for a redraw. Everything else is ignored.
pub open spec fn input_spec(s: Status, draggable: bool, input: Input) -> (Status, Action) {
    match input {
        Input::Char(c) => (
            s,
            if c == 'q' {
                Action::Quit
            } else {
                Action::Idle
            },
        ),
        Input::Enter => (s, Action::Quit),
        Input::Esc => (s, Action::Quit),
        Input::Down(col, row) => match (s.draw_mode, pointer_coord(col, row, s.size)) {
            (DrawMode::Color(cs), Some(c)) => if draggable {
                (
                    Status {
                        draw_mode: DrawMode::Color(
                            crate::data::ColorStatus {
                                mouse_position: as_coord(pointer_spec(c, s.size, cs.mode)),
                                ..cs
                            },
                        ),
                        ..s
                    },
                    Action::Idle,
                )
            } else {
                (s, Action::Idle)
            },
            _ => (s, Action::Idle),
        },
        Input::Drag(col, row) => match (s.draw_mode, pointer_coord(col, row, s.size)) {
            (DrawMode::Color(cs), Some(c)) => if draggable {
                (
                    Status {
                        draw_mode: DrawMode::Color(
                            crate::data::ColorStatus {
                                angle: dragged_angle(
                                    cs.angle as int,
                                    (cs.mouse_position.0 as int, cs.mouse_position.1 as int),
                                    pointer_spec(c, s.size, cs.mode),
                                    cs.mode,
                                ) as i64,
                                mode: cs.mode,
                                mouse_position: as_coord(pointer_spec(c, s.size, cs.mode)),
                            },
                        ),
                        ..s
                    },
                    Action::Redraw,
                )
            } else {
                (s, Action::Idle)
            },
            _ => (s, Action::Idle),
        },
        Input::Resize(cols, rows) => if cols >= 1 && 1 <= rows <= 0x7fff {
            (Status { size: (cols, (2 * rows) as u16), ..s }, Action::Redraw)
        } else {
            (s, Action::Idle)
        },
        Input::Other => (s, Action::Idle),
    }
}

/// The point of the canvas at the centre of a cell.
fn pointer_coord_at(col: u16, row: u16, size: &CU) -> (res: Option<CF>)
    ensures
        res == pointer_coord(col, row, *size),
        res is Some ==> crate::fixed::in_unit_square(res->0) && size.0 >= 1 && size.1 >= 1,
{
    if col < size.0 && 2 * (row as u32) + 1 < (size.1 as u32) {
        proof {
            crate::draw_func::lemma_sample_in_row(col as int, size.0 as int, 1, 2);
            crate::draw_func::lemma_sample_in_row(2 * row, size.1 as int, 1, 1);
            assert(size.0 * 2 == 2 * size.0);
            assert(size.1 * 1 == size.1);
            assert((2 * row) * ONE == 2 * row * ONE);
            assert(0 <= col * ONE <= 0xffff * ONE) by (nonlinear_arith)
                requires
                    0 <= col <= 0xffff,
            ;
            assert(0 <= (2 * row) * ONE <= 0xffff * ONE) by (nonlinear_arith)
                requires
                    0 <= 2 * row <= 0xffff,
            ;
        }
        let w: i64 = size.0 as i64;
        let h: i64 = size.1 as i64;
        Some((((col as i64) * ONE) / w + ONE / (2 * w), (2 * (row as i64) * ONE) / h + ONE / h))
    } else {
        None
    }
}

/// Takes one input of the terminal into the session and says what to do
/// next.
pub fn on_input(s: &mut Status, draggable: bool, input: Input) -> (res: Action)
    ensures
        (*final(s), res) == input_spec(*old(s), draggable, input),
{
    match input {
        Input::Char(c) => {
            if c == 'q' {
                Action::Quit
            } else {
                Action::Idle
            }
        },
        Input::Enter => Action::Quit,
        Input::Esc => Action::Quit,
        Input::Down(col, row) => {
            let at: Option<CF> = pointer_coord_at(col, row, &s.size);
            match (s.draw_mode, at) {
                (DrawMode::Color(cs), Some(c)) => {
                    if draggable {
                        let mut next: crate::data::ColorStatus = cs;
                        color_mouse_down(&c, &s.size, &mut next);
                        s.draw_mode = DrawMode::Color(next);
                    }
                    Action::Idle
                },
                _ => Action::Idle,
            }
        },
        Input::Drag(col, row) => {
            let at: Option<CF> = pointer_coord_at(col, row, &s.size);
            match (s.draw_mode, at) {
                (DrawMode::Color(cs), Some(c)) => {
                    if draggable {
                        let mut next: crate::data::ColorStatus = cs;
                        color_mouse_drag(&c, &s.size, &mut next);
                        s.draw_mode = DrawMode::Color(next);
                        Action::Redraw
                    } else {
                        Action::Idle
                    }
                },
                _ => Action::Idle,
            }
        },
        Input::Resize(cols, rows) => {
            match cell_grid(cols, rows) {
                Some(size) => {
                    s.size = size;
                    Action::Redraw
                },
                None => Action::Idle,
            }
        },
        Input::Other => Action::Idle,
    }
}

/// Dragging stays enabled only while a frame is drawn in under a tenth of a
/// second.
pub fn keeps_dragging(frame_millis: u64) -> (res: bool)
    ensures
        res == (frame_millis < 100),
{
    frame_millis < 100
}

/// The text that shows an image inline: the escape sequence that opens a
/// file transfer filling the window, the image as base64 text, and the bell
/// that ends the sequence.
pub open spec fn image_escape_spec(b64: Seq<char>) -> Seq<char> {
    "\u{1b}]1337;File="@
        + "name=Visualizer Image;inline=1;width=100%;height=100%;preserveAspectRatio=1"@ + ":"@
        + b64 + "\u{7}"@
}

/// The text that shows the image with the given base64 text inline.
pub fn image_escape(b64: &str) -> (res: String)
    ensures
        res@ == image_escape_spec(b64@),
{
    let mut res: String = String::from_str("\u{1b}]1337;File=");
    res.append("name=Visualizer Image;inline=1;width=100%;height=100%;preserveAspectRatio=1");
    res.append(":");
    res.append(b64);
    res.append("\u{7}");
    res
}

/// The text that shows the picture of the session as an inline image, or
/// why there is none.
pub open spec fn frame_image_spec(s: Status) -> Result<Seq<char>, ImageOutputError> {
    match base64_image_spec(s) {
        Ok(text) => Ok(image_escape_spec(text)),
        Err(e) => Err(e),
    }
}

/// One frame of an image session: the picture as an inline image, wrapped
/// in the escape sequence that makes the terminal show it.
pub fn frame_image(s: &Status) -> (res: Result<String, ImageOutputError>)
    requires
        s.wf(),
        4 * s.size.0 <= 0xffff,
        4 * s.size.1 <= 0xffff,
    ensures
        match res {
            Ok(text) => frame_image_spec(*s) == Ok::<Seq<char>, ImageOutputError>(text@),
            Err(e) => frame_image_spec(*s) == Err::<Seq<char>, ImageOutputError>(e),
        },
{
    match base64_image(s) {
        Ok(text) => Ok(image_escape(text.as_str())),
        Err(e) => Err(e),
    }
}

} // verus!
