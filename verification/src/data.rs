//! The data of a session: colours as the pictures emit them, the pictures
//! with their parameters, and how the terminal is driven.

use vstd::prelude::*;
use crate::fixed::{CF, CU, ONE};

verus! {

/// A colour as a generator emits it, before any output device is known.
///
/// The continuous variants hold fixed-point channels, nominally between zero
/// and `ONE`. `Reverse` asks for reverse video, `Unset` is the absence of any
/// colour (the cell or pixel stays transparent), `Ansi` is a raw index into the
/// 256-colour palette, and the two-letter variants are the sixteen classic
/// terminal colours: black, red, green, yellow, blue, magenta, cyan and white,
/// each light (`L`) and dark (`D`).
#[derive(Clone, Copy, Debug, PartialEq, Eq, Structural)]
#[allow(inconsistent_fields)]
pub enum C {
    Float { r: i64, g: i64, b: i64, a: i64 },
    Int { r: u8, g: u8, b: u8, a: u8 },
    GFloat { v: i64, a: i64 },
    Reverse,
    Unset,
    Ansi(u8),
    KL,
    KD,
    RL,
    RD,
    GL,
    GD,
    YL,
    YD,
    BL,
    BD,
    ML,
    MD,
    CL,
    CD,
    WL,
    WD,
}

impl C {
    /// The colour is one of the two continuous variants, the only ones that
    /// can be averaged.
    pub open spec fn continuous(self) -> bool {
        self is Float || self is GFloat
    }

    /// Every continuous channel lies between zero and `ONE`.
    pub open spec fn in_range(self) -> bool {
        match self {
            C::Float { r, g, b, a } => 0 <= r <= ONE && 0 <= g <= ONE && 0 <= b <= ONE && 0 <= a
                <= ONE,
            C::GFloat { v, a } => 0 <= v <= ONE && 0 <= a <= ONE,
            _ => true,
        }
    }

    /// The colour is a continuous or 8-bit colour or no colour at all: what
    /// every device can show.
    pub open spec fn plain(self) -> bool {
        self is Float || self is Int || self is GFloat || self is Unset
    }

    /// The colour is one of the sixteen classic terminal colours or a raw
    /// palette index: something only a terminal can show.
    pub open spec fn named(self) -> bool {
        !(self is Float || self is Int || self is GFloat || self is Reverse || self is Unset)
    }
}

/// Everything a render pass reads: the canvas, what to draw and how the
/// terminal is to be driven.
#[derive(Debug)]
pub struct Status {
    pub size: CU,
    pub draw_mode: DM,
    pub terminal: TM,
    pub color: TC,
    pub pixels: TP,
    pub aa: u8,
    pub output: Option<String>,
}

/// The picture to draw, with the parameters of each.
#[derive(Clone, Copy, Debug)]
pub enum DrawMode {
    Ansi,
    Color(ColorStatus),
    Colorbar(ColorbarStatus),
    Mandelbrot,
    NewtonApprox(NewtonApproxStatus),
}

pub type DM = DrawMode;

/// State of the hue pictures: the rotation (or horizontal offset) in
/// fixed-point degrees, the picture, and where the pointer last touched.
#[derive(Clone, Copy, Debug)]
pub struct ColorStatus {
    pub angle: i64,
    pub mode: CSMode,
    pub mouse_position: CF,
}

#[derive(Clone, Copy, Debug, PartialEq, Eq, Structural)]
pub enum CSMode {
    ConicW,
    Conic,
    BVW,
    BV,
}

#[derive(Clone, Copy, Debug, PartialEq, Eq, Structural)]
pub struct ColorbarStatus {
    pub mode: CBSMode,
    pub repeat: bool,
}

#[derive(Clone, Copy, Debug, PartialEq, Eq, Structural)]
pub enum CBSMode {
    SMPTE,
    ARIB,
}

/// Parameters of the Newton picture: the degree `p` of the polynomial, the
/// damping factor `tau` as a fixed-point number, the iteration budget, and
/// whether slow convergence darkens the colour.
#[derive(Clone, Copy, Debug, PartialEq, Eq, Structural)]
pub struct NewtonApproxStatus {
    pub p: usize,
    pub tau: i64,
    pub max: usize,
    pub speed: bool,
}

#[derive(Clone, Copy, Debug, PartialEq, Eq, Structural)]
pub enum TerminalMode {
    Texts,
    Image,
}

pub type TM = TerminalMode;

#[derive(Clone, Copy, Debug, PartialEq, Eq, Structural)]
pub enum TerminalColor {
    Auto,
    Less,
    Full,
}

pub type TC = TerminalColor;

#[derive(Clone, Copy, Debug, PartialEq, Eq, Structural)]
pub enum TerminalPixels {
    Single,
    Double,
}

pub type TP = TerminalPixels;

impl NewtonApproxStatus {
    /// The degree is at least two and the damping factor is positive.
    pub open spec fn wf(self) -> bool {
        self.p >= 2 && self.tau > 0
    }
}

impl DrawMode {
    /// The parameters of the mode are in their domain.
    pub open spec fn wf(self) -> bool {
        match self {
            DrawMode::NewtonApprox(nas) => nas.wf(),
            _ => true,
        }
    }

    /// The modes whose generators emit continuous colours everywhere and can
    /// therefore be supersampled.
    pub open spec fn supports_aa(self) -> bool {
        !(self is Ansi || self is Colorbar)
    }
}

impl Status {
    /// What every render pass assumes: a canvas of at least one pixel each
    /// way, mode parameters in their domain, and supersampling only for a
    /// mode that supports it.
    pub open spec fn wf(self) -> bool {
        &&& self.size.0 >= 1
        &&& self.size.1 >= 1
        &&& self.draw_mode.wf()
        &&& (self.aa > 0 ==> self.draw_mode.supports_aa())
    }
}

/// Whether the mode can be rendered with the given supersampling level: its
/// parameters are in their domain, and the level is zero unless the mode
/// supports supersampling.
pub fn mode_is_ready(dm: &DrawMode, aa: u8) -> (res: bool)
    ensures
        res == (dm.wf() && (aa > 0 ==> dm.supports_aa())),
{
    match dm {
        DrawMode::Ansi => aa == 0,
        DrawMode::Colorbar(_) => aa == 0,
        DrawMode::NewtonApprox(nas) => nas.p >= 2 && nas.tau > 0,
        _ => true,
    }
}

/// Whether the session is well formed.
pub fn status_is_wf(s: &Status) -> (res: bool)
    ensures
        res == s.wf(),
{
    s.size.0 >= 1 && s.size.1 >= 1 && mode_is_ready(&s.draw_mode, s.aa)
}

} // verus!
