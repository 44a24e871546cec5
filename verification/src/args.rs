//! From a parsed command line to a session.

use vstd::prelude::*;
use vstd::string::StringExecFns;
use crate::data::{
    CBSMode, CSMode, ColorStatus, ColorbarStatus, DrawMode as DM, NewtonApproxStatus, Status,
    TerminalColor, TerminalMode, TerminalPixels,
};

verus! {

/// The picture as the command line names it, with the options of each.
/// Angles are in fixed-point degrees and the damping factor is a
/// fixed-point number.
#[derive(Clone, Copy, Debug)]
pub enum DrawMode {
    Ansi,
    Hue { rotate: i64 },
    Conic { rotate: i64 },
    BVW { offset: i64 },
    BV { offset: i64 },
    Smpte { repeat: bool },
    Mandelbrot,
    Newton { p: usize, tau: i64, max: usize, speed: bool },
    Arib { repeat: bool },
    Help,
}

pub type EDM = DrawMode;

/// The command line, parsed.
#[derive(Debug)]
pub struct Args {
    pub draw_mode: Option<DrawMode>,
    pub output: Option<String>,
    pub width: Option<u16>,
    pub height: Option<u16>,
    pub terminal: TerminalMode,
    pub color: TerminalColor,
    pub pixels: TerminalPixels,
    pub aa: u8,
    pub help: bool,
}

/// What is wrong with a command line.
#[derive(Clone, Copy, Debug, PartialEq, Eq, Structural)]
pub enum ArgsError {
    /// An image is asked for without width and height.
    SizeMissing,
    /// An image is asked for without a width.
    WidthMissing,
    /// An image is asked for without a height.
    HeightMissing,
    /// Width and height of the image are both zero.
    SizeInvalid,
    /// The width of the image is zero.
    WidthInvalid,
    /// The height of the image is zero.
    HeightInvalid,
    /// The degree of the Newton picture is below two.
    DegreeInvalid,
    /// The damping factor of the Newton picture is not positive.
    DampingInvalid,
}

/// The picture that a command line asks for; the capability pattern where
/// it names none. Asking for help is no picture.
pub open spec fn mode_spec(m: Option<DrawMode>) -> DM {
    match m {
        Some(DrawMode::Hue { rotate }) => DM::Color(
            ColorStatus { angle: rotate, mode: CSMode::ConicW, mouse_position: (0i64, 0i64) },
        ),
        Some(DrawMode::Conic { rotate }) => DM::Color(
            ColorStatus { angle: rotate, mode: CSMode::Conic, mouse_position: (0i64, 0i64) },
        ),
        Some(DrawMode::BVW { offset }) => DM::Color(
            ColorStatus { angle: offset, mode: CSMode::BVW, mouse_position: (0i64, 0i64) },
        ),
        Some(DrawMode::BV { offset }) => DM::Color(
            ColorStatus { angle: offset, mode: CSMode::BV, mouse_position: (0i64, 0i64) },
        ),
        Some(DrawMode::Smpte { repeat }) => DM::Colorbar(
            ColorbarStatus { mode: CBSMode::SMPTE, repeat },
        ),
        Some(DrawMode::Arib { repeat }) => DM::Colorbar(
            ColorbarStatus { mode: CBSMode::ARIB, repeat },
        ),
        Some(DrawMode::Mandelbrot) => DM::Mandelbrot,
        Some(DrawMode::Newton { p, tau, max, speed }) => DM::NewtonApprox(
            NewtonApproxStatus { p, tau, max, speed },
        ),
        _ => DM::Ansi,
    }
}

/// The first thing wrong with a command line, if anything is: first the
/// parameters of the Newton picture, then the size of the image, which is
/// looked at only where an image is asked for.
pub open spec fn args_error(a: Args) -> Option<ArgsError> {
    let dm = mode_spec(a.draw_mode);
    if dm is NewtonApprox && dm->NewtonApprox_0.p < 2 {
        Some(ArgsError::DegreeInvalid)
    } else if dm is NewtonApprox && dm->NewtonApprox_0.tau <= 0 {
        Some(ArgsError::DampingInvalid)
    } else if a.output is None {
        None
    } else {
        match (a.width, a.height) {
            (None, None) => Some(ArgsError::SizeMissing),
            (None, Some(_)) => Some(ArgsError::WidthMissing),
            (Some(_), None) => Some(ArgsError::HeightMissing),
            (Some(x), Some(y)) => if x == 0 && y == 0 {
                Some(ArgsError::SizeInvalid)
            } else if x == 0 {
                Some(ArgsError::WidthInvalid)
            } else if y == 0 {
                Some(ArgsError::HeightInvalid)
            } else {
                None
            },
        }
    }
}

/// The session that a valid command line asks for. Supersampling is off for
/// the capability pattern and the bar patterns, whatever level was asked
/// for. The size is that of the image where one is asked for; a terminal
/// session starts without a size and takes that of the terminal.
pub open spec fn status_spec(a: Args) -> Status {
    let dm = mode_spec(a.draw_mode);
    Status {
        size: if a.output is Some {
            (a.width->0, a.height->0)
        } else {
            (0u16, 0u16)
        },
        draw_mode: dm,
        terminal: a.terminal,
        color: a.color,
        pixels: a.pixels,
        aa: if dm.supports_aa() {
            a.aa
        } else {
            0u8
        },
        output: a.output,
    }
}

fn mode_of(m: &Option<DrawMode>) -> (res: DM)
    ensures
        res == mode_spec(*m),
{
    match m {
        Some(DrawMode::Hue { rotate }) => DM::Color(
            ColorStatus { angle: *rotate, mode: CSMode::ConicW, mouse_position: (0, 0) },
        ),
        Some(DrawMode::Conic { rotate }) => DM::Color(
            ColorStatus { angle: *rotate, mode: CSMode::Conic, mouse_position: (0, 0) },
        ),
        Some(DrawMode::BVW { offset }) => DM::Color(
            ColorStatus { angle: *offset, mode: CSMode::BVW, mouse_position: (0, 0) },
        ),
        Some(DrawMode::BV { offset }) => DM::Color(
            ColorStatus { angle: *offset, mode: CSMode::BV, mouse_position: (0, 0) },
        ),
        Some(DrawMode::Smpte { repeat }) => DM::Colorbar(
            ColorbarStatus { mode: CBSMode::SMPTE, repeat: *repeat },
        ),
        Some(DrawMode::Arib { repeat }) => DM::Colorbar(
            ColorbarStatus { mode: CBSMode::ARIB, repeat: *repeat },
        ),
        Some(DrawMode::Mandelbrot) => DM::Mandelbrot,
        Some(DrawMode::Newton { p, tau, max, speed }) => DM::NewtonApprox(
            NewtonApproxStatus { p: *p, tau: *tau, max: *max, speed: *speed },
        ),
        _ => DM::Ansi,
    }
}

/// Turns a parsed command line into the session it asks for, or says what
/// is wrong with it. A command line that asks for help asks for no session.
pub fn init_status(a: &Args) -> (res: Result<Status, ArgsError>)
    requires
        !(a.draw_mode == Some(DrawMode::Help)),
    ensures
        match args_error(*a) {
            Some(e) => res == Err::<Status, ArgsError>(e),
            None => res == Ok::<Status, ArgsError>(status_spec(*a)),
        },
        res is Ok ==> res->Ok_0.draw_mode.wf() && (res->Ok_0.aa > 0 ==> res->Ok_0.draw_mode.supports_aa()),
        res is Ok && a.output is Some ==> res->Ok_0.wf(),
{
    let dm: DM = mode_of(&a.draw_mode);
    match dm {
        DM::NewtonApprox(nas) => {
            if nas.p < 2 {
                return Err(ArgsError::DegreeInvalid);
            }
            if nas.tau <= 0 {
                return Err(ArgsError::DampingInvalid);
            }
        },
        _ => {},
    }
    let aa: u8 = match dm {
        DM::Ansi => 0,
        DM::Colorbar(_) => 0,
        _ => a.aa,
    };
    let mut size: (u16, u16) = (0, 0);
    let output: Option<String> = match &a.output {
        None => None,
        Some(path) => {
            match (a.width, a.height) {
                (None, None) => {
                    return Err(ArgsError::SizeMissing);
                },
                (None, Some(_)) => {
                    return Err(ArgsError::WidthMissing);
                },
                (Some(_), None) => {
                    return Err(ArgsError::HeightMissing);
                },
                (Some(x), Some(y)) => {
                    if x == 0 && y == 0 {
                        return Err(ArgsError::SizeInvalid);
                    } else if x == 0 {
                        return Err(ArgsError::WidthInvalid);
                    } else if y == 0 {
                        return Err(ArgsError::HeightInvalid);
                    }
                    size = (x, y);
                },
            }
            Some(path.clone())
        },
    };
    Ok(Status {
        size,
        draw_mode: dm,
        terminal: a.terminal,
        color: a.color,
        pixels: a.pixels,
        aa,
        output,
    })
}

/// What to tell the operator about an invalid command line.
pub fn error_message(e: ArgsError) -> (res: String)
    ensures
        res@ == match e {
            ArgsError::SizeMissing => "画像サイズが指定されていません"@,
            ArgsError::WidthMissing => "画像の横幅が指定されていません"@,
            ArgsError::HeightMissing => "画像の縦幅が指定されていません"@,
            ArgsError::SizeInvalid => "画像サイズが不正です"@,
            ArgsError::WidthInvalid => "画像の横幅が不正です"@,
            ArgsError::HeightInvalid => "画像の縦幅が不正です"@,
            ArgsError::DegreeInvalid => "次数は2以上でなければなりません"@,
            ArgsError::DampingInvalid => "収束因子は正でなければなりません"@,
        },
{
    match e {
        ArgsError::SizeMissing => String::from_str("画像サイズが指定されていません"),
        ArgsError::WidthMissing => String::from_str("画像の横幅が指定されていません"),
        ArgsError::HeightMissing => String::from_str("画像の縦幅が指定されていません"),
        ArgsError::SizeInvalid => String::from_str("画像サイズが不正です"),
        ArgsError::WidthInvalid => String::from_str("画像の横幅が不正です"),
        ArgsError::HeightInvalid => String::from_str("画像の縦幅が不正です"),
        ArgsError::DegreeInvalid => String::from_str("次数は2以上でなければなりません"),
        ArgsError::DampingInvalid => String::from_str("収束因子は正でなければなりません"),
    }
}

} // verus!
