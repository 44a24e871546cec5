use visualizer::args::{error_message, init_status, Args, ArgsError, DrawMode as Asked};
use visualizer::data::{
    mode_is_ready, status_is_wf, CBSMode, CSMode, ColorStatus, ColorbarStatus, DrawMode,
    NewtonApproxStatus, Status, TerminalColor, TerminalMode, TerminalPixels,
};
use visualizer::draw_image::{image_error_message, ImageOutputError};
use visualizer::draw_term::{
    cell_grid, is_text_ready, keeps_dragging, on_input, prepare_terminal, term_error_message,
    Action, Input, TermError,
};
use visualizer::fixed::ONE;

fn command(mode: Option<Asked>) -> Args {
    Args {
        draw_mode: mode,
        output: None,
        width: None,
        height: None,
        terminal: TerminalMode::Texts,
        color: TerminalColor::Auto,
        pixels: TerminalPixels::Single,
        aa: 2,
        help: false,
    }
}

fn image_command(width: Option<u16>, height: Option<u16>) -> Args {
    let mut a = command(Some(Asked::Mandelbrot));
    a.output = Some(String::from("out.png"));
    a.width = width;
    a.height = height;
    a
}

fn session(mode: DrawMode) -> Status {
    Status {
        size: (80, 48),
        draw_mode: mode,
        terminal: TerminalMode::Texts,
        color: TerminalColor::Auto,
        pixels: TerminalPixels::Single,
        aa: 0,
        output: None,
    }
}

fn wheel(angle: i64) -> DrawMode {
    DrawMode::Color(ColorStatus { angle, mode: CSMode::Conic, mouse_position: (0, 0) })
}

fn color_of(s: &Status) -> ColorStatus {
    match s.draw_mode {
        DrawMode::Color(cs) => cs,
        _ => panic!("not a hue picture"),
    }
}

#[test]
fn no_subcommand_means_the_capability_pattern() {
    let s = init_status(&command(None)).unwrap();
    assert!(matches!(s.draw_mode, DrawMode::Ansi));
    assert_eq!(s.aa, 0);
    assert_eq!(s.size, (0, 0));
    assert_eq!(s.output, None);
    let s = init_status(&command(Some(Asked::Ansi))).unwrap();
    assert!(matches!(s.draw_mode, DrawMode::Ansi));
}

#[test]
fn hue_pictures_take_their_angle() {
    let cases = [
        (Asked::Hue { rotate: 30 * ONE }, CSMode::ConicW),
        (Asked::Conic { rotate: 30 * ONE }, CSMode::Conic),
        (Asked::BVW { offset: 30 * ONE }, CSMode::BVW),
        (Asked::BV { offset: 30 * ONE }, CSMode::BV),
    ];
    for (asked, mode) in cases {
        let s = init_status(&command(Some(asked))).unwrap();
        let cs = color_of(&s);
        assert_eq!(cs.angle, 30 * ONE);
        assert_eq!(cs.mode, mode);
        assert_eq!(cs.mouse_position, (0, 0));
        assert_eq!(s.aa, 2);
    }
}

#[test]
fn bar_pictures_never_supersample() {
    for (asked, mode) in [
        (Asked::Smpte { repeat: true }, CBSMode::SMPTE),
        (Asked::Arib { repeat: false }, CBSMode::ARIB),
    ] {
        let mut a = command(Some(asked));
        a.aa = 9;
        let s = init_status(&a).unwrap();
        match s.draw_mode {
            DrawMode::Colorbar(cbs) => {
                assert_eq!(cbs.mode, mode);
                assert_eq!(cbs.repeat, mode == CBSMode::SMPTE);
            },
            _ => panic!("not a bar picture"),
        }
        assert_eq!(s.aa, 0);
    }
}

#[test]
fn fractal_pictures_keep_the_level() {
    let mut a = command(Some(Asked::Mandelbrot));
    a.aa = 5;
    a.color = TerminalColor::Less;
    a.pixels = TerminalPixels::Double;
    a.terminal = TerminalMode::Image;
    let s = init_status(&a).unwrap();
    assert!(matches!(s.draw_mode, DrawMode::Mandelbrot));
    assert_eq!(s.aa, 5);
    assert_eq!(s.color, TerminalColor::Less);
    assert_eq!(s.pixels, TerminalPixels::Double);
    assert_eq!(s.terminal, TerminalMode::Image);
    let n = init_status(&command(Some(Asked::Newton { p: 6, tau: ONE / 10, max: 1000, speed: true })))
        .unwrap();
    match n.draw_mode {
        DrawMode::NewtonApprox(nas) => {
            assert_eq!((nas.p, nas.tau, nas.max, nas.speed), (6, ONE / 10, 1000, true));
        },
        _ => panic!("not the Newton picture"),
    }
    assert_eq!(n.aa, 2);
}

#[test]
fn newton_parameters_are_checked() {
    let bad = |p: usize, tau: i64| {
        init_status(&command(Some(Asked::Newton { p, tau, max: 10, speed: false }))).unwrap_err()
    };
    assert_eq!(bad(1, ONE), ArgsError::DegreeInvalid);
    assert_eq!(bad(0, 0), ArgsError::DegreeInvalid);
    assert_eq!(bad(2, 0), ArgsError::DampingInvalid);
    assert_eq!(bad(7, -ONE), ArgsError::DampingInvalid);
    assert!(init_status(&command(Some(Asked::Newton { p: 2, tau: 1, max: 0, speed: false }))).is_ok());
}

#[test]
fn an_image_needs_a_size() {
    assert_eq!(init_status(&image_command(None, None)).unwrap_err(), ArgsError::SizeMissing);
    assert_eq!(init_status(&image_command(None, Some(5))).unwrap_err(), ArgsError::WidthMissing);
    assert_eq!(init_status(&image_command(Some(5), None)).unwrap_err(), ArgsError::HeightMissing);
    assert_eq!(init_status(&image_command(Some(0), Some(0))).unwrap_err(), ArgsError::SizeInvalid);
    assert_eq!(init_status(&image_command(Some(0), Some(5))).unwrap_err(), ArgsError::WidthInvalid);
    assert_eq!(init_status(&image_command(Some(5), Some(0))).unwrap_err(), ArgsError::HeightInvalid);
    let s = init_status(&image_command(Some(640), Some(480))).unwrap();
    assert_eq!(s.size, (640, 480));
    assert_eq!(s.output, Some(String::from("out.png")));
}

#[test]
fn a_terminal_session_ignores_the_image_size() {
    let mut a = command(Some(Asked::Mandelbrot));
    a.width = Some(0);
    a.height = None;
    let s = init_status(&a).unwrap();
    assert_eq!(s.size, (0, 0));
    assert_eq!(s.output, None);
}

#[test]
fn every_error_has_its_message() {
    assert_eq!(error_message(ArgsError::SizeMissing), "画像サイズが指定されていません");
    assert_eq!(error_message(ArgsError::WidthMissing), "画像の横幅が指定されていません");
    assert_eq!(error_message(ArgsError::HeightMissing), "画像の縦幅が指定されていません");
    assert_eq!(error_message(ArgsError::SizeInvalid), "画像サイズが不正です");
    assert_eq!(error_message(ArgsError::WidthInvalid), "画像の横幅が不正です");
    assert_eq!(error_message(ArgsError::HeightInvalid), "画像の縦幅が不正です");
    assert_eq!(error_message(ArgsError::DegreeInvalid), "次数は2以上でなければなりません");
    assert_eq!(error_message(ArgsError::DampingInvalid), "収束因子は正でなければなりません");
}

#[test]
fn a_session_needs_a_terminal() {
    let mut s = session(DrawMode::Mandelbrot);
    assert_eq!(prepare_terminal(&mut s, false, None), Err(TermError::NotATty));
    assert_eq!(s.color, TerminalColor::Auto);
}

#[test]
fn the_capability_pattern_needs_single_text_cells() {
    let mut s = session(DrawMode::Ansi);
    s.terminal = TerminalMode::Image;
    assert_eq!(prepare_terminal(&mut s, true, None), Err(TermError::AnsiImage));
    let mut s = session(DrawMode::Ansi);
    s.pixels = TerminalPixels::Double;
    s.color = TerminalColor::Less;
    assert_eq!(prepare_terminal(&mut s, true, None), Err(TermError::AnsiDouble));
    assert_eq!(s.color, TerminalColor::Less);
    let mut s = session(DrawMode::Ansi);
    s.color = TerminalColor::Less;
    assert_eq!(prepare_terminal(&mut s, true, None), Ok(()));
    assert_eq!(s.color, TerminalColor::Full);
}

#[test]
fn an_undecided_depth_follows_the_environment() {
    let truecolor = String::from("truecolor");
    let other = String::from("24bit");
    let mut s = session(DrawMode::Mandelbrot);
    assert_eq!(prepare_terminal(&mut s, true, Some(&truecolor)), Ok(()));
    assert_eq!(s.color, TerminalColor::Full);
    let mut s = session(DrawMode::Mandelbrot);
    assert_eq!(prepare_terminal(&mut s, true, Some(&other)), Ok(()));
    assert_eq!(s.color, TerminalColor::Less);
    let mut s = session(DrawMode::Mandelbrot);
    assert_eq!(prepare_terminal(&mut s, true, None), Ok(()));
    assert_eq!(s.color, TerminalColor::Less);
}

#[test]
fn a_decided_depth_or_an_image_session_stays() {
    let truecolor = String::from("truecolor");
    let mut s = session(DrawMode::Mandelbrot);
    s.color = TerminalColor::Less;
    assert_eq!(prepare_terminal(&mut s, true, Some(&truecolor)), Ok(()));
    assert_eq!(s.color, TerminalColor::Less);
    let mut s = session(DrawMode::Mandelbrot);
    s.terminal = TerminalMode::Image;
    assert_eq!(prepare_terminal(&mut s, true, Some(&truecolor)), Ok(()));
    assert_eq!(s.color, TerminalColor::Auto);
}

#[test]
fn a_terminal_has_two_pixels_to_a_row() {
    assert_eq!(cell_grid(80, 24), Some((80, 48)));
    assert_eq!(cell_grid(1, 1), Some((1, 2)));
    assert_eq!(cell_grid(65535, 32767), Some((65535, 65534)));
    assert_eq!(cell_grid(80, 32768), None);
    assert_eq!(cell_grid(0, 24), None);
    assert_eq!(cell_grid(80, 0), None);
}

#[test]
fn quit_keys_end_the_session() {
    let mut s = session(wheel(0));
    assert_eq!(on_input(&mut s, true, Input::Char('q')), Action::Quit);
    assert_eq!(on_input(&mut s, true, Input::Enter), Action::Quit);
    assert_eq!(on_input(&mut s, false, Input::Esc), Action::Quit);
    assert_eq!(on_input(&mut s, true, Input::Char('Q')), Action::Idle);
    assert_eq!(on_input(&mut s, true, Input::Char('x')), Action::Idle);
    assert_eq!(on_input(&mut s, true, Input::Other), Action::Idle);
    assert_eq!(color_of(&s).angle, 0);
    assert_eq!(s.size, (80, 48));
}

#[test]
fn a_resize_takes_the_new_grid_and_redraws() {
    let mut s = session(DrawMode::Mandelbrot);
    assert_eq!(on_input(&mut s, false, Input::Resize(100, 30)), Action::Redraw);
    assert_eq!(s.size, (100, 60));
    assert_eq!(on_input(&mut s, false, Input::Resize(0, 30)), Action::Idle);
    assert_eq!(on_input(&mut s, false, Input::Resize(10, 40000)), Action::Idle);
    assert_eq!(s.size, (100, 60));
}

#[test]
fn dragging_turns_a_wheel_and_redraws() {
    let mut s = session(wheel(0));
    s.size = (48, 48);
    assert_eq!(on_input(&mut s, true, Input::Down(47, 11)), Action::Idle);
    let down = color_of(&s);
    assert_eq!(down.angle, 0);
    assert_eq!(down.mouse_position, (2 * (47 * ONE / 48 + ONE / 96) - ONE, ONE - 2 * (23 * ONE / 48)));
    assert_eq!(on_input(&mut s, true, Input::Drag(24, 0)), Action::Redraw);
    let dragged = color_of(&s);
    assert!((dragged.angle - 90 * ONE).abs() < 4 * ONE, "{}", dragged.angle);
    assert_eq!(dragged.mouse_position.1, ONE - 2 * (ONE / 48));
}

#[test]
fn dragging_shifts_a_chart_by_the_columns_moved() {
    let chart = DrawMode::Color(ColorStatus { angle: 0, mode: CSMode::BV, mouse_position: (0, 0) });
    let mut s = session(chart);
    s.size = (80, 48);
    assert_eq!(on_input(&mut s, true, Input::Down(10, 3)), Action::Idle);
    assert_eq!(color_of(&s).mouse_position, (ONE / 8 + ONE / 160, 7 * ONE / 48));
    assert_eq!(on_input(&mut s, true, Input::Drag(30, 3)), Action::Redraw);
    assert_eq!(color_of(&s).angle, 270 * ONE);
    assert_eq!(on_input(&mut s, true, Input::Drag(10, 20)), Action::Redraw);
    assert_eq!(color_of(&s).angle, 0);
}

#[test]
fn the_pointer_is_ignored_where_it_cannot_drag() {
    let mut s = session(wheel(5 * ONE));
    assert_eq!(on_input(&mut s, false, Input::Down(10, 3)), Action::Idle);
    assert_eq!(on_input(&mut s, false, Input::Drag(30, 3)), Action::Idle);
    assert_eq!(on_input(&mut s, true, Input::Drag(80, 3)), Action::Idle);
    assert_eq!(on_input(&mut s, true, Input::Drag(3, 24)), Action::Idle);
    assert_eq!(color_of(&s).angle, 5 * ONE);
    assert_eq!(color_of(&s).mouse_position, (0, 0));
    let mut m = session(DrawMode::Mandelbrot);
    assert_eq!(on_input(&mut m, true, Input::Down(10, 3)), Action::Idle);
    assert_eq!(on_input(&mut m, true, Input::Drag(30, 3)), Action::Idle);
    assert!(matches!(m.draw_mode, DrawMode::Mandelbrot));
}

#[test]
fn slow_frames_end_dragging() {
    assert!(keeps_dragging(0));
    assert!(keeps_dragging(99));
    assert!(!keeps_dragging(100));
    assert!(!keeps_dragging(u64::MAX));
}

#[test]
fn a_session_is_well_formed_with_a_canvas_and_a_fitting_level() {
    let bars = DrawMode::Colorbar(ColorbarStatus { mode: CBSMode::ARIB, repeat: false });
    assert!(mode_is_ready(&DrawMode::Ansi, 0));
    assert!(!mode_is_ready(&DrawMode::Ansi, 1));
    assert!(mode_is_ready(&bars, 0));
    assert!(!mode_is_ready(&bars, 2));
    assert!(mode_is_ready(&DrawMode::Mandelbrot, 0));
    assert!(mode_is_ready(&DrawMode::Mandelbrot, 255));
    assert!(mode_is_ready(&wheel(0), 3));
    let newton = |p: usize, tau: i64| {
        DrawMode::NewtonApprox(NewtonApproxStatus { p, tau, max: 10, speed: false })
    };
    assert!(mode_is_ready(&newton(2, 1), 4));
    assert!(!mode_is_ready(&newton(1, 1), 0));
    assert!(!mode_is_ready(&newton(2, 0), 0));
    let mut s = session(DrawMode::Mandelbrot);
    assert!(status_is_wf(&s));
    s.size = (0, 48);
    assert!(!status_is_wf(&s));
    s.size = (80, 0);
    assert!(!status_is_wf(&s));
    s.size = (1, 1);
    s.aa = 9;
    assert!(status_is_wf(&s));
    s.draw_mode = DrawMode::Ansi;
    assert!(!status_is_wf(&s));
}

#[test]
fn a_text_frame_needs_an_even_grid_and_a_decided_depth() {
    let mut s = session(DrawMode::Mandelbrot);
    assert!(!is_text_ready(&s));
    s.color = TerminalColor::Less;
    assert!(is_text_ready(&s));
    s.size = (80, 47);
    assert!(!is_text_ready(&s));
    s.size = (80, 48);
    s.pixels = TerminalPixels::Double;
    assert!(is_text_ready(&s));
    s.draw_mode = DrawMode::Ansi;
    assert!(!is_text_ready(&s));
    s.pixels = TerminalPixels::Single;
    assert!(is_text_ready(&s));
    s.size = (0, 48);
    assert!(!is_text_ready(&s));
}

#[test]
fn every_session_error_has_its_message() {
    assert_eq!(term_error_message(TermError::NotATty), "出力結果をリダイレクトできません。");
    assert_eq!(
        term_error_message(TermError::AnsiImage),
        "ANSIカラー表示の画像出力には対応していません"
    );
    assert_eq!(
        term_error_message(TermError::AnsiDouble),
        "ANSIカラー表示の double 出力には対応していません"
    );
    assert_eq!(
        image_error_message(ImageOutputError::Ansi),
        "ANSIカラー表示の出力には対応していません"
    );
    assert_eq!(image_error_message(ImageOutputError::Encoding), "画像を書き出せませんでした");
}
