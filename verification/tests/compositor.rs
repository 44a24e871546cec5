use visualizer::data::{
    CBSMode, CSMode, ColorStatus, ColorbarStatus, DrawMode, NewtonApproxStatus, Status,
    TerminalColor, TerminalMode, TerminalPixels, C,
};
use visualizer::draw_func::{aa_subpixels, fragment, get_color, unify_coord};
use visualizer::draw_func_ansi::ansi_fragment;
use visualizer::draw_func_color::color_fragment;
use visualizer::draw_func_colorbar::colorbar_fragment;
use visualizer::draw_func_mandelbrot::mandelbrot_fragment;
use visualizer::draw_func_newton::newton_fragment;
use visualizer::fixed::ONE;

fn session(mode: DrawMode, size: (u16, u16), aa: u8) -> Status {
    Status {
        size,
        draw_mode: mode,
        terminal: TerminalMode::Texts,
        color: TerminalColor::Full,
        pixels: TerminalPixels::Single,
        aa,
        output: None,
    }
}

#[test]
fn level_zero_samples_the_centre_of_the_pixel() {
    assert_eq!(aa_subpixels(0, &(1, 1), false), vec![(ONE / 2, ONE / 2)]);
    assert_eq!(aa_subpixels(0, &(4, 8), false), vec![(ONE / 8, ONE / 16)]);
    assert_eq!(aa_subpixels(0, &(100, 50), false), vec![(ONE / 200, ONE / 100)]);
}

#[test]
fn level_zero_samples_the_centre_of_a_stretched_cell() {
    assert_eq!(aa_subpixels(0, &(4, 8), true), vec![(ONE / 8, ONE / 8)]);
    assert_eq!(aa_subpixels(0, &(80, 48), true), vec![(ONE / 160, ONE / 48)]);
}

#[test]
fn level_one_samples_the_corner_once() {
    assert_eq!(aa_subpixels(1, &(10, 10), false), vec![(0, 0)]);
    assert_eq!(aa_subpixels(1, &(10, 10), true), vec![(0, 0), (0, ONE / 10)]);
}

#[test]
fn higher_levels_lay_a_square_grid() {
    let w = ONE / 20;
    assert_eq!(aa_subpixels(2, &(10, 10), false), vec![(0, 0), (0, w), (w, 0), (w, w)]);
    let g = aa_subpixels(3, &(7, 5), false);
    assert_eq!(g.len(), 9);
    for i in 0..3i64 {
        for j in 0..3i64 {
            assert_eq!(g[(i * 3 + j) as usize], (i * ONE / 21, j * ONE / 15));
        }
    }
    assert_eq!(aa_subpixels(255, &(65535, 65535), false).len(), 255 * 255);
}

#[test]
fn stretched_cells_get_twice_the_rows() {
    let w = ONE / 20;
    assert_eq!(
        aa_subpixels(2, &(10, 10), true),
        vec![(0, 0), (0, w), (0, 2 * w), (0, 3 * w), (w, 0), (w, w), (w, 2 * w), (w, 3 * w)]
    );
    assert_eq!(aa_subpixels(200, &(3, 3), true).len(), 200 * 400);
    let g = aa_subpixels(255, &(1, 1), true);
    assert_eq!(g.len(), 255 * 510);
    assert_eq!(g[255 * 510 - 1], (254 * ONE / 255, 509 * ONE / 255));
}

#[test]
fn sample_points_are_the_pixel_corner_plus_the_offset() {
    let subs = [(0, 0), (ONE / 20, ONE / 20), (5, -7)];
    let got = unify_coord(3, 4, &(10, 8), &subs);
    assert_eq!(
        got,
        vec![
            (3 * ONE / 10, ONE / 2),
            (3 * ONE / 10 + ONE / 20, ONE / 2 + ONE / 20),
            (3 * ONE / 10 + 5, ONE / 2 - 7)
        ]
    );
    assert_eq!(unify_coord(1, 2, &(3, 7), &[(0, 0)]), vec![(ONE / 3, 2 * ONE / 7)]);
    assert_eq!(unify_coord(9, 9, &(10, 10), &[]), Vec::<(i64, i64)>::new());
    assert_eq!(
        unify_coord(65535, 65535, &(1, 1), &[(0, 0)]),
        vec![(65535 * ONE, 65535 * ONE)]
    );
}

#[test]
fn every_sample_of_a_grid_pixel_is_in_the_unit_square() {
    for (size, stretched, aa) in [
        ((1u16, 2u16), true, 0u8),
        ((1, 2), true, 7),
        ((3, 3), false, 0),
        ((3, 3), false, 5),
        ((640, 480), false, 4),
        ((80, 48), true, 2),
    ] {
        let subs = aa_subpixels(aa, &size, stretched);
        let last_y = if stretched { size.1 - 2 } else { size.1 - 1 };
        for (x, y) in [(0, 0), (size.0 - 1, last_y)] {
            for p in unify_coord(x, y, &size, &subs) {
                assert!(0 <= p.0 && p.0 < ONE && 0 <= p.1 && p.1 < ONE, "{:?}", p);
            }
        }
    }
}

#[test]
fn the_active_picture_is_drawn() {
    let size = (120, 90);
    let c = (ONE / 3, 3 * ONE / 5);
    let cs = ColorStatus { angle: 40 * ONE, mode: CSMode::ConicW, mouse_position: (0, 0) };
    assert_eq!(fragment(c, &size, &session(DrawMode::Color(cs), size, 0)), color_fragment(&c, &size, &cs));
    let cbs = ColorbarStatus { mode: CBSMode::ARIB, repeat: true };
    assert_eq!(
        fragment(c, &size, &session(DrawMode::Colorbar(cbs), size, 0)),
        colorbar_fragment(&c, &size, &cbs)
    );
    assert_eq!(
        fragment(c, &size, &session(DrawMode::Mandelbrot, size, 0)),
        mandelbrot_fragment(&c, &size)
    );
    let nas = NewtonApproxStatus { p: 5, tau: ONE / 2, max: 100, speed: true };
    assert_eq!(
        fragment(c, &size, &session(DrawMode::NewtonApprox(nas), size, 0)),
        newton_fragment(&c, &size, &nas)
    );
    assert_eq!(fragment(c, &size, &session(DrawMode::Ansi, size, 0)), ansi_fragment(&c, &size));
    let other = (7, 3);
    assert_eq!(
        fragment(c, &other, &session(DrawMode::Mandelbrot, size, 0)),
        mandelbrot_fragment(&c, &other)
    );
}

#[test]
fn without_supersampling_the_first_sample_is_the_colour() {
    let size = (10, 10);
    let s = session(DrawMode::Ansi, size, 0);
    let subs = aa_subpixels(0, &size, false);
    assert_eq!(get_color(0, 0, &size, &s, &subs), C::Unset);
    assert_eq!(get_color(0, 1, &size, &s, &subs), C::Reverse);
    assert_eq!(get_color(5, 3, &size, &s, &subs), C::BD);
    assert_eq!(get_color(5, 2, &size, &s, &subs), C::BL);
    let two = [(ONE / 20, ONE / 20), (0, 0)];
    assert_eq!(get_color(5, 3, &size, &s, &two), C::BD);
    let bars = session(DrawMode::Colorbar(ColorbarStatus { mode: CBSMode::SMPTE, repeat: false }), (4, 3), 0);
    assert_eq!(
        get_color(0, 0, &(4, 3), &bars, &aa_subpixels(0, &(4, 3), false)),
        C::Int { r: 204, g: 204, b: 204, a: 255 }
    );
}

#[test]
fn a_constant_picture_averages_to_itself() {
    let size = (400, 100);
    let blue = C::Float { r: 0, g: 0, b: 3 * ONE / 5, a: ONE };
    for aa in [1u8, 2, 3, 7, 16] {
        let s = session(DrawMode::Mandelbrot, size, aa);
        for stretched in [false, true] {
            let subs = aa_subpixels(aa, &size, stretched);
            assert_eq!(get_color(0, 50, &size, &s, &subs), blue);
            assert_eq!(get_color(399, 0, &size, &s, &subs), blue);
        }
    }
    let cs = ColorStatus { angle: 0, mode: CSMode::BV, mouse_position: (0, 0) };
    let s = session(DrawMode::Color(cs), (1, 1), 5);
    let flat = [(0, ONE / 3), (0, ONE / 3), (0, ONE / 3)];
    assert_eq!(
        get_color(0, 0, &(1, 1), &s, &flat),
        C::Float { r: 2 * ONE / 3, g: 0, b: 0, a: ONE }
    );
}

#[test]
fn a_constant_grey_averages_to_the_same_grey_in_three_channels() {
    let size = (100, 100);
    for aa in [1u8, 3, 4] {
        let s = session(DrawMode::Mandelbrot, size, aa);
        let subs = aa_subpixels(aa, &size, false);
        assert_eq!(get_color(50, 50, &size, &s, &subs), C::Float { r: 0, g: 0, b: 0, a: ONE });
    }
}

#[test]
fn supersampling_takes_the_mean_of_the_samples() {
    let cs = ColorStatus { angle: 0, mode: CSMode::BV, mouse_position: (0, 0) };
    let s = session(DrawMode::Color(cs), (1, 1), 2);
    let subs = [(0, 0), (0, ONE / 2), (0, ONE), (ONE / 3, 0)];
    assert_eq!(
        get_color(0, 0, &(1, 1), &s, &subs),
        C::Float { r: 3 * ONE / 8, g: ONE / 4, b: 0, a: ONE }
    );
    let swapped = [(ONE / 3, 0), (0, ONE), (0, 0), (0, ONE / 2)];
    assert_eq!(
        get_color(0, 0, &(1, 1), &s, &swapped),
        C::Float { r: 3 * ONE / 8, g: ONE / 4, b: 0, a: ONE }
    );
    let thirds = [(0, 0), (0, 0), (0, ONE)];
    assert_eq!(
        get_color(0, 0, &(1, 1), &s, &thirds),
        C::Float { r: 2 * ONE / 3, g: 0, b: 0, a: ONE }
    );
    let uneven = [(0, 0), (0, ONE - 1), (0, ONE)];
    assert_eq!(get_color(0, 0, &(1, 1), &s, &uneven), C::Float { r: ONE / 3, g: 0, b: 0, a: ONE });
}

#[test]
fn supersampling_mixes_greys_and_colours() {
    let size = (100, 100);
    let s = session(DrawMode::Mandelbrot, size, 2);
    let inside = (0, 0);
    let far = (-ONE / 2, -ONE / 2);
    assert_eq!(get_color(50, 50, &size, &s, &[inside]), C::Float { r: 0, g: 0, b: 0, a: ONE });
    let outside = get_color(50, 50, &size, &s, &[far]);
    assert_eq!(outside, C::Float { r: 0, g: 9_072_000, b: 3 * ONE / 5, a: ONE });
    assert_eq!(
        get_color(50, 50, &size, &s, &[inside, far]),
        C::Float { r: 0, g: 4_536_000, b: 3 * ONE / 10, a: ONE }
    );
}

#[test]
fn a_rendered_grid_has_one_colour_to_a_pixel() {
    let bars = DrawMode::Colorbar(ColorbarStatus { mode: CBSMode::SMPTE, repeat: false });
    let s = session(bars, (1, 1), 0);
    let grid = visualizer::draw_func::render(&s, &(8, 6));
    assert_eq!(grid.len(), 48);
    assert_eq!(grid[0], C::Int { r: 204, g: 204, b: 204, a: 255 });
    assert_eq!(grid[1], C::Int { r: 255, g: 255, b: 0, a: 255 });
    assert_eq!(grid[7], C::Int { r: 0, g: 0, b: 254, a: 255 });
    assert_eq!(grid[40], C::Int { r: 8, g: 62, b: 90, a: 255 });
    let wide = visualizer::draw_func::render(&s, &(16, 6));
    assert_eq!(wide[0], C::Unset);
    assert_eq!(wide[4], C::Int { r: 204, g: 204, b: 204, a: 255 });
}

#[test]
fn a_rendered_grid_is_the_pixels_one_by_one() {
    let cs = ColorStatus { angle: 77 * ONE, mode: CSMode::Conic, mouse_position: (0, 0) };
    for aa in [0u8, 2] {
        let s = session(DrawMode::Color(cs), (3, 3), aa);
        let size = (6, 5);
        let grid = visualizer::draw_func::render(&s, &size);
        let subs = aa_subpixels(aa, &size, false);
        assert_eq!(grid.len(), 30);
        for y in 0..5u16 {
            for x in 0..6u16 {
                let c = get_color(x, y, &size, &s, &subs);
                assert_eq!(grid[(y * 6 + x) as usize], c);
                assert_eq!(visualizer::draw_func::pixel_color(x, y, &s, &size, &subs), c);
            }
        }
    }
}
