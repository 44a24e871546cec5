use visualizer::data::{CBSMode, ColorbarStatus, C};
use visualizer::draw_func_colorbar::{arib_fragment, colorbar_fragment, smpte_fragment};
use visualizer::fixed::ONE;

fn at(x: i64, y: i64) -> (i64, i64) {
    (x * (ONE / 100), y * (ONE / 100))
}

fn rgb(r: u8, g: u8, b: u8) -> C {
    C::Int { r, g, b, a: 255 }
}

fn pct(r: i64, g: i64, b: i64) -> C {
    C::Float { r: r * (ONE / 100), g: g * (ONE / 100), b: b * (ONE / 100), a: ONE }
}

#[test]
fn smpte_top_band_has_seven_bars() {
    let want = [
        rgb(204, 204, 204),
        rgb(255, 255, 0),
        rgb(0, 255, 255),
        rgb(0, 255, 1),
        rgb(255, 0, 254),
        rgb(254, 0, 0),
        rgb(0, 0, 254),
    ];
    for (k, w) in want.iter().enumerate() {
        let x = (2 * k as i64 + 1) * ONE / 14;
        assert_eq!(smpte_fragment((x, 0)), *w);
        assert_eq!(smpte_fragment((x, ONE / 3)), *w);
        assert_eq!(smpte_fragment((x, 2 * ONE / 3 - 1)), *w);
    }
    assert_eq!(smpte_fragment((ONE / 7, 0)), rgb(255, 255, 0));
    assert_eq!(smpte_fragment((ONE / 7 - 1, 0)), rgb(204, 204, 204));
}

#[test]
fn smpte_middle_strip_reverses_the_bars() {
    let want = [
        rgb(0, 0, 254),
        rgb(19, 19, 19),
        rgb(255, 0, 254),
        rgb(19, 19, 19),
        rgb(0, 255, 255),
        rgb(19, 19, 19),
        rgb(204, 204, 204),
    ];
    for (k, w) in want.iter().enumerate() {
        let x = (2 * k as i64 + 1) * ONE / 14;
        assert_eq!(smpte_fragment((x, 2 * ONE / 3)), *w);
        assert_eq!(smpte_fragment((x, 3 * ONE / 4 - 1)), *w);
    }
}

#[test]
fn smpte_bottom_band_has_the_calibration_blocks() {
    assert_eq!(smpte_fragment(at(10, 90)), rgb(8, 62, 90));
    assert_eq!(smpte_fragment(at(20, 90)), rgb(255, 255, 255));
    assert_eq!(smpte_fragment(at(40, 90)), rgb(59, 0, 126));
    assert_eq!(smpte_fragment(at(60, 90)), rgb(19, 19, 19));
    assert_eq!(smpte_fragment(at(72, 90)), rgb(0, 0, 0));
    assert_eq!(smpte_fragment(at(78, 90)), rgb(19, 19, 19));
    assert_eq!(smpte_fragment(at(82, 90)), rgb(38, 38, 38));
    assert_eq!(smpte_fragment(at(90, 90)), rgb(19, 19, 19));
    assert_eq!(smpte_fragment(at(50, 75)), rgb(59, 0, 126));
    assert_eq!(smpte_fragment((5 * ONE / 28, ONE)), rgb(255, 255, 255));
    assert_eq!(smpte_fragment((5 * ONE / 28 - 1, ONE)), rgb(8, 62, 90));
    assert_eq!(smpte_fragment((16 * ONE / 21, 4 * ONE / 5)), rgb(19, 19, 19));
    assert_eq!(smpte_fragment((16 * ONE / 21 - 1, 4 * ONE / 5)), rgb(0, 0, 0));
}

#[test]
fn smpte_right_edge_has_no_colour() {
    assert_eq!(smpte_fragment((ONE, 0)), C::Unset);
    assert_eq!(smpte_fragment((ONE, 7 * ONE / 10)), C::Unset);
    assert_eq!(smpte_fragment((ONE, ONE)), C::Unset);
}

#[test]
fn arib_side_columns() {
    assert_eq!(arib_fragment(at(5, 10)), pct(40, 40, 40));
    assert_eq!(arib_fragment(at(95, 10)), pct(40, 40, 40));
    assert_eq!(arib_fragment(at(5, 60)), pct(0, 100, 100));
    assert_eq!(arib_fragment(at(95, 60)), pct(0, 0, 100));
    assert_eq!(arib_fragment(at(5, 70)), pct(100, 100, 0));
    assert_eq!(arib_fragment(at(95, 70)), pct(100, 0, 0));
    assert_eq!(arib_fragment(at(5, 90)), pct(15, 15, 15));
    assert_eq!(arib_fragment(at(95, 90)), pct(15, 15, 15));
    assert_eq!(arib_fragment((ONE / 8, 0)), pct(40, 40, 40));
    assert_eq!(arib_fragment((7 * ONE / 8, 0)), pct(40, 40, 40));
}

#[test]
fn arib_outer_edges_have_no_colour() {
    assert_eq!(arib_fragment((0, ONE / 2)), C::Unset);
    assert_eq!(arib_fragment((ONE, ONE / 2)), C::Unset);
    assert_eq!(arib_fragment((0, 0)), C::Unset);
}

#[test]
fn arib_top_band_has_seven_bars_at_three_quarters() {
    let want = [
        pct(75, 75, 75),
        pct(75, 75, 0),
        pct(0, 75, 75),
        pct(0, 75, 0),
        pct(75, 0, 75),
        pct(75, 0, 0),
        pct(0, 0, 75),
    ];
    for (k, w) in want.iter().enumerate() {
        let x = ONE / 8 + (2 * k as i64 + 1) * (3 * ONE / 4) / 14;
        assert_eq!(arib_fragment((x, ONE / 4)), *w);
    }
    assert_eq!(arib_fragment(at(50, 10)), pct(0, 75, 0));
}

#[test]
fn arib_second_and_third_bands() {
    assert_eq!(arib_fragment(at(15, 60)), pct(100, 100, 100));
    assert_eq!(arib_fragment(at(50, 60)), pct(75, 75, 75));
    assert_eq!(
        arib_fragment((ONE / 8 + (3 * ONE / 4) / 7, 3 * ONE / 5)),
        pct(75, 75, 75)
    );
    assert_eq!(
        arib_fragment((ONE / 8 + (3 * ONE / 4) / 7 - 1, 3 * ONE / 5)),
        pct(100, 100, 100)
    );
    assert_eq!(arib_fragment(at(50, 70)), C::GFloat { v: ONE / 2, a: ONE });
    assert_eq!(arib_fragment(at(20, 70)), C::GFloat { v: ONE / 10, a: ONE });
    assert_eq!(arib_fragment(at(80, 70)), C::GFloat { v: 9 * ONE / 10, a: ONE });
}

#[test]
fn arib_bottom_band_has_the_calibration_blocks() {
    assert_eq!(arib_fragment(at(20, 90)), pct(0, 0, 0));
    assert_eq!(arib_fragment(at(30, 90)), pct(100, 100, 100));
    assert_eq!(arib_fragment(at(50, 90)), pct(0, 0, 0));
    assert_eq!(arib_fragment(at(60, 90)), pct(0, 0, 0));
    assert_eq!(arib_fragment(at(66, 90)), pct(0, 0, 0));
    assert_eq!(arib_fragment(at(68, 90)), pct(2, 2, 2));
    assert_eq!(arib_fragment(at(72, 90)), pct(0, 0, 0));
    assert_eq!(arib_fragment(at(74, 90)), pct(4, 4, 4));
    assert_eq!(arib_fragment(at(80, 90)), pct(0, 0, 0));
}

#[test]
fn bars_are_letterboxed_unless_they_repeat() {
    let once = ColorbarStatus { mode: CBSMode::SMPTE, repeat: false };
    let tiled = ColorbarStatus { mode: CBSMode::SMPTE, repeat: true };
    let size = (800, 300);
    assert_eq!(colorbar_fragment(&at(10, 10), &size, &once), C::Unset);
    assert_eq!(colorbar_fragment(&at(90, 10), &size, &once), C::Unset);
    assert_eq!(colorbar_fragment(&at(50, 10), &size, &once), rgb(0, 255, 1));
    assert_eq!(colorbar_fragment(&at(30, 10), &size, &once), rgb(204, 204, 204));
    assert_eq!(colorbar_fragment(&at(10, 10), &size, &tiled), rgb(255, 0, 254));
    assert_eq!(colorbar_fragment(&at(90, 10), &size, &tiled), rgb(0, 255, 255));
    assert_eq!(colorbar_fragment(&at(50, 10), &size, &tiled), rgb(0, 255, 1));
    let fit = (400, 300);
    assert_eq!(colorbar_fragment(&at(10, 10), &fit, &once), rgb(204, 204, 204));
    let arib = ColorbarStatus { mode: CBSMode::ARIB, repeat: false };
    assert_eq!(colorbar_fragment(&at(50, 10), &(1600, 900), &arib), pct(0, 75, 0));
    assert_eq!(colorbar_fragment(&at(50, 2), &(900, 1600), &arib), C::Unset);
}

#[test]
fn tiled_bars_repeat_with_the_pattern() {
    let size = (800, 300);
    for mode in [CBSMode::SMPTE, CBSMode::ARIB] {
        let tiled = ColorbarStatus { mode, repeat: true };
        let arib_size = (3200, 900);
        let s = match mode {
            CBSMode::SMPTE => size,
            CBSMode::ARIB => arib_size,
        };
        let mut x: i64 = 0;
        while x <= ONE / 2 {
            for y in [0, ONE / 3, 7 * ONE / 10, 9 * ONE / 10] {
                let here = colorbar_fragment(&(x, y), &s, &tiled);
                let there = colorbar_fragment(&(x + ONE / 2, y), &s, &tiled);
                assert_eq!(here, there);
            }
            x += ONE / 200;
        }
    }
}
