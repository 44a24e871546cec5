use visualizer::data::C;
use visualizer::draw_func_ansi::{ansi_fragment, gray_index_at};
use visualizer::fixed::ONE;

fn tall(x: i64, y: i64) -> C {
    ansi_fragment(&(x * (ONE / 100), y * (ONE / 100)), &(10, 10))
}

fn wide(x: i64, y: i64) -> C {
    ansi_fragment(&(x * (ONE / 100), y * (ONE / 100)), &(40, 10))
}

#[test]
fn first_group_has_blank_reverse_and_grey_scale() {
    assert_eq!(tall(5, 5), C::Unset);
    assert_eq!(tall(5, 15), C::Reverse);
    assert_eq!(tall(50, 5), C::Ansi(242));
    assert_eq!(tall(50, 15), C::GFloat { v: 3 * ONE / 7, a: ONE });
    assert_eq!(ansi_fragment(&(ONE / 8, 0), &(10, 10)), C::Unset);
    assert_eq!(ansi_fragment(&(ONE / 8 + 1, 0), &(10, 10)), C::Ansi(16));
    assert_eq!(ansi_fragment(&(ONE - 1, 0), &(10, 10)), C::Ansi(231));
    assert_eq!(ansi_fragment(&(ONE / 8 + 7 * ONE / 16, 0), &(10, 10)), C::Ansi(244));
}

#[test]
fn grey_scale_uses_the_cube_corners_and_the_ramp() {
    assert_eq!(gray_index_at(0), 16);
    assert_eq!(gray_index_at(1), 232);
    assert_eq!(gray_index_at(24), 255);
    assert_eq!(gray_index_at(25), 231);
}

#[test]
fn second_group_names_the_sixteen_colours() {
    let light = [C::KL, C::RL, C::GL, C::YL, C::BL, C::ML, C::CL, C::WL];
    let dark = [C::KD, C::RD, C::GD, C::YD, C::BD, C::MD, C::CD, C::WD];
    for k in 0..8i64 {
        let x = (2 * k + 1) * ONE / 16;
        assert_eq!(ansi_fragment(&(x, ONE / 4), &(10, 10)), light[k as usize]);
        assert_eq!(ansi_fragment(&(x, 7 * ONE / 20), &(10, 10)), dark[k as usize]);
    }
}

#[test]
fn third_group_counts_the_palette() {
    for k in 0..8i64 {
        let x = (2 * k + 1) * ONE / 16;
        assert_eq!(ansi_fragment(&(x, 9 * ONE / 20), &(10, 10)), C::Ansi(8 + k as u8));
        assert_eq!(ansi_fragment(&(x, 11 * ONE / 20), &(10, 10)), C::Ansi(k as u8));
    }
}

#[test]
fn fourth_group_shows_the_colours_in_true_colour() {
    let rgb = |r: u8, g: u8, b: u8| C::Int { r, g, b, a: 0xff };
    let light = [
        rgb(0x80, 0x80, 0x80),
        rgb(0xff, 0x00, 0x00),
        rgb(0x00, 0xff, 0x00),
        rgb(0xff, 0xff, 0x00),
        rgb(0x00, 0x00, 0xff),
        rgb(0xff, 0x00, 0xff),
        rgb(0x00, 0xff, 0xff),
        rgb(0xff, 0xff, 0xff),
    ];
    let dark = [
        rgb(0x00, 0x00, 0x00),
        rgb(0x80, 0x00, 0x00),
        rgb(0x00, 0x80, 0x00),
        rgb(0x80, 0x80, 0x00),
        rgb(0x00, 0x00, 0x80),
        rgb(0x80, 0x00, 0x80),
        rgb(0x00, 0x80, 0x80),
        rgb(0xc0, 0xc0, 0xc0),
    ];
    for k in 0..8i64 {
        let x = (2 * k + 1) * ONE / 16;
        assert_eq!(ansi_fragment(&(x, 13 * ONE / 20), &(10, 10)), light[k as usize]);
        assert_eq!(ansi_fragment(&(x, 15 * ONE / 20), &(10, 10)), dark[k as usize]);
    }
}

#[test]
fn fifth_group_shows_the_colours_in_the_cube() {
    let light: [u8; 8] = [244, 196, 46, 226, 21, 201, 51, 231];
    let dark: [u8; 8] = [16, 88, 28, 100, 18, 90, 30, 250];
    for k in 0..8i64 {
        let x = (2 * k + 1) * ONE / 16;
        assert_eq!(ansi_fragment(&(x, 17 * ONE / 20), &(10, 10)), C::Ansi(light[k as usize]));
        assert_eq!(ansi_fragment(&(x, 19 * ONE / 20), &(10, 10)), C::Ansi(dark[k as usize]));
    }
}

#[test]
fn wide_canvas_puts_four_groups_in_a_block() {
    assert_eq!(wide(50, 10), C::Ansi(242));
    assert_eq!(wide(3, 20), C::Reverse);
    assert_eq!(wide(10, 50), C::RD);
    assert_eq!(wide(10, 40), C::RL);
    assert_eq!(wide(10, 70), C::Ansi(9));
    assert_eq!(wide(10, 90), C::Ansi(1));
    assert_eq!(wide(60, 40), C::Int { r: 0xff, g: 0, b: 0, a: 0xff });
    assert_eq!(wide(60, 90), C::Ansi(88));
    assert_eq!(wide(60, 70), C::Ansi(196));
    assert_eq!(ansi_fragment(&(ONE / 2, ONE / 2), &(20, 10)), C::Int { r: 0, g: 0, b: 0, a: 0xff });
    assert_eq!(ansi_fragment(&(ONE / 2, ONE / 2), &(19, 10)), C::Ansi(4));
}

#[test]
fn the_grey_scale_ends_in_white_on_the_right_edge() {
    for size in [(10u16, 10u16), (40, 10)] {
        assert_eq!(ansi_fragment(&(ONE, 0), &size), C::Ansi(231));
        assert_eq!(ansi_fragment(&(ONE, ONE / 20), &size), C::Ansi(231));
    }
    assert_eq!(ansi_fragment(&(ONE, 3 * ONE / 20), &(10, 10)), C::GFloat { v: ONE, a: ONE });
    assert_eq!(ansi_fragment(&(ONE, ONE / 5 - 1), &(10, 10)), C::GFloat { v: ONE, a: ONE });
    assert_eq!(ansi_fragment(&(ONE, ONE / 4), &(40, 10)), C::GFloat { v: ONE, a: ONE });
    assert_eq!(ansi_fragment(&(ONE, ONE / 5), &(10, 10)), C::Unset);
    assert_eq!(ansi_fragment(&(ONE, ONE / 3), &(40, 10)), C::Unset);
}

#[test]
fn far_edges_have_no_colour() {
    assert_eq!(tall(100, 50), C::Unset);
    assert_eq!(tall(50, 100), C::Unset);
    assert_eq!(wide(100, 50), C::Unset);
    assert_eq!(wide(50, 100), C::Unset);
    assert_eq!(ansi_fragment(&(ONE - 1, ONE - 1), &(10, 10)), C::Ansi(250));
    assert_eq!(ansi_fragment(&(ONE - 1, ONE - 1), &(40, 10)), C::Ansi(250));
}

#[test]
fn every_point_has_one_swatch() {
    let mut x: i64 = 0;
    while x <= ONE {
        let mut y: i64 = 0;
        while y <= ONE {
            for size in [(10u16, 10u16), (40, 10), (65535, 65535), (1, 1)] {
                let c = ansi_fragment(&(x, y), &size);
                if let C::GFloat { v, a } = c {
                    assert!(0 <= v && v <= ONE && a == ONE);
                }
            }
            y += ONE / 97;
        }
        x += ONE / 89;
    }
}
