use visualizer::fixed::{div_floor, mul_fx, mul_wide, rem_floor, CENT, ONE, ONE_SQUARED, TURN};

#[test]
fn the_unit_holds_every_breakpoint() {
    assert_eq!(ONE, 1_008_000_000);
    for d in [2i64, 3, 4, 5, 6, 7, 8, 9, 10, 12, 14, 16, 21, 25, 28, 32, 56, 100, 400, 800] {
        assert_eq!(ONE % d, 0, "{}", d);
    }
    assert_eq!(ONE % 50400, 0);
    assert_eq!(CENT * 100, ONE);
    assert_eq!(TURN, 360 * ONE);
    assert_eq!(ONE_SQUARED, ONE * ONE);
}

#[test]
fn wide_products_are_exact() {
    assert_eq!(mul_wide(3, -4), -12);
    assert_eq!(mul_wide(i64::MAX, i64::MAX), (i64::MAX as i128) * (i64::MAX as i128));
    assert_eq!(mul_wide(i64::MIN, i64::MIN), 1i128 << 126);
    assert_eq!(mul_wide(i64::MIN, i64::MAX), -(1i128 << 126) + (1i128 << 63));
}

#[test]
fn division_rounds_down() {
    assert_eq!(div_floor(7, 2), 3);
    assert_eq!(div_floor(-7, 2), -4);
    assert_eq!(div_floor(-8, 2), -4);
    assert_eq!(div_floor(0, 5), 0);
    assert_eq!(div_floor(-1, 1_000_000), -1);
    assert_eq!(div_floor(i128::MIN, 1), i128::MIN);
    assert_eq!(div_floor(i128::MAX, i128::MAX), 1);
}

#[test]
fn remainders_are_never_negative() {
    assert_eq!(rem_floor(7, 2), 1);
    assert_eq!(rem_floor(-7, 2), 1);
    assert_eq!(rem_floor(-8, 2), 0);
    assert_eq!(rem_floor(-1, 360), 359);
    assert_eq!(rem_floor(i128::MIN, 3), 1);
    for a in [-1000i128, -37, -1, 0, 1, 36, 999] {
        assert_eq!(div_floor(a, 37) * 37 + rem_floor(a, 37), a);
    }
}

#[test]
fn fixed_point_products_round_down() {
    assert_eq!(mul_fx(ONE, ONE), ONE as i128);
    assert_eq!(mul_fx(ONE / 2, ONE / 2), (ONE / 4) as i128);
    assert_eq!(mul_fx(-ONE / 2, ONE / 2), -(ONE / 4) as i128);
    assert_eq!(mul_fx(1, 1), 0);
    assert_eq!(mul_fx(-1, 1), -1);
    assert_eq!(mul_fx(3 * ONE, -2 * ONE), -6 * ONE as i128);
    assert_eq!(mul_fx(0, i64::MAX), 0);
}
