use visualizer::data::{NewtonApproxStatus, C};
use visualizer::draw_func_mandelbrot::{escape_color_at, mandelbrot_fragment, CAP};
use visualizer::draw_func_newton::{newton_color_at, newton_fragment};
use visualizer::draw_lib::deg2rgb;
use visualizer::fixed::ONE;

fn black() -> C {
    C::GFloat { v: 0, a: ONE }
}

fn newton(p: usize, tau: i64, max: usize, speed: bool) -> NewtonApproxStatus {
    NewtonApproxStatus { p, tau, max, speed }
}

#[test]
fn parameter_zero_never_escapes_and_is_black() {
    assert_eq!(CAP, 200);
    assert_eq!(mandelbrot_fragment(&(3 * ONE / 4, ONE / 2), &(100, 100)), black());
    assert_eq!(mandelbrot_fragment(&(5 * ONE / 8, ONE / 2), &(200, 100)), black());
    assert_eq!(mandelbrot_fragment(&(3 * ONE / 4, ONE / 2), &(100, 300)), black());
}

#[test]
fn the_main_bulbs_are_black() {
    let size = (100, 100);
    assert_eq!(mandelbrot_fragment(&(ONE / 2, ONE / 2), &size), black());
    assert_eq!(mandelbrot_fragment(&(ONE / 4, ONE / 2), &size), black());
    assert_eq!(mandelbrot_fragment(&(7 * ONE / 10, 6 * ONE / 10), &size), black());
}

#[test]
fn far_points_escape_at_once_and_are_blue() {
    let blue = C::Float { r: 0, g: 0, b: 3 * ONE / 5, a: ONE };
    assert_eq!(mandelbrot_fragment(&(0, ONE / 2), &(400, 100)), blue);
    assert_eq!(mandelbrot_fragment(&(ONE, ONE), &(400, 100)), blue);
    assert_eq!(mandelbrot_fragment(&(ONE / 2, 0), &(100, 400)), blue);
    assert_eq!(mandelbrot_fragment(&(0, 0), &(100, 100)), escape_color_at(1));
    assert_eq!(escape_color_at(1), C::Float { r: 0, g: 9_072_000, b: 3 * ONE / 5, a: ONE });
    assert_eq!(mandelbrot_fragment(&(0, ONE / 2), &(65535, 1)), blue);
    assert_eq!(escape_color_at(0), blue);
}

#[test]
fn escape_time_sets_the_hue() {
    let c = mandelbrot_fragment(&(9 * ONE / 10, ONE / 2), &(100, 100));
    assert_eq!(c, C::Float { r: 0, g: 99_792_000, b: 604_800_000, a: ONE });
    assert_eq!(c, escape_color_at(11));
    assert_eq!(escape_color_at(199), C::Float { r: 595_728_000, g: 3 * ONE / 5, b: 0, a: ONE });
    assert_eq!(escape_color_at(100), C::Float { r: 0, g: 3 * ONE / 5, b: 302_400_000, a: ONE });
}

#[test]
fn escape_times_agree_with_the_real_recurrence() {
    let size = (64, 64);
    let mut agree = 0;
    let mut total = 0;
    for i in 0..64i64 {
        for j in 0..64i64 {
            let c = (i * ONE / 64 + ONE / 128, j * ONE / 64 + ONE / 128);
            let cr = (2 * c.0 - ONE) as f64 / ONE as f64 - 0.5;
            let ci = (ONE - 2 * c.1) as f64 / ONE as f64;
            let (mut zr, mut zi) = (0.0f64, 0.0f64);
            let mut n: Option<u32> = None;
            for k in 0..200u32 {
                let t = zr * zr - zi * zi + cr;
                zi = 2.0 * zr * zi + ci;
                zr = t;
                if zr * zr + zi * zi > 4.0 {
                    n = Some(k);
                    break;
                }
            }
            let want = match n {
                Some(k) => escape_color_at(k),
                None => black(),
            };
            total += 1;
            if mandelbrot_fragment(&c, &size) == want {
                agree += 1;
            }
        }
    }
    assert!(agree * 100 >= total * 99, "{} of {}", agree, total);
}

#[test]
fn the_seed_one_arrives_at_once_with_hue_zero() {
    let size = (100, 100);
    let seed = (ONE, ONE / 2);
    let plain = newton(2, ONE, 1000, false);
    assert_eq!(newton_fragment(&seed, &size, &plain), C::Float { r: 3 * ONE / 5, g: 0, b: 0, a: ONE });
    let timed = newton(2, ONE, 100, true);
    assert_eq!(
        newton_fragment(&seed, &size, &timed),
        C::Float { r: 3 * ONE / 5, g: 0, b: 0, a: ONE }
    );
    let short = newton(2, ONE, 1, true);
    assert_eq!(
        newton_fragment(&seed, &size, &short),
        C::Float { r: 3 * ONE / 5, g: 0, b: 0, a: ONE }
    );
    for p in [3usize, 6, 17] {
        let higher = newton(p, ONE / 10, 50, false);
        assert_eq!(
            newton_fragment(&seed, &size, &higher),
            C::Float { r: 3 * ONE / 5, g: 0, b: 0, a: ONE }
        );
    }
}

#[test]
fn the_seed_minus_one_arrives_at_the_other_square_root() {
    let c = newton_fragment(&(0, ONE / 2), &(100, 100), &newton(2, ONE, 1000, false));
    assert_eq!(c, C::Float { r: 0, g: 3 * ONE / 5, b: 3 * ONE / 5, a: ONE });
}

#[test]
fn square_roots_split_the_plane_left_and_right() {
    let size = (100, 100);
    let nas = newton(2, ONE, 1000, false);
    let red = C::Float { r: 3 * ONE / 5, g: 0, b: 0, a: ONE };
    let cyan = C::Float { r: 0, g: 3 * ONE / 5, b: 3 * ONE / 5, a: ONE };
    for y in [ONE / 10, ONE / 3, ONE / 2, 9 * ONE / 10] {
        match newton_fragment(&(9 * ONE / 10, y), &size, &nas) {
            C::Float { r, g, b, a } => {
                assert!((r - 3 * ONE / 5).abs() < 1000 && g < 1000 && b < 1000 && a == ONE);
            },
            other => panic!("{:?}", other),
        }
        match newton_fragment(&(ONE / 10, y), &size, &nas) {
            C::Float { r, g, b, a } => {
                assert!(r < 1000 && (g - 3 * ONE / 5).abs() < 1000 && (b - 3 * ONE / 5).abs() < 1000);
                assert_eq!(a, ONE);
            },
            other => panic!("{:?}", other),
        }
    }
    assert_eq!(newton_color_at(0, 0, &nas), red);
    assert_eq!(newton_color_at(180 * ONE, 5, &nas), cyan);
}

#[test]
fn the_centre_has_no_step_and_is_black() {
    let size = (100, 100);
    assert_eq!(newton_fragment(&(ONE / 2, ONE / 2), &size, &newton(2, ONE, 1000, false)), black());
    assert_eq!(newton_fragment(&(ONE / 2, ONE / 2), &size, &newton(6, ONE / 10, 1000, true)), black());
}

#[test]
fn an_empty_budget_is_black() {
    assert_eq!(newton_fragment(&(ONE, ONE / 2), &(100, 100), &newton(2, ONE, 0, false)), black());
}

#[test]
fn slow_arrival_is_darker_when_speed_is_shown() {
    let nas = newton(3, ONE, 10, true);
    assert_eq!(newton_color_at(0, 0, &nas), C::Float { r: 3 * ONE / 5, g: 0, b: 0, a: ONE });
    assert_eq!(newton_color_at(0, 5, &nas), C::Float { r: 3 * ONE / 10, g: 0, b: 0, a: ONE });
    assert_eq!(
        newton_color_at(60 * ONE, 9, &nas),
        C::Float { r: 3 * ONE / 50, g: 3 * ONE / 50, b: 0, a: ONE }
    );
    let third = newton(3, ONE, 3, true);
    assert_eq!(newton_color_at(0, 1, &third), C::Float { r: 2 * ONE / 5, g: 0, b: 0, a: ONE });
    let plain = newton(3, ONE, 10, false);
    assert_eq!(newton_color_at(0, 9, &plain), C::Float { r: 3 * ONE / 5, g: 0, b: 0, a: ONE });
}

#[test]
fn cube_roots_have_three_basins() {
    let size = (100, 100);
    let nas = newton(3, ONE, 200, false);
    let hue_of = |c: (i64, i64)| match newton_fragment(&c, &size, &nas) {
        C::Float { r, g, b, .. } => (r, g, b),
        other => panic!("{:?}", other),
    };
    let near = |a: i64, b: i64| (a - b).abs() < 100_000;
    let (r, g, b) = hue_of((ONE, ONE / 2));
    assert!(near(r, 3 * ONE / 5) && near(g, 0) && near(b, 0));
    let (r, g, b) = hue_of((ONE / 4, ONE / 2 - 433 * (ONE / 1000)));
    assert!(near(r, 0) && near(g, 3 * ONE / 5) && near(b, 0), "{:?}", (r, g, b));
    let (r, g, b) = hue_of((ONE / 4, ONE / 2 + 433 * (ONE / 1000)));
    assert!(near(r, 0) && near(g, 0) && near(b, 3 * ONE / 5), "{:?}", (r, g, b));
}

#[test]
fn extreme_parameters_do_not_leave_the_range() {
    let size = (65535, 1);
    for nas in [
        newton(2, i64::MAX, 50, false),
        newton(2, 1, 50, true),
        newton(40, ONE, 50, false),
        newton(1000, ONE / 2, 3, true),
    ] {
        for c in [(0, 0), (ONE, ONE), (ONE / 2 + 1, ONE / 2), (ONE / 3, ONE / 2)] {
            match newton_fragment(&c, &size, &nas) {
                C::Float { r, g, b, a } => {
                    assert!(0 <= r && r <= ONE && 0 <= g && g <= ONE && 0 <= b && b <= ONE);
                    assert_eq!(a, ONE);
                },
                C::GFloat { v, a } => {
                    assert_eq!((v, a), (0, ONE));
                },
                other => panic!("{:?}", other),
            }
        }
    }
}

#[test]
fn a_seed_near_zero_is_thrown_out_and_comes_back() {
    let size = (100, 100);
    let red = |c: C| match c {
        C::Float { r, g, b, a } => {
            (r - 3 * ONE / 5).abs() < 100_000 && g < 100_000 && b < 100_000 && a == ONE
        },
        _ => false,
    };
    let square = newton(2, ONE, 100, false);
    assert!(red(newton_fragment(&(ONE / 2 + 1, ONE / 2), &size, &square)));
    assert!(red(newton_fragment(&(ONE / 2 + 1000, ONE / 2), &size, &square)));
    let high = newton(20, ONE, 3000, false);
    assert!(red(newton_fragment(&(11 * ONE / 20, ONE / 2), &size, &high)));
    assert!(red(newton_fragment(&(3 * ONE / 5, ONE / 2), &size, &high)));
    let short = newton(20, ONE, 100, false);
    assert_eq!(newton_fragment(&(11 * ONE / 20, ONE / 2), &size, &short), black());
}

#[test]
fn basins_agree_with_the_real_iteration() {
    let size = (48, 48);
    for (p, tau, max) in [(3usize, 1.0f64, 60usize), (5, 0.5, 200), (2, 1.0, 50)] {
        let nas = newton(p, (tau * ONE as f64) as i64, max, false);
        let mut agree = 0;
        let mut total = 0;
        for i in 0..48i64 {
            for j in 0..48i64 {
                let c = (i * ONE / 48 + ONE / 96, j * ONE / 48 + ONE / 96);
                let mut z = ((2 * c.0 - ONE) as f64 / ONE as f64, (ONE - 2 * c.1) as f64 / ONE as f64);
                let mut want = black();
                for _ in 0..max {
                    let mut w = (1.0f64, 0.0f64);
                    for _ in 0..p - 1 {
                        w = (w.0 * z.0 - w.1 * z.1, w.0 * z.1 + w.1 * z.0);
                    }
                    let zp = (w.0 * z.0 - w.1 * z.1 - 1.0, w.0 * z.1 + w.1 * z.0);
                    let den = (p as f64) * (w.0 * w.0 + w.1 * w.1);
                    let q = ((zp.0 * w.0 + zp.1 * w.1) / den, (zp.1 * w.0 - zp.0 * w.1) / den);
                    let dz = (-tau * q.0, -tau * q.1);
                    if (dz.0 * dz.0 + dz.1 * dz.1).sqrt() <= 1e-6 {
                        let deg = z.1.atan2(z.0).to_degrees();
                        let (r, g, b) = deg2rgb((deg * ONE as f64).round() as i64);
                        want = C::Float { r: 3 * r / 5, g: 3 * g / 5, b: 3 * b / 5, a: ONE };
                        break;
                    }
                    z = (z.0 + dz.0, z.1 + dz.1);
                }
                let got = newton_fragment(&c, &size, &nas);
                let close = match (got, want) {
                    (C::Float { r, g, b, .. }, C::Float { r: wr, g: wg, b: wb, .. }) => {
                        (r - wr).abs() < ONE / 500 && (g - wg).abs() < ONE / 500 && (b - wb).abs() < ONE / 500
                    },
                    (a, b) => a == b,
                };
                total += 1;
                if close {
                    agree += 1;
                }
            }
        }
        assert!(agree * 100 >= total * 97, "p = {}: {} of {}", p, agree, total);
    }
}

#[test]
fn the_disc_of_radius_a_quarter_round_zero_is_black() {
    let size = (100, 100);
    assert_eq!(mandelbrot_fragment(&(7 * ONE / 8, ONE / 2), &size), black());
    assert_eq!(mandelbrot_fragment(&(5 * ONE / 8, ONE / 2), &size), black());
    assert_eq!(mandelbrot_fragment(&(3 * ONE / 4, 3 * ONE / 8), &size), black());
    assert_eq!(mandelbrot_fragment(&(3 * ONE / 4, 5 * ONE / 8), &size), black());
    let mut i: i64 = -20;
    while i <= 20 {
        let mut j: i64 = -20;
        while j <= 20 {
            if i * i + j * j <= 400 {
                let c = (3 * ONE / 4 + i * (ONE / 160), ONE / 2 + j * (ONE / 160));
                assert_eq!(mandelbrot_fragment(&c, &size), black(), "{:?}", (i, j));
            }
            j += 1;
        }
        i += 1;
    }
}
