use hough_image::geometry::calculate_rho;
use hough_image::reconstruct::line_from_rho_theta;

#[test]
fn test_calculate_rho() {
    let theta_axis_size = 180;

    assert_eq!(50, calculate_rho(0, theta_axis_size, 50, 40).round());
    assert_eq!(64, calculate_rho(45, theta_axis_size, 50, 40).round());
    assert_eq!(40, calculate_rho(90, theta_axis_size, 50, 40).round());
    assert_eq!(-50, calculate_rho(180, theta_axis_size, 50, 40).round());
    assert_eq!(-40, calculate_rho(270, theta_axis_size, 50, 40).round());
    assert_eq!(-7, calculate_rho(135, theta_axis_size, 50, 40).round());
}

#[test]
fn test_line_from_rho_theta_special_cases() {
    let img_width = 100;
    let img_height = 90;

    let x = 50;
    let y = 40;

    let theta_axis_size = 180;
    let theta_axis_scale_factor = 1;

    let line_coordinates = line_from_rho_theta(
        0,
        theta_axis_scale_factor,
        calculate_rho(0, theta_axis_size, x, y),
        img_width,
        img_height,
    );

    assert_eq!((50, 90, 50, 0), line_coordinates);

    let line_coordinates = line_from_rho_theta(
        30,
        theta_axis_scale_factor,
        calculate_rho(30, theta_axis_size, x, y),
        img_width,
        img_height,
    );

    assert_eq!((0, 127, 73, 0), line_coordinates);

    let line_coordinates = line_from_rho_theta(
        45,
        theta_axis_scale_factor,
        calculate_rho(45, theta_axis_size, x, y),
        img_width,
        img_height,
    );

    assert_eq!((0, 90, 90, 0), line_coordinates);

    let line_coordinates = line_from_rho_theta(
        90,
        theta_axis_scale_factor,
        calculate_rho(90, theta_axis_size, x, y),
        img_width,
        img_height,
    );

    assert_eq!((0, 40, 100, 40), line_coordinates);

    let line_coordinates = line_from_rho_theta(
        120,
        theta_axis_scale_factor,
        calculate_rho(120, theta_axis_size, x, y),
        img_width,
        img_height,
    );

    assert_eq!((-19, 0, 100, 69), line_coordinates);

    let line_coordinates = line_from_rho_theta(
        135,
        theta_axis_scale_factor,
        calculate_rho(135, theta_axis_size, x, y),
        img_width,
        img_height,
    );

    assert_eq!((10, 0, 100, 90), line_coordinates);

    let line_coordinates = line_from_rho_theta(
        180,
        theta_axis_scale_factor,
        calculate_rho(180, theta_axis_size, x, y),
        img_width,
        img_height,
    );

    assert_eq!((50, 90, 50, 0), line_coordinates);

    // increase theta axis by two: then theta equals to 180 is the same as if theta is 90 for
    // scale factor of 1
    let theta_axis_size = 360;
    let theta_axis_scale_factor = 2;

    let line_coordinates = line_from_rho_theta(
        180,
        theta_axis_scale_factor,
        calculate_rho(180, theta_axis_size, x, y),
        img_width,
        img_height,
    );

    assert_eq!((0, 40, 100, 40), line_coordinates);
}

use hough_image::fixed::{Fixed, ONE};
use hough_image::geometry::{calculate_max_line_length, deg2rad, scale_rho};
use hough_image::reconstruct::{angle_regime, Regime};
use hough_image::render::rho_of_bin;
use hough_image::trig::{cosine, sine, PI_RAW};

fn as_real(raw: i128) -> f64 {
    raw as f64 / ONE as f64
}

#[test]
fn rho_is_exact_along_the_axes() {
    assert_eq!(50 * ONE, calculate_rho(0, 180, 50, 40).raw);
    assert_eq!(40 * ONE, calculate_rho(90, 180, 50, 40).raw);
    assert_eq!(-50 * ONE, calculate_rho(180, 180, 50, 40).raw);
    assert_eq!(-40 * ONE, calculate_rho(270, 180, 50, 40).raw);
    assert_eq!(50 * ONE, calculate_rho(360, 180, 50, 40).raw);
}

#[test]
fn rho_is_close_to_the_real_value() {
    for axis in [180u32, 360, 540, 7, 1, 1000] {
        for theta in 0..(2 * axis + 3) {
            let angle = theta as f64 * std::f64::consts::PI / axis as f64;
            let expected = 50.0 * angle.cos() + 40.0 * angle.sin();
            let rho = calculate_rho(theta, axis, 50, 40);
            assert!((as_real(rho.raw) - expected).abs() < 1e-11);
        }
    }
}

#[test]
fn rho_changes_sign_after_half_a_turn() {
    for axis in [180u32, 360, 7, 1, 2, 12345] {
        for theta in [0u32, 1, 2, 3, 44, 45, 89, 90, 91, 179, 180, 181, 359, 360, 1000, 12344] {
            let here = calculate_rho(theta, axis, 50, 40).raw;
            assert_eq!(-here, calculate_rho(theta + axis, axis, 50, 40).raw);
            assert_eq!(here, calculate_rho(theta + 2 * axis, axis, 50, 40).raw);
        }
    }
}

#[test]
fn sine_and_cosine_are_close_to_the_real_values() {
    for axis in [180u32, 360, 7, 3, 1, 1024, 99_999] {
        for theta in 0..(4 * axis).min(3000) {
            let angle = theta as f64 * std::f64::consts::PI / axis as f64;
            assert!((as_real(sine(theta, axis) as i128) - angle.sin()).abs() < 1e-13);
            assert!((as_real(cosine(theta, axis) as i128) - angle.cos()).abs() < 1e-13);
        }
    }
}

#[test]
fn sine_and_cosine_are_exact_at_the_quarter_turns() {
    assert_eq!(0, sine(0, 180));
    assert_eq!(ONE, sine(90, 180) as i128);
    assert_eq!(0, sine(180, 180));
    assert_eq!(-ONE, sine(270, 180) as i128);
    assert_eq!(ONE, cosine(0, 180) as i128);
    assert_eq!(0, cosine(90, 180));
    assert_eq!(-ONE, cosine(180, 180) as i128);
    assert_eq!(sine(45, 180), cosine(45, 180));
    assert_eq!(sine(30, 180), cosine(60, 180));
    assert_eq!(sine(u32::MAX, u32::MAX), 0);
}

#[test]
fn degrees_to_radians_follow_the_axis_size() {
    assert_eq!(PI_RAW, deg2rad(180, 180).raw);
    assert_eq!(PI_RAW, deg2rad(360, 360).raw);
    assert_eq!(2 * PI_RAW, deg2rad(360, 180).raw);
    assert_eq!(0, deg2rad(0, 180).raw);
    assert_eq!(442139859501778, deg2rad(90, 180).raw);
    assert_eq!(deg2rad(45, 180), deg2rad(90, 360));
    for (deg, axis) in [(1u32, 180u32), (30, 180), (179, 180), (271, 360), (5, 7)] {
        let expected = deg as f64 * std::f64::consts::PI / axis as f64;
        assert!((as_real(deg2rad(deg, axis).raw) - expected).abs() < 1e-14);
    }
}

#[test]
fn max_line_length_is_the_diagonal_rounded_up() {
    assert_eq!(135, calculate_max_line_length(100, 90));
    assert_eq!(5, calculate_max_line_length(3, 4));
    assert_eq!(2, calculate_max_line_length(1, 1));
    assert_eq!(142, calculate_max_line_length(100, 100));
    assert_eq!(0, calculate_max_line_length(0, 0));
    assert_eq!(7, calculate_max_line_length(7, 0));
    assert_eq!(7, calculate_max_line_length(0, 7));
    assert_eq!(6074000999, calculate_max_line_length(u32::MAX, u32::MAX));
}

#[test]
fn fixed_point_numbers_round_half_away_from_zero() {
    assert_eq!(3, Fixed::from_int(3).round());
    assert_eq!(-3, Fixed::from_int(-3).round());
    assert_eq!(1, Fixed { raw: ONE / 2 }.round());
    assert_eq!(0, Fixed { raw: ONE / 2 - 1 }.round());
    assert_eq!(-1, Fixed { raw: -ONE / 2 }.round());
    assert_eq!(0, Fixed { raw: -ONE / 2 + 1 }.round());
    assert_eq!(-(1i128 << 79), Fixed { raw: i128::MIN }.round());
    assert_eq!(1i128 << 79, Fixed { raw: i128::MAX }.round());
}

#[test]
fn rho_is_scaled_to_bins() {
    // half of 135 bins, rounded, is 68: round(50 * 68 / 135) + 68
    assert_eq!(93, scale_rho(Fixed::from_int(50), 135, 135));
    assert_eq!(43, scale_rho(Fixed::from_int(-50), 135, 135));
    assert_eq!(185, scale_rho(Fixed::from_int(50), 270, 135));
    assert_eq!(100, scale_rho(calculate_rho(45, 180, 50, 40), 135, 135));
    assert_eq!(68, scale_rho(Fixed::from_int(0), 135, 135));
    // a tie: 1 * 3 / 6 is one half and goes away from zero
    assert_eq!(4, scale_rho(Fixed::from_int(1), 6, 6));
    assert_eq!(2, scale_rho(Fixed::from_int(-1), 6, 6));
}

#[test]
fn scaled_rho_stays_in_the_range_of_the_bins_type() {
    assert_eq!(0, scale_rho(Fixed::from_int(-1000), 135, 135));
    assert_eq!(u32::MAX, scale_rho(Fixed::from_int(i64::MAX), 135, 135));
    assert_eq!(u32::MAX, scale_rho(Fixed { raw: i128::MAX }, u32::MAX, 1));
    assert_eq!(0, scale_rho(Fixed { raw: i128::MIN }, u32::MAX, 1));
    assert_eq!(0, scale_rho(Fixed { raw: i128::MIN }, 0, u32::MAX));
}

#[test]
fn bins_are_scaled_back_to_rho() {
    assert_eq!(0, rho_of_bin(68, 135, 135).raw);
    assert_eq!(-135 * ONE, rho_of_bin(0, 135, 135).raw);
    assert_eq!(50, rho_of_bin(93, 135, 135).round());
    assert!((as_real(rho_of_bin(93, 135, 135).raw) - 25.0 * 135.0 / 68.0).abs() < 1e-12);
    assert_eq!(131, rho_of_bin(134, 135, 135).round());
    assert_eq!(70 * ONE, rho_of_bin(106, 142, 142).raw);
}

#[test]
fn line_of_the_horizontal_regime() {
    assert_eq!((0, 40, 100, 40), line_from_rho_theta(90, 1, Fixed::from_int(40), 100, 90));
}

#[test]
fn line_of_the_rising_regime_with_negative_rho() {
    assert_eq!((10, 0, 100, 90), line_from_rho_theta(135, 1, Fixed::from_int(-7), 100, 90));
}

#[test]
fn lines_of_more_angles() {
    assert_eq!((-23, 0, 100, 213), line_from_rho_theta(150, 1, Fixed::from_int(20), 100, 90));
    assert_eq!((23, 0, 100, 133), line_from_rho_theta(150, 1, Fixed::from_int(-20), 100, 90));
    assert_eq!((17, 0, 10, -1), line_from_rho_theta(100, 1, Fixed::from_int(-3), 10, 10));
    assert_eq!((30, 90, 30, 0), line_from_rho_theta(0, 1, Fixed::from_int(-30), 100, 90));
    assert_eq!((0, 0, 100, 100), line_from_rho_theta(135, 1, Fixed::from_int(0), 100, 100));
}

#[test]
fn theta_is_descaled_to_whole_degrees() {
    assert_eq!(Regime::Vertical, angle_regime(0, 1));
    assert_eq!(Regime::Vertical, angle_regime(180, 1));
    assert_eq!(Regime::Horizontal, angle_regime(90, 1));
    assert_eq!(Regime::Horizontal, angle_regime(180, 2));
    assert_eq!(Regime::Falling { alpha: 30 }, angle_regime(30, 1));
    assert_eq!(Regime::Rising { alpha: 30 }, angle_regime(120, 1));
    assert_eq!(Regime::Beyond, angle_regime(181, 1));
    // 91 / 2 and 1 / 2 lie between two degrees and go to the higher one
    assert_eq!(Regime::Falling { alpha: 46 }, angle_regime(91, 2));
    assert_eq!(Regime::Falling { alpha: 1 }, angle_regime(1, 2));
    assert_eq!(Regime::Vertical, angle_regime(1, 3));
    assert_eq!(Regime::Vertical, angle_regime(359, 2));
    assert_eq!((0, 42, 43, 0), line_from_rho_theta(91, 2, Fixed::from_int(30), 100, 90));
    assert_eq!((0, 1719, 30, 0), line_from_rho_theta(1, 2, Fixed::from_int(30), 100, 90));
}

#[test]
fn no_line_beyond_the_half_turn() {
    assert_eq!((0, 0, 0, 0), line_from_rho_theta(200, 1, Fixed::from_int(5), 100, 90));
    assert_eq!((0, 0, 0, 0), line_from_rho_theta(u32::MAX, 1, Fixed::from_int(5), 100, 90));
}

#[test]
fn coordinates_are_limited_to_32_bits() {
    let far = Fixed { raw: i128::MAX };
    assert_eq!((i32::MAX, 90, i32::MAX, 0), line_from_rho_theta(0, 1, far, 100, 90));
    assert_eq!((0, i32::MAX, 100, i32::MAX), line_from_rho_theta(90, 1, far, 100, 90));
    assert_eq!((0, i32::MAX, i32::MAX, 0), line_from_rho_theta(45, 1, far, 100, 90));
    assert_eq!((i32::MIN, 0, 100, i32::MAX), line_from_rho_theta(135, 1, far, 100, 90));
    let far_back = Fixed { raw: i128::MIN };
    assert_eq!((i32::MAX, 0, 100, i32::MIN), line_from_rho_theta(135, 1, far_back, 100, 90));
    assert_eq!(
        (0, 5, i32::MAX, 5),
        line_from_rho_theta(90, 1, Fixed::from_int(5), u32::MAX, u32::MAX)
    );
}

fn rho_at(theta: u32, axis: u32, x: i32, y: i32) -> i128 {
    x as i128 * cosine(theta, axis) as i128 + y as i128 * sine(theta, axis) as i128
}

#[test]
fn end_points_of_a_line_reproduce_rho() {
    for scale in [1u32, 2, 5] {
        for degrees in 0..180u32 {
            let theta = scale * degrees;
            let axis = scale * 180;
            let rho = calculate_rho(theta, axis, 50, 40);
            let (x1, y1, x2, y2) = line_from_rho_theta(theta, scale, rho, 100, 90);
            assert!(2 * (rho_at(theta, axis, x1, y1) - rho.raw).abs() <= ONE);
            assert!(2 * (rho_at(theta, axis, x2, y2) - rho.raw).abs() <= ONE);
        }
    }
}

#[test]
fn points_along_a_line_reproduce_rho() {
    // the line at 135 degrees through (10, 0) and (100, 90) holds (55, 45) and (40, 30)
    let rho = Fixed::from_int(-7);
    assert_eq!((10, 0, 100, 90), line_from_rho_theta(135, 1, rho, 100, 90));
    for (x, y) in [(10, 0), (100, 90), (55, 45), (40, 30)] {
        assert!(2 * (rho_at(135, 180, x, y) - rho.raw).abs() <= ONE);
    }
    // and a point off the line does not
    assert!(2 * (rho_at(135, 180, 56, 45) - rho.raw).abs() > ONE);
}
