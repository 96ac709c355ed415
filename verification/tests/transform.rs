use hough_image::accumulator::{matrix_max, Accumulator};
use hough_image::clip::clip_line_liang_barsky;
use hough_image::reconstruct::line_from_rho_theta;
use hough_image::render::{
    detect_lines, houghspace_image, normalized_count, rho_of_bin, visible_segments,
};
use hough_image::transform::{hough_transform, hough_transform_with_threshold, HoughError};
use image::{DynamicImage, Rgb, RgbImage};

fn white(width: u32, height: u32) -> RgbImage {
    RgbImage::from_pixel(width, height, Rgb([255, 255, 255]))
}

fn error_of(result: Result<Accumulator, HoughError>) -> Option<HoughError> {
    match result {
        Ok(_) => None,
        Err(e) => Some(e),
    }
}

#[test]
fn accumulator_starts_empty_with_the_given_shape() {
    let acc = Accumulator::new(3, 5).unwrap();
    assert_eq!(3, acc.theta_axis_size());
    assert_eq!(5, acc.rho_axis_size());
    for theta in 0..3 {
        for rho in 0..5 {
            assert_eq!(Some(0), acc.votes(theta, rho));
        }
    }
    assert_eq!(None, acc.votes(3, 0));
    assert_eq!(None, acc.votes(0, 5));
    assert_eq!(Some(0), matrix_max(&acc));
}

#[test]
fn accumulator_too_large_to_address_is_refused() {
    assert!(Accumulator::new(usize::MAX, usize::MAX).is_none());
    assert!(Accumulator::new(usize::MAX, 2).is_none());
    assert!(Accumulator::new(0, usize::MAX).is_some());
}

#[test]
fn votes_are_counted_cell_by_cell() {
    let mut acc = Accumulator::new(3, 5).unwrap();
    assert!(acc.cast_vote(1, 4));
    assert!(acc.cast_vote(1, 4));
    assert!(acc.cast_vote(2, 0));
    assert!(!acc.cast_vote(3, 0));
    assert!(!acc.cast_vote(0, 5));
    assert_eq!(Some(2), acc.votes(1, 4));
    assert_eq!(Some(1), acc.votes(2, 0));
    assert_eq!(Some(0), acc.votes(0, 0));
    assert_eq!(Some(0), acc.votes(2, 4));
    assert_eq!(Some(0), acc.votes(1, 3));
    assert_eq!(3, acc.theta_axis_size());
    assert_eq!(5, acc.rho_axis_size());
}

#[test]
fn matrix_max_finds_the_fullest_cell() {
    let mut acc = Accumulator::new(4, 3).unwrap();
    assert_eq!(Some(0), matrix_max(&acc));
    acc.cast_vote(3, 2);
    assert_eq!(Some(1), matrix_max(&acc));
    acc.cast_vote(0, 1);
    acc.cast_vote(0, 1);
    acc.cast_vote(0, 1);
    acc.cast_vote(3, 2);
    assert_eq!(Some(3), matrix_max(&acc));
}

#[test]
fn matrix_max_of_a_grid_without_cells() {
    assert_eq!(None, matrix_max(&Accumulator::new(0, 0).unwrap()));
    assert_eq!(None, matrix_max(&Accumulator::new(0, 7).unwrap()));
    assert_eq!(None, matrix_max(&Accumulator::new(7, 0).unwrap()));
}

#[test]
fn a_scale_factor_of_zero_is_rejected() {
    let img = DynamicImage::ImageRgb8(white(4, 4));
    assert_eq!(Some(HoughError::InvalidConfiguration), error_of(hough_transform(&img, 0, 1)));
    assert_eq!(Some(HoughError::InvalidConfiguration), error_of(hough_transform(&img, 1, 0)));
    assert_eq!(Some(HoughError::InvalidConfiguration), error_of(hough_transform(&img, 0, 0)));
}

#[test]
fn an_accumulator_beyond_the_machine_is_rejected() {
    let img = DynamicImage::ImageRgb8(white(4, 4));
    assert_eq!(Some(HoughError::TooLarge), error_of(hough_transform(&img, u32::MAX, 1)));
    assert_eq!(Some(HoughError::TooLarge), error_of(hough_transform(&img, 1, u32::MAX)));
}

#[test]
fn an_image_without_edges_casts_no_votes() {
    let img = DynamicImage::ImageRgb8(white(10, 10));
    let acc = hough_transform(&img, 1, 1).unwrap();
    assert_eq!(180, acc.theta_axis_size());
    assert_eq!(15, acc.rho_axis_size());
    assert_eq!(Some(0), matrix_max(&acc));
}

#[test]
fn the_axes_follow_the_scale_factors() {
    let img = DynamicImage::ImageRgb8(white(100, 90));
    let acc = hough_transform(&img, 2, 3).unwrap();
    assert_eq!(360, acc.theta_axis_size());
    assert_eq!(405, acc.rho_axis_size());
}

#[test]
fn an_image_without_pixels_has_an_accumulator_without_bins() {
    let img = DynamicImage::ImageRgb8(white(0, 0));
    let acc = hough_transform(&img, 1, 1).unwrap();
    assert_eq!(180, acc.theta_axis_size());
    assert_eq!(0, acc.rho_axis_size());
    assert_eq!(None, matrix_max(&acc));
}

#[test]
fn an_edge_pixel_at_the_origin_votes_once_for_every_angle() {
    // the bottom-left pixel has the distance zero from the origin at every angle
    let mut img = white(10, 10);
    img.put_pixel(0, 9, Rgb([0, 0, 0]));
    let acc = hough_transform(&DynamicImage::ImageRgb8(img), 1, 1).unwrap();
    for theta in 0..180 {
        for rho in 0..15 {
            let expected = if rho == 8 { 1 } else { 0 };
            assert_eq!(Some(expected), acc.votes(theta, rho));
        }
    }
}

#[test]
fn every_edge_pixel_votes_once_for_every_angle() {
    let mut img = white(40, 30);
    let edges = [(0u32, 0u32), (5, 7), (13, 2), (20, 20), (1, 29), (17, 11)];
    for (x, y) in edges {
        img.put_pixel(x, y, Rgb([0, 0, 0]));
    }
    let acc = hough_transform(&DynamicImage::ImageRgb8(img), 2, 2).unwrap();
    for theta in 0..acc.theta_axis_size() {
        let mut votes = 0;
        for rho in 0..acc.rho_axis_size() {
            votes += acc.votes(theta, rho).unwrap();
        }
        assert_eq!(edges.len() as u32, votes);
    }
}

#[test]
fn votes_fall_into_the_bins_of_the_formula() {
    let mut img = white(100, 90);
    img.put_pixel(50, 49, Rgb([0, 0, 0]));
    let acc = hough_transform(&DynamicImage::ImageRgb8(img), 1, 1).unwrap();
    // the pixel is (50, 40) with rows counted from the bottom; 135 bins, offset 68
    for theta in 0..180u32 {
        let angle = theta as f64 * std::f64::consts::PI / 180.0;
        let rho = 50.0 * angle.cos() + 40.0 * angle.sin();
        let bin = ((rho * 68.0 / 135.0).round() + 68.0) as usize;
        assert_eq!(Some(1), acc.votes(theta as usize, bin));
    }
}

#[test]
fn a_vote_beyond_the_rho_axis_is_an_error() {
    // five bins, offset three: the top-right pixel of a 3 by 4 image reaches bin five
    let mut img = white(3, 4);
    img.put_pixel(2, 0, Rgb([0, 0, 0]));
    let result = hough_transform(&DynamicImage::ImageRgb8(img), 1, 1);
    assert_eq!(Some(HoughError::VoteOutOfRange), error_of(result));
}

#[test]
fn a_diagonal_is_found_again() {
    let mut img = white(100, 100);
    for i in 0..100 {
        img.put_pixel(i, i, Rgb([0, 0, 0]));
    }
    let acc = hough_transform(&DynamicImage::ImageRgb8(img), 1, 1).unwrap();
    assert_eq!(Some(100), matrix_max(&acc));
    let mut fullest = Vec::new();
    for theta in 0..acc.theta_axis_size() {
        for rho in 0..acc.rho_axis_size() {
            if acc.votes(theta, rho) == Some(100) {
                fullest.push((theta, rho));
            }
        }
    }
    assert_eq!(vec![(45, 106)], fullest);
    let rho = rho_of_bin(106, 142, 142);
    let line = line_from_rho_theta(45, 1, rho, 100, 100);
    let (x0, y0, x1, y1) = clip_line_liang_barsky((0, 99, 0, 99), line).unwrap();
    // with rows counted from the bottom the diagonal runs from (0, 99) to (99, 0)
    assert!((x0 - 0).abs() <= 1 && (y0 - 99).abs() <= 1);
    assert!((x1 - 99).abs() <= 1 && (y1 - 0).abs() <= 1);
    let lines = detect_lines(&acc, 1, 100, 100, 100).unwrap();
    assert_eq!(vec![(45, line)], lines);
    assert_eq!(vec![(x0, 99 - y0, x1, 99 - y1)], visible_segments(&lines, 100, 100).unwrap());
}

#[test]
fn the_other_diagonal_is_found_again() {
    let mut img = white(100, 100);
    for i in 0..100 {
        img.put_pixel(i, 99 - i, Rgb([0, 0, 0]));
    }
    let acc = hough_transform(&DynamicImage::ImageRgb8(img), 1, 1).unwrap();
    assert_eq!(Some(100), matrix_max(&acc));
    let lines = detect_lines(&acc, 1, 100, 100, 100).unwrap();
    assert_eq!(1, lines.len());
    assert_eq!(135, lines[0].0);
    let segments = visible_segments(&lines, 100, 100).unwrap();
    let (x0, y0, x1, y1) = segments[0];
    assert!((x0 - 0).abs() <= 1 && (y0 - 99).abs() <= 1);
    assert!((x1 - 99).abs() <= 1 && (y1 - 0).abs() <= 1);
}

#[test]
fn counts_are_normalized_to_grey_levels() {
    assert_eq!(0, normalized_count(0, 10));
    assert_eq!(128, normalized_count(5, 10));
    assert_eq!(255, normalized_count(10, 10));
    assert_eq!(85, normalized_count(1, 3));
    assert_eq!(170, normalized_count(2, 3));
    assert_eq!(109, normalized_count(3, 7));
    assert_eq!(1, normalized_count(1, 510));
    assert_eq!(255, normalized_count(u32::MAX, u32::MAX));
    assert_eq!(255, normalized_count(20, 10));
    assert_eq!(0, normalized_count(0, 0));
    assert_eq!(255, normalized_count(1, 0));
}

#[test]
fn the_houghspace_image_has_rho_running_upward() {
    let mut acc = Accumulator::new(2, 3).unwrap();
    for _ in 0..4 {
        acc.cast_vote(0, 0);
    }
    acc.cast_vote(1, 2);
    acc.cast_vote(1, 1);
    acc.cast_vote(1, 1);
    let image = houghspace_image(&acc);
    assert_eq!(vec![vec![0u8, 64], vec![0, 128], vec![255, 0]], image);
}

#[test]
fn the_houghspace_image_of_an_accumulator_without_votes_is_black() {
    let acc = Accumulator::new(3, 2).unwrap();
    assert_eq!(vec![vec![0u8, 0, 0], vec![0, 0, 0]], houghspace_image(&acc));
    assert_eq!(Vec::<Vec<u8>>::new(), houghspace_image(&Accumulator::new(3, 0).unwrap()));
    assert_eq!(vec![Vec::<u8>::new(); 2], houghspace_image(&Accumulator::new(0, 2).unwrap()));
}

#[test]
fn lines_are_detected_in_the_order_of_the_cells() {
    let mut acc = Accumulator::new(180, 135).unwrap();
    let cells = [(135usize, 64usize, 3), (90, 88, 2), (90, 40, 5), (0, 93, 1), (45, 100, 2)];
    for (theta, rho, votes) in cells {
        for _ in 0..votes {
            acc.cast_vote(theta, rho);
        }
    }
    let lines = detect_lines(&acc, 1, 2, 100, 90).unwrap();
    let thetas: Vec<u32> = lines.iter().map(|l| l.0).collect();
    assert_eq!(vec![45, 90, 90, 135], thetas);
    assert_eq!(line_from_rho_theta(45, 1, rho_of_bin(100, 135, 135), 100, 90), lines[0].1);
    assert_eq!(line_from_rho_theta(90, 1, rho_of_bin(40, 135, 135), 100, 90), lines[1].1);
    assert_eq!(line_from_rho_theta(90, 1, rho_of_bin(88, 135, 135), 100, 90), lines[2].1);
    assert_eq!(line_from_rho_theta(135, 1, rho_of_bin(64, 135, 135), 100, 90), lines[3].1);
    assert_eq!((0, 40, 100, 40), lines[2].1);
    assert_eq!(5, detect_lines(&acc, 1, 1, 100, 90).unwrap().len());
    assert_eq!(1, detect_lines(&acc, 1, 4, 100, 90).unwrap().len());
    assert_eq!(0, detect_lines(&acc, 1, 6, 100, 90).unwrap().len());
    assert_eq!(180 * 135, detect_lines(&acc, 1, 0, 100, 90).unwrap().len());
}

#[test]
fn detection_needs_a_scale_factor() {
    let acc = Accumulator::new(180, 135).unwrap();
    assert_eq!(Err(HoughError::InvalidConfiguration), detect_lines(&acc, 0, 1, 100, 90));
}

#[test]
fn detection_refuses_an_image_whose_diagonal_is_beyond_32_bits() {
    let acc = Accumulator::new(180, 135).unwrap();
    assert_eq!(Err(HoughError::TooLarge), detect_lines(&acc, 1, 1, u32::MAX, u32::MAX));
}

#[test]
fn segments_are_clipped_and_turned_upside_down() {
    let lines = vec![(90u32, (0, 40, 100, 40)), (135, (10, 0, 100, 90)), (0, (50, 90, 50, 0))];
    let segments = visible_segments(&lines, 100, 90).unwrap();
    assert_eq!(vec![(0, 49, 99, 49), (10, 89, 99, 0), (50, 0, 50, 89)], segments);
}

#[test]
fn a_line_outside_the_image_is_an_error() {
    let lines = vec![(90u32, (0, 40, 100, 40)), (90, (0, 95, 100, 95))];
    assert_eq!(Err(HoughError::LineOutsideImage), visible_segments(&lines, 100, 90));
    assert_eq!(Err(HoughError::LineOutsideImage), visible_segments(&lines, 0, 90));
    assert_eq!(Ok(Vec::new()), visible_segments(&Vec::new(), 0, 0));
}

#[test]
fn segments_need_an_image_within_31_bits() {
    let lines = vec![(90u32, (0, 40, 100, 40))];
    assert_eq!(Err(HoughError::TooLarge), visible_segments(&lines, u32::MAX, 90));
    assert_eq!(Err(HoughError::TooLarge), visible_segments(&lines, 90, 0x8000_0001));
    assert_eq!(
        Ok(vec![(0, 0x7fff_ffff - 40, 100, 0x7fff_ffff - 40)]),
        visible_segments(&lines, 0x8000_0000, 0x8000_0000)
    );
}

#[test]
fn a_higher_edge_threshold_lets_more_pixels_vote() {
    let mut img = white(10, 10);
    img.put_pixel(0, 9, Rgb([0, 0, 0]));
    img.put_pixel(0, 8, Rgb([40, 40, 40]));
    let img = DynamicImage::ImageRgb8(img);
    let acc = hough_transform_with_threshold(&img, 1, 1, 41).unwrap();
    for theta in 0..180 {
        let mut votes = 0;
        for rho in 0..15 {
            votes += acc.votes(theta, rho).unwrap();
        }
        assert_eq!(2, votes);
    }
    let acc = hough_transform_with_threshold(&img, 1, 1, 40).unwrap();
    assert_eq!(Some(1), matrix_max(&acc));
    let acc = hough_transform_with_threshold(&img, 1, 1, 0).unwrap();
    assert_eq!(Some(0), matrix_max(&acc));
    assert_eq!(
        Some(HoughError::InvalidConfiguration),
        error_of(hough_transform_with_threshold(&img, 0, 1, 41))
    );
}

#[test]
fn a_corner_pixel_can_vote_beyond_an_odd_rho_axis() {
    // 135 bins, offset 68: the top-right pixel has rho up to 133.1, which is bin 135
    let mut img = white(100, 90);
    img.put_pixel(99, 0, Rgb([0, 0, 0]));
    let result = hough_transform(&DynamicImage::ImageRgb8(img), 1, 1);
    assert_eq!(Some(HoughError::VoteOutOfRange), error_of(result));
    // on an axis of twice as many bins the same vote finds its bin
    let mut img = white(100, 90);
    img.put_pixel(99, 0, Rgb([0, 0, 0]));
    assert!(hough_transform(&DynamicImage::ImageRgb8(img), 1, 2).is_ok());
}

#[test]
fn a_pixel_far_to_the_right_votes_for_low_bins() {
    // the bottom-right pixel has rho down to -99 near the half turn: bin round(-99 * 71 / 142) + 71
    let mut img = white(100, 100);
    img.put_pixel(99, 99, Rgb([0, 0, 0]));
    let acc = hough_transform(&DynamicImage::ImageRgb8(img), 1, 1).unwrap();
    assert_eq!(Some(1), acc.votes(179, 22));
    assert_eq!(Some(1), acc.votes(0, 121));
    assert_eq!(Some(1), acc.votes(90, 71));
}
