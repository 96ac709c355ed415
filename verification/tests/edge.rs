use hough_image::edge::{is_edge, rgb_to_greyscale};
use image::{DynamicImage, GrayImage, Luma, Rgb, RgbImage};

#[test]
fn greyscale_is_the_rounded_mean() {
    assert_eq!(0, rgb_to_greyscale(0, 0, 0));
    assert_eq!(0, rgb_to_greyscale(1, 0, 0));
    assert_eq!(1, rgb_to_greyscale(1, 1, 0));
    assert_eq!(1, rgb_to_greyscale(1, 1, 1));
    assert_eq!(2, rgb_to_greyscale(2, 2, 1));
    assert_eq!(85, rgb_to_greyscale(255, 0, 0));
    assert_eq!(255, rgb_to_greyscale(255, 255, 254));
    assert_eq!(255, rgb_to_greyscale(255, 255, 255));
    assert_eq!(128, rgb_to_greyscale(127, 128, 128));
}

#[test]
fn greyscale_agrees_with_the_mean_in_floating_point() {
    for r in [0u8, 1, 2, 3, 100, 127, 128, 254, 255] {
        for g in [0u8, 1, 2, 77, 254, 255] {
            for b in 0..=255u8 {
                let mean = ((r as f64 + g as f64 + b as f64) / 3.0).round() as u8;
                assert_eq!(mean, rgb_to_greyscale(r, g, b));
            }
        }
    }
}

#[test]
fn only_near_black_pixels_are_edges() {
    let mut img = RgbImage::from_pixel(3, 2, Rgb([255, 255, 255]));
    img.put_pixel(0, 0, Rgb([0, 0, 0]));
    img.put_pixel(1, 0, Rgb([1, 0, 0]));
    img.put_pixel(2, 0, Rgb([1, 1, 0]));
    img.put_pixel(0, 1, Rgb([0, 0, 2]));
    img.put_pixel(1, 1, Rgb([0, 1, 0]));
    let img = DynamicImage::ImageRgb8(img);
    assert!(is_edge(&img, 0, 0));
    assert!(is_edge(&img, 1, 0));
    assert!(!is_edge(&img, 2, 0));
    assert!(!is_edge(&img, 0, 1));
    assert!(is_edge(&img, 1, 1));
    assert!(!is_edge(&img, 2, 1));
}

#[test]
fn edges_of_a_grey_image() {
    let mut img = GrayImage::from_pixel(2, 2, Luma([200]));
    img.put_pixel(1, 0, Luma([0]));
    img.put_pixel(0, 1, Luma([1]));
    let img = DynamicImage::ImageLuma8(img);
    assert!(!is_edge(&img, 0, 0));
    assert!(is_edge(&img, 1, 0));
    assert!(!is_edge(&img, 0, 1));
    assert!(!is_edge(&img, 1, 1));
}

use hough_image::edge::{image_dimensions, is_edge_below, EDGE_THRESHOLD};

#[test]
fn the_edge_threshold_can_be_chosen() {
    let mut img = RgbImage::from_pixel(2, 1, Rgb([255, 255, 255]));
    img.put_pixel(0, 0, Rgb([10, 20, 30]));
    let img = DynamicImage::ImageRgb8(img);
    assert_eq!(1, EDGE_THRESHOLD);
    assert!(!is_edge_below(&img, 0, 0, 1));
    assert!(!is_edge_below(&img, 0, 0, 20));
    assert!(is_edge_below(&img, 0, 0, 21));
    assert!(!is_edge_below(&img, 1, 0, 255));
    assert!(!is_edge_below(&img, 0, 0, 0));
    assert_eq!(is_edge(&img, 0, 0), is_edge_below(&img, 0, 0, EDGE_THRESHOLD));
}

#[test]
fn dimensions_are_width_and_height() {
    let img = DynamicImage::ImageRgb8(RgbImage::new(7, 3));
    assert_eq!((7, 3), image_dimensions(&img));
    assert_eq!((0, 0), image_dimensions(&DynamicImage::ImageRgb8(RgbImage::new(0, 0))));
}
