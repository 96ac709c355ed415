//! The edge classifier: which pixels of the source image cast votes.
//!
//! The image is an `image::DynamicImage`. The verifier does not look inside
//! it: its size and its pixels are named by `image_size` and `image_pixels`,
//! and the two functions that read the image state what they return in those
//! terms.

use vstd::prelude::*;
use image::DynamicImage;
use image::GenericImageView;

verus! {

/// `image::DynamicImage`, a decoded image of any pixel format, carried
/// through as it is.
#[verifier::external_type_specification]
#[verifier::external_body]
pub struct ExDynamicImage(DynamicImage);

/// The size of the image as `(width, height)`.
pub uninterp spec fn image_size(img: DynamicImage) -> (nat, nat);

/// The pixels of the image: `image_pixels(img)[(x, y)]` is the red, green
/// and blue channel, eight bits each, of the pixel in column `x` of row `y`,
/// rows counted from the top.
pub uninterp spec fn image_pixels(img: DynamicImage) -> Map<(int, int), (u8, u8, u8)>;

/// `image::GenericImageView::dimensions` of a `DynamicImage`: width and
/// height.
#[verifier::external_body]
fn dimensions(img: &DynamicImage) -> (size: (u32, u32))
    ensures
        (size.0 as nat, size.1 as nat) == image_size(*img),
{
    img.dimensions()
}

/// `image::GenericImageView::get_pixel` of a `DynamicImage`: the pixel at
/// `(x, y)` converted to eight-bit RGBA, of which the first three channels
/// are handed on. The position must lie inside the image.
#[verifier::external_body]
fn pixel_channels(img: &DynamicImage, x: u32, y: u32) -> (rgb: (u8, u8, u8))
    requires
        x < image_size(*img).0,
        y < image_size(*img).1,
    ensures
        rgb == image_pixels(*img)[(x as int, y as int)],
{
    let pixel = img.get_pixel(x, y);
    (pixel.0[0], pixel.0[1], pixel.0[2])
}

/// The intensity below which a pixel is an edge, where no other is asked
/// for: only pixels that are black, or within a single step of it, count.
pub const EDGE_THRESHOLD: u8 = 1;

/// The intensity of a pixel: the unweighted mean of its three colour
/// channels, rounded to the nearest integer.
pub open spec fn grey_level(r: u8, g: u8, b: u8) -> int {
    (2 * (r + g + b) + 3) / 6
}

/// The pixel at `(x, y)` of the image is an edge: its intensity lies below
/// `threshold`.
pub open spec fn is_edge_at(img: DynamicImage, x: int, y: int, threshold: int) -> bool {
    let rgb = image_pixels(img)[(x, y)];
    grey_level(rgb.0, rgb.1, rgb.2) < threshold
}

/// The width and the height of the image.
pub fn image_dimensions(img: &DynamicImage) -> (size: (u32, u32))
    ensures
        (size.0 as nat, size.1 as nat) == image_size(*img),
{
    dimensions(img)
}

/// Converts an RGB triple to a single intensity: the unweighted mean of the
/// three channels, rounded to the nearest integer.
pub fn rgb_to_greyscale(r: u8, g: u8, b: u8) -> (grey: u8)
    ensures
        grey == grey_level(r, g, b),
{
    let sum: u16 = r as u16 + g as u16 + b as u16;
    ((2 * sum + 3) / 6) as u8
}

/// Whether the intensity of the pixel at `(x, y)`, which must lie inside the
/// image, lies below `threshold`.
pub fn is_edge_below(img: &DynamicImage, x: u32, y: u32, threshold: u8) -> (edge: bool)
    requires
        x < image_size(*img).0,
        y < image_size(*img).1,
    ensures
        edge == is_edge_at(*img, x as int, y as int, threshold as int),
{
    let (r, g, b) = pixel_channels(img, x, y);
    rgb_to_greyscale(r, g, b) < threshold
}

/// Whether the pixel at `(x, y)`, which must lie inside the image, casts
/// votes: whether its intensity lies below `EDGE_THRESHOLD`.
pub fn is_edge(img: &DynamicImage, x: u32, y: u32) -> (edge: bool)
    requires
        x < image_size(*img).0,
        y < image_size(*img).1,
    ensures
        edge == is_edge_at(*img, x as int, y as int, EDGE_THRESHOLD as int),
{
    is_edge_below(img, x, y, EDGE_THRESHOLD)
}

} // verus!
