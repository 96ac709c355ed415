//! The geometry of the Hough space: angles on an axis of any resolution, the
//! longest line an image can hold, the normal distance `rho` of a line through
//! a pixel, and the bin of the rho axis that a distance falls into.

use vstd::prelude::*;
use vstd::arithmetic::div_mod::{lemma_fundamental_div_mod, lemma_fundamental_div_mod_converse};
use crate::fixed::{Fixed, ONE};
use crate::rounding::{
    clamp, lemma_round_add_whole, lemma_round_half_away_between, lemma_round_half_away_bounds,
    lemma_round_half_away_unique, magnitude, round_div, round_half_away,
};
use crate::trig::{
    cos_raw, cosine, lemma_half_turn, lemma_sine_at_range, radians_raw, sin_raw, sine, PI_RAW,
};

verus! {

/// Converts `deg` steps of an axis that divides the half turn into
/// `axis_size` steps to radians: `deg * pi / axis_size`.
pub fn deg2rad(deg: u32, axis_size: u32) -> (rad: Fixed)
    requires
        axis_size > 0,
    ensures
        rad.raw == radians_raw(deg as int, axis_size as int),
{
    assert(deg * PI_RAW == deg * 884279719003555);
    let num: u128 = (deg as u128) * (PI_RAW as u128);
    proof {
        assert(0 * axis_size <= num <= num * axis_size) by (nonlinear_arith)
            requires
                num >= 0,
                axis_size >= 1,
        ;
        lemma_round_half_away_between(num as int, axis_size as int, 0, num as int);
    }
    Fixed { raw: round_div(num, axis_size as u128) as i128 }
}

/// `len` is the least whole number that is no less than the length of the
/// diagonal of a `width` by `height` rectangle.
pub open spec fn is_max_line_length(len: int, width: int, height: int) -> bool {
    &&& len >= 0
    &&& len * len >= width * width + height * height
    &&& len == 0 || (len - 1) * (len - 1) < width * width + height * height
}

/// The length of the longest line that fits into a `width` by `height`
/// image: its diagonal, rounded up to a whole number.
pub closed spec fn max_line_length(width: int, height: int) -> int {
    choose|len: int| is_max_line_length(len, width, height)
}

/// Only one number is the rounded-up diagonal of a rectangle.
pub proof fn lemma_max_line_length_unique(len: int, width: int, height: int)
    requires
        is_max_line_length(len, width, height),
    ensures
        max_line_length(width, height) == len,
{
    let other: int = max_line_length(width, height);
    let s: int = width * width + height * height;
    assert(is_max_line_length(other, width, height));
    assert(other == len) by (nonlinear_arith)
        requires
            len >= 0,
            other >= 0,
            len * len >= s,
            other * other >= s,
            len == 0 || (len - 1) * (len - 1) < s,
            other == 0 || (other - 1) * (other - 1) < s,
    ;
}

/// The length of the longest line that fits into an image of the given
/// size: the length of its diagonal, rounded up to a whole number.
pub fn calculate_max_line_length(img_width: u32, img_height: u32) -> (len: u64)
    ensures
        len == max_line_length(img_width as int, img_height as int),
        is_max_line_length(len as int, img_width as int, img_height as int),
        len <= 0x2_0000_0000,
{
    assert(img_width * img_width <= 0xffff_ffff * 0xffff_ffff && img_height * img_height
        <= 0xffff_ffff * 0xffff_ffff) by (nonlinear_arith)
        requires
            0 <= img_width <= 0xffff_ffff,
            0 <= img_height <= 0xffff_ffff,
    ;
    let square: u128 = (img_width as u128) * (img_width as u128) + (img_height as u128) * (
    img_height as u128);
    if square == 0 {
        proof {
            lemma_max_line_length_unique(0, img_width as int, img_height as int);
        }
        return 0;
    }
    let mut below: u64 = 0;
    let mut reach: u64 = 0x2_0000_0000;
    while reach - below > 1
        invariant
            below < reach <= 0x2_0000_0000,
            below * below < square,
            reach * reach >= square,
        decreases reach - below,
    {
        let mid: u64 = below + (reach - below) / 2;
        assert(mid * mid <= 0x2_0000_0000 * 0x2_0000_0000) by (nonlinear_arith)
            requires
                0 <= mid <= 0x2_0000_0000,
        ;
        if (mid as u128) * (mid as u128) >= square {
            reach = mid;
        } else {
            below = mid;
        }
    }
    proof {
        lemma_max_line_length_unique(reach as int, img_width as int, img_height as int);
    }
    reach
}

/// The normal distance from the origin of the line through `(x, y)` whose
/// normal stands at the angle `theta * pi / axis_size`, as a raw fixed-point
/// value: `x * cos + y * sin` of that angle.
pub open spec fn rho_raw(theta: int, axis_size: int, x: int, y: int) -> int {
    x * cos_raw(theta, axis_size) + y * sin_raw(theta, axis_size)
}

/// Half a turn further on the normal distance has the opposite sign, and a
/// full turn further on it is the same again: in `theta` it has the period
/// `2 * axis_size`.
pub proof fn lemma_rho_half_turn(theta: int, axis_size: int, x: int, y: int)
    requires
        theta >= 0,
        axis_size > 0,
    ensures
        rho_raw(theta + axis_size, axis_size, x, y) == -rho_raw(theta, axis_size, x, y),
        rho_raw(theta + 2 * axis_size, axis_size, x, y) == rho_raw(theta, axis_size, x, y),
{
    lemma_half_turn(theta, axis_size);
    let c: int = cos_raw(theta, axis_size);
    let s: int = sin_raw(theta, axis_size);
    assert(x * (-c) + y * (-s) == -(x * c + y * s)) by (nonlinear_arith);
}

/// The normal distance from the origin of the line through the pixel
/// `(x, y)` whose normal stands at step `theta` of an axis that divides the
/// half turn into `theta_axis_size` steps.
pub fn calculate_rho(theta: u32, theta_axis_size: u32, x: u32, y: u32) -> (rho: Fixed)
    requires
        theta_axis_size > 0,
    ensures
        rho.raw == rho_raw(theta as int, theta_axis_size as int, x as int, y as int),
{
    let sin: i64 = sine(theta, theta_axis_size);
    let cos: i64 = cosine(theta, theta_axis_size);
    assert(-0x1_0000_0000 * 0x1_0000_0000_0000 <= x * cos <= 0x1_0000_0000 * 0x1_0000_0000_0000
        && -0x1_0000_0000 * 0x1_0000_0000_0000 <= y * sin <= 0x1_0000_0000
        * 0x1_0000_0000_0000) by (nonlinear_arith)
        requires
            0 <= x <= 0x1_0000_0000,
            0 <= y <= 0x1_0000_0000,
            -0x1_0000_0000_0000 <= cos <= 0x1_0000_0000_0000,
            -0x1_0000_0000_0000 <= sin <= 0x1_0000_0000_0000,
    ;
    Fixed { raw: (x as i128) * (cos as i128) + (y as i128) * (sin as i128) }
}

/// The offset that maps signed distances to the bins of a rho axis of
/// `rho_axis_size` bins: half the size, rounded.
pub open spec fn rho_axis_half(rho_axis_size: int) -> int {
    (rho_axis_size + 1) / 2
}

/// The bin of the rho axis that the distance `rho` falls into:
/// `round(rho * half / max_line_length) + half`, limited to the range of an
/// unsigned 32-bit integer.
pub open spec fn scaled_rho(rho: int, rho_axis_size: int, max_line_length: int) -> int {
    let half = rho_axis_half(rho_axis_size);
    clamp(round_half_away(rho * half, max_line_length * ONE) + half, 0, u32::MAX as int)
}

/// No pixel votes below the rho axis: for an angle of the first half turn
/// and a pixel whose column is no further out than the longest line, the
/// bin is not negative before it is limited, so limiting it to an unsigned
/// number moves no vote.
pub proof fn lemma_bin_not_negative(
    theta: int,
    axis_size: int,
    x: int,
    y: int,
    rho_axis_size: int,
    max_line_length: int,
)
    requires
        0 <= theta < axis_size,
        0 <= x <= max_line_length,
        0 <= y,
        0 < max_line_length,
        0 <= rho_axis_size,
    ensures
        round_half_away(
            rho_raw(theta, axis_size, x, y) * rho_axis_half(rho_axis_size),
            max_line_length * ONE,
        ) + rho_axis_half(rho_axis_size) >= 0,
{
    let half: int = rho_axis_half(rho_axis_size);
    let den: int = max_line_length * ONE;
    let sin: int = sin_raw(theta, axis_size);
    let cos: int = cos_raw(theta, axis_size);
    let rho: int = rho_raw(theta, axis_size, x, y);
    lemma_fundamental_div_mod_converse(2 * theta, 4 * axis_size, 0, 2 * theta);
    lemma_sine_at_range(2 * theta, axis_size);
    lemma_sine_at_range(2 * theta + axis_size, axis_size);
    assert(sin >= 0 && cos >= -ONE);
    assert(rho >= -den) by (nonlinear_arith)
        requires
            rho == x * cos + y * sin,
            den == max_line_length * ONE,
            sin >= 0,
            cos >= -ONE,
            0 <= x <= max_line_length,
            y >= 0,
    {
        assert(x * cos >= x * (-ONE));
        assert(y * sin >= 0);
        assert(x * ONE <= max_line_length * ONE);
    }
    let num: int = rho * half;
    let top: int = if num >= 0 { num } else { 0 };
    assert((-half) * den <= num <= top * den) by (nonlinear_arith)
        requires
            num == rho * half,
            rho >= -den,
            half >= 0,
            den >= 1,
            top == if num >= 0 { num } else { 0 },
    ;
    lemma_round_half_away_between(num, den, -half, top);
}

/// The bin of a rho axis of `rho_axis_size` bins that the distance `rho`
/// falls into, for an image whose longest line is `max_line_length`.
pub fn scale_rho(rho: Fixed, rho_axis_size: u32, max_line_length: u32) -> (bin: u32)
    requires
        max_line_length > 0,
    ensures
        bin == scaled_rho(rho.raw as int, rho_axis_size as int, max_line_length as int),
{
    let half: u128 = ((rho_axis_size as u64 + 1) / 2) as u128;
    let den: u128 = (max_line_length as u128) * (ONE as u128);
    let size: u128 = magnitude(rho.raw);
    let whole: u128 = size / den;
    let rest: u128 = size % den;
    proof {
        lemma_fundamental_div_mod(size as int, den as int);
        assert(whole * half <= 0x8000_0000_0000_0000_0000 * 0x8000_0000 && rest * half
            <= 0x1_0000_0000_0000_0000_0000 * 0x8000_0000 && whole * half >= 0 && rest * half
            >= 0) by (nonlinear_arith)
            requires
                size == den * whole + rest,
                0 <= rest < den,
                0x1_0000_0000_0000 <= den <= 0x1_0000_0000_0000_0000_0000,
                0 <= size <= 0x8000_0000_0000_0000_0000_0000_0000_0000,
                0 <= half <= 0x8000_0000,
                whole >= 0,
        ;
        assert(size * half == (whole * half) * den + rest * half) by (nonlinear_arith)
            requires
                size == den * whole + rest,
        ;
        lemma_round_add_whole((whole * half) as int, (rest * half) as int, den as int);
        assert(rho.raw * half == if rho.raw >= 0 {
            size * half
        } else {
            -(size * half)
        }) by (nonlinear_arith)
            requires
                size == if rho.raw >= 0 {
                    rho.raw as int
                } else {
                    -(rho.raw as int)
                },
        ;
        assert(size * half >= 0) by (nonlinear_arith)
            requires
                size >= 0,
                half >= 0,
        ;
        lemma_round_half_away_bounds(0, den as int);
        lemma_round_half_away_unique(0, den as int, 0);
    }
    let steps: u128 = whole * half + round_div(rest * half, den);
    if rho.raw >= 0 {
        let bin: u128 = steps + half;
        if bin > u32::MAX as u128 {
            u32::MAX
        } else {
            bin as u32
        }
    } else if steps >= half {
        0
    } else {
        (half - steps) as u32
    }
}

} // verus!
