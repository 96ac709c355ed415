//! What is drawn from a Hough accumulator: the accumulator itself as a grey
//! image, and the lines of its cells with enough votes as segments inside the
//! source image.

use vstd::prelude::*;
use crate::accumulator::{has_no_cell, is_largest_count, matrix_max, rectangular, Accumulator};
use crate::clip::{clip_line_liang_barsky, clipped_line};
use crate::fixed::{Fixed, ONE};
use crate::geometry::{calculate_max_line_length, max_line_length, rho_axis_half};
use crate::reconstruct::{line_from_rho_theta, reconstructed_line};
use crate::rounding::{clamp, round_div, round_div_signed, round_half_away};
use crate::transform::HoughError;

verus! {

/// The largest count in the grid, zero where the grid has no cell.
pub open spec fn largest_count(rows: Seq<Seq<u32>>) -> u32 {
    if has_no_cell(rows) {
        0
    } else {
        choose|max: u32| is_largest_count(rows, max)
    }
}

/// Only one count is the largest of a grid.
pub proof fn lemma_largest_count_unique(rows: Seq<Seq<u32>>, max: u32)
    requires
        is_largest_count(rows, max),
    ensures
        !has_no_cell(rows),
        largest_count(rows) == max,
{
    let (i, j) = choose|i: int, j: int|
        0 <= i < rows.len() && 0 <= j < rows[i].len() && #[trigger] rows[i][j] == max;
    assert(rows[i].len() > 0);
    let other: u32 = choose|other: u32| is_largest_count(rows, other);
    assert(is_largest_count(rows, other));
    let (a, b) = choose|a: int, b: int|
        0 <= a < rows.len() && 0 <= b < rows[a].len() && #[trigger] rows[a][b] == other;
    assert(rows[a][b] <= max);
    assert(rows[i][j] <= other);
}

/// The grey level that stands for `count` votes where the fullest cell has
/// `max`: `count * 255 / max`, rounded and limited to 255. Where `max` is
/// zero, no votes are black and any votes are white.
pub open spec fn grey_of_count(count: int, max: int) -> int {
    if max == 0 {
        if count == 0 {
            0
        } else {
            255
        }
    } else {
        clamp(round_half_away(count * 255, max), 0, 255)
    }
}

/// The grey level that stands for `count` votes where the fullest cell has
/// `max`.
pub fn normalized_count(count: u32, max: u32) -> (grey: u8)
    ensures
        grey == grey_of_count(count as int, max as int),
{
    if max == 0 {
        if count == 0 {
            0
        } else {
            255
        }
    } else {
        let level: u128 = round_div((count as u128) * 255, max as u128);
        if level > 255 {
            255
        } else {
            level as u8
        }
    }
}

/// The accumulator as a grey image, one pixel to the cell: theta runs from
/// left to right and rho from the bottom row up, and the fullest cell is
/// white.
///
/// Returns the rows of the image from the top, each a row of grey levels.
pub fn houghspace_image(accumulator: &Accumulator) -> (image: Vec<Vec<u8>>)
    ensures
        image@.len() == accumulator.width(),
        forall|row: int|
            0 <= row < image@.len() ==> (#[trigger] image@[row])@.len() == accumulator@.len(),
        forall|theta: int, rho_scaled: int|
            0 <= theta < accumulator@.len() && 0 <= rho_scaled < accumulator.width() ==> (
            #[trigger] image@[accumulator.width() - 1 - rho_scaled]@[theta]) == grey_of_count(
                accumulator@[theta][rho_scaled] as int,
                largest_count(accumulator@) as int,
            ),
{
    let max: u32 = match matrix_max(accumulator) {
        Some(m) => {
            proof {
                lemma_largest_count_unique(accumulator@, m);
            }
            m
        },
        None => 0,
    };
    let width: usize = accumulator.theta_axis_size();
    let height: usize = accumulator.rho_axis_size();
    let mut image: Vec<Vec<u8>> = Vec::new();
    let mut row: usize = 0;
    while row < height
        invariant
            row <= height,
            width == accumulator@.len(),
            height == accumulator.width(),
            rectangular(accumulator@, height as int),
            max == largest_count(accumulator@),
            image@.len() == row,
            forall|r: int| 0 <= r < row ==> (#[trigger] image@[r])@.len() == width,
            forall|r: int, theta: int|
                0 <= r < row && 0 <= theta < width ==> (#[trigger] image@[r]@[theta])
                    == grey_of_count(
                    accumulator@[theta][height - 1 - r] as int,
                    max as int,
                ),
        decreases height - row,
    {
        let rho_scaled: usize = height - 1 - row;
        let mut pixels: Vec<u8> = Vec::new();
        let mut theta: usize = 0;
        while theta < width
            invariant
                theta <= width,
                rho_scaled < height,
                width == accumulator@.len(),
                height == accumulator.width(),
                rectangular(accumulator@, height as int),
                pixels@.len() == theta,
                forall|t: int|
                    0 <= t < theta ==> (#[trigger] pixels@[t]) == grey_of_count(
                        accumulator@[t][rho_scaled as int] as int,
                        max as int,
                    ),
            decreases width - theta,
        {
            let count: u32 = match accumulator.votes(theta, rho_scaled) {
                Some(c) => c,
                None => 0,
            };
            pixels.push(normalized_count(count, max));
            theta += 1;
        }
        image.push(pixels);
        row += 1;
    }
    proof {
        assert forall|theta: int, rho_scaled: int|
            0 <= theta < accumulator@.len() && 0 <= rho_scaled < accumulator.width() implies (
        #[trigger] image@[accumulator.width() - 1 - rho_scaled]@[theta]) == grey_of_count(
            accumulator@[theta][rho_scaled] as int,
            largest_count(accumulator@) as int,
        ) by {
            let r: int = height - 1 - rho_scaled;
            assert(image@[r]@[theta] == grey_of_count(
                accumulator@[theta][height - 1 - r] as int,
                max as int,
            ));
        }
    }
    image
}

/// The distance `rho` that the bin `rho_scaled` of a rho axis of
/// `rho_axis_size` bins stands for, as a raw fixed-point value:
/// `(rho_scaled - half) * max_line_length / half`.
pub open spec fn bin_rho(rho_scaled: int, rho_axis_size: int, max_line_length: int) -> int {
    let half = rho_axis_half(rho_axis_size);
    round_half_away((rho_scaled - half) * max_line_length * ONE, half)
}

/// The distance `rho` that the bin `rho_scaled` of a rho axis of
/// `rho_axis_size` bins stands for, in an image whose longest line is
/// `max_line_length`.
pub fn rho_of_bin(rho_scaled: u32, rho_axis_size: u32, max_line_length: u32) -> (rho: Fixed)
    requires
        rho_axis_size > 0,
    ensures
        rho.raw == bin_rho(rho_scaled as int, rho_axis_size as int, max_line_length as int),
{
    let half: i128 = ((rho_axis_size as u64 + 1) / 2) as i128;
    let offset: i128 = rho_scaled as i128 - half;
    assert(-0x1_0000_0000 * 0x1_0000_0000 <= offset * max_line_length <= 0x1_0000_0000
        * 0x1_0000_0000) by (nonlinear_arith)
        requires
            -0x1_0000_0000 <= offset <= 0x1_0000_0000,
            0 <= max_line_length <= 0x1_0000_0000,
    ;
    let scaled: i128 = offset * (max_line_length as i128);
    Fixed { raw: round_div_signed(scaled * ONE, half) }
}

/// The line of the cell `(theta, rho_scaled)` of the Hough space of an image
/// of the given size, whose theta axis is oversampled by
/// `theta_axis_scale_factor` and whose rho axis has `rho_axis_size` bins.
pub open spec fn cell_line(
    theta: int,
    rho_scaled: int,
    theta_axis_scale_factor: int,
    rho_axis_size: int,
    img_width: int,
    img_height: int,
) -> (i32, i32, i32, i32) {
    let line = reconstructed_line(
        theta,
        theta_axis_scale_factor,
        bin_rho(rho_scaled, rho_axis_size, max_line_length(img_width, img_height)),
        img_width,
        img_height,
    );
    (line.0 as i32, line.1 as i32, line.2 as i32, line.3 as i32)
}

/// The lines of the first `rho_end` cells of row `theta` of the grid that
/// hold at least `threshold` votes, each with its `theta`, in the order of
/// the cells.
pub open spec fn row_lines(
    rows: Seq<Seq<u32>>,
    threshold: u32,
    theta_axis_scale_factor: int,
    img_width: int,
    img_height: int,
    theta: int,
    rho_end: nat,
) -> Seq<(u32, (i32, i32, i32, i32))>
    decreases rho_end,
{
    if rho_end == 0 {
        Seq::empty()
    } else {
        let before = row_lines(
            rows,
            threshold,
            theta_axis_scale_factor,
            img_width,
            img_height,
            theta,
            (rho_end - 1) as nat,
        );
        if rows[theta][rho_end - 1] >= threshold {
            before.push(
                (
                    theta as u32,
                    cell_line(
                        theta,
                        rho_end - 1,
                        theta_axis_scale_factor,
                        rows[theta].len() as int,
                        img_width,
                        img_height,
                    ),
                ),
            )
        } else {
            before
        }
    }
}

/// The lines of the cells of the first `theta_end` rows of the grid that
/// hold at least `threshold` votes, row after row.
pub open spec fn grid_lines(
    rows: Seq<Seq<u32>>,
    threshold: u32,
    theta_axis_scale_factor: int,
    img_width: int,
    img_height: int,
    theta_end: nat,
) -> Seq<(u32, (i32, i32, i32, i32))>
    decreases theta_end,
{
    if theta_end == 0 {
        Seq::empty()
    } else {
        grid_lines(
            rows,
            threshold,
            theta_axis_scale_factor,
            img_width,
            img_height,
            (theta_end - 1) as nat,
        ) + row_lines(
            rows,
            threshold,
            theta_axis_scale_factor,
            img_width,
            img_height,
            theta_end - 1,
            rows[theta_end - 1].len(),
        )
    }
}

/// The sizes are within what the reconstruction of lines can work with: both
/// axes of the grid and the longest line of the image are 32-bit numbers.
pub open spec fn detectable(
    rows: Seq<Seq<u32>>,
    width: nat,
    img_width: int,
    img_height: int,
) -> bool {
    &&& rows.len() <= u32::MAX
    &&& width <= u32::MAX
    &&& max_line_length(img_width, img_height) <= u32::MAX
}

/// Reconstructs the line of every cell of the accumulator that holds at
/// least `houghspace_filter_threshold` votes, for an image of the given
/// size.
///
/// Returns the lines with their `theta`, in the order of the cells: by
/// `theta`, and by `rho` under the same `theta`. Fails where the scale
/// factor is zero and where the sizes are beyond 32 bits.
pub fn detect_lines(
    accumulator: &Accumulator,
    theta_axis_scale_factor: u32,
    houghspace_filter_threshold: u32,
    img_width: u32,
    img_height: u32,
) -> (result: Result<Vec<(u32, (i32, i32, i32, i32))>, HoughError>)
    ensures
        match result {
            Err(HoughError::InvalidConfiguration) => theta_axis_scale_factor == 0,
            Err(HoughError::TooLarge) => theta_axis_scale_factor > 0 && !detectable(
                accumulator@,
                accumulator.width(),
                img_width as int,
                img_height as int,
            ),
            Err(_) => false,
            Ok(lines) => {
                &&& theta_axis_scale_factor > 0
                &&& detectable(
                    accumulator@,
                    accumulator.width(),
                    img_width as int,
                    img_height as int,
                )
                &&& lines@ == grid_lines(
                    accumulator@,
                    houghspace_filter_threshold,
                    theta_axis_scale_factor as int,
                    img_width as int,
                    img_height as int,
                    accumulator@.len(),
                )
            },
        },
{
    if theta_axis_scale_factor == 0 {
        return Err(HoughError::InvalidConfiguration);
    }
    let theta_axis_size: usize = accumulator.theta_axis_size();
    let rho_axis_size: usize = accumulator.rho_axis_size();
    let longest: u64 = calculate_max_line_length(img_width, img_height);
    if theta_axis_size > u32::MAX as usize || rho_axis_size > u32::MAX as usize || longest
        > u32::MAX as u64 {
        return Err(HoughError::TooLarge);
    }
    let longest_line: u32 = longest as u32;
    let mut lines: Vec<(u32, (i32, i32, i32, i32))> = Vec::new();
    let mut theta: usize = 0;
    while theta < theta_axis_size
        invariant
            theta <= theta_axis_size <= u32::MAX,
            theta_axis_size == accumulator@.len(),
            rho_axis_size == accumulator.width() <= u32::MAX,
            rectangular(accumulator@, rho_axis_size as int),
            theta_axis_scale_factor > 0,
            longest_line == max_line_length(img_width as int, img_height as int),
            lines@ == grid_lines(
                accumulator@,
                houghspace_filter_threshold,
                theta_axis_scale_factor as int,
                img_width as int,
                img_height as int,
                theta as nat,
            ),
        decreases theta_axis_size - theta,
    {
        let ghost before = lines@;
        let mut rho_scaled: usize = 0;
        while rho_scaled < rho_axis_size
            invariant
                theta < theta_axis_size <= u32::MAX,
                rho_scaled <= rho_axis_size,
                theta_axis_size == accumulator@.len(),
                rho_axis_size == accumulator.width() <= u32::MAX,
                rectangular(accumulator@, rho_axis_size as int),
                theta_axis_scale_factor > 0,
                longest_line == max_line_length(img_width as int, img_height as int),
                lines@ == before + row_lines(
                    accumulator@,
                    houghspace_filter_threshold,
                    theta_axis_scale_factor as int,
                    img_width as int,
                    img_height as int,
                    theta as int,
                    rho_scaled as nat,
                ),
            decreases rho_axis_size - rho_scaled,
        {
            let ghost so_far = row_lines(
                accumulator@,
                houghspace_filter_threshold,
                theta_axis_scale_factor as int,
                img_width as int,
                img_height as int,
                theta as int,
                rho_scaled as nat,
            );
            let count: u32 = match accumulator.votes(theta, rho_scaled) {
                Some(c) => c,
                None => 0,
            };
            if count >= houghspace_filter_threshold {
                let rho = rho_of_bin(rho_scaled as u32, rho_axis_size as u32, longest_line);
                let line = line_from_rho_theta(
                    theta as u32,
                    theta_axis_scale_factor,
                    rho,
                    img_width,
                    img_height,
                );
                lines.push((theta as u32, line));
                proof {
                    assert(accumulator@[theta as int].len() == rho_axis_size);
                    assert(lines@ =~= before + so_far.push((theta as u32, line)));
                }
            }
            rho_scaled += 1;
        }
        proof {
            assert(accumulator@[theta as int].len() == rho_axis_size);
        }
        theta += 1;
    }
    Ok(lines)
}

/// The part of `line` that lies inside an image of the given size, in the
/// coordinates of the image, where rows are counted from the top: the line,
/// whose rows are counted from the bottom, is clipped to the image and
/// turned upside down. `None` when no point of the line lies inside.
pub open spec fn image_segment(
    line: (i32, i32, i32, i32),
    img_width: int,
    img_height: int,
) -> Option<(i32, i32, i32, i32)> {
    match clipped_line((0, (img_width - 1) as i32, 0, (img_height - 1) as i32), line) {
        None => None,
        Some(c) => Some(
            (
                c.0 as i32,
                (img_height - 1 - c.1) as i32,
                c.2 as i32,
                (img_height - 1 - c.3) as i32,
            ),
        ),
    }
}

/// Some line among the first `end` has no point inside the image.
pub open spec fn hidden_line_before(
    lines: Seq<(u32, (i32, i32, i32, i32))>,
    img_width: int,
    img_height: int,
    end: int,
) -> bool {
    exists|i: int|
        0 <= i < end && #[trigger] image_segment(lines[i].1, img_width, img_height) is None
}

/// The segments to draw for the detected lines: each line clipped to the
/// image and given in the image's own coordinates, rows counted from the
/// top.
///
/// Fails where the image is wider or higher than `2^31` pixels, and where a
/// line has no point inside the image.
pub fn visible_segments(
    lines: &Vec<(u32, (i32, i32, i32, i32))>,
    img_width: u32,
    img_height: u32,
) -> (result: Result<Vec<(i32, i32, i32, i32)>, HoughError>)
    ensures
        match result {
            Err(HoughError::TooLarge) => img_width > 0x8000_0000 || img_height > 0x8000_0000,
            Err(HoughError::LineOutsideImage) => img_width <= 0x8000_0000 && img_height
                <= 0x8000_0000 && hidden_line_before(
                lines@,
                img_width as int,
                img_height as int,
                lines@.len() as int,
            ),
            Err(_) => false,
            Ok(segments) => {
                &&& img_width <= 0x8000_0000
                &&& img_height <= 0x8000_0000
                &&& segments@.len() == lines@.len()
                &&& forall|i: int|
                    0 <= i < lines@.len() ==> image_segment(
                        lines@[i].1,
                        img_width as int,
                        img_height as int,
                    ) == Some(#[trigger] segments@[i])
            },
        },
{
    if img_width > 0x8000_0000 || img_height > 0x8000_0000 {
        return Err(HoughError::TooLarge);
    }
    let right: i32 = (img_width as i64 - 1) as i32;
    let top: i32 = (img_height as i64 - 1) as i32;
    let mut segments: Vec<(i32, i32, i32, i32)> = Vec::new();
    let mut i: usize = 0;
    while i < lines.len()
        invariant
            i <= lines@.len(),
            img_width <= 0x8000_0000,
            img_height <= 0x8000_0000,
            right == img_width - 1,
            top == img_height - 1,
            segments@.len() == i,
            forall|k: int|
                0 <= k < i ==> image_segment(lines@[k].1, img_width as int, img_height as int)
                    == Some(#[trigger] segments@[k]),
        decreases lines@.len() - i,
    {
        let line: (i32, i32, i32, i32) = lines[i].1;
        match clip_line_liang_barsky((0, right, 0, top), line) {
            None => {
                proof {
                    assert(image_segment(lines@[i as int].1, img_width as int, img_height as int)
                        is None);
                }
                return Err(HoughError::LineOutsideImage);
            },
            Some(c) => {
                segments.push((c.0, top - c.1, c.2, top - c.3));
            },
        }
        i += 1;
    }
    Ok(segments)
}

} // verus!
