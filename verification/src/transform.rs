//! The Hough transform: every edge pixel of an image votes, for every angle
//! of the theta axis, for the line through it whose normal stands at that
//! angle.

use vstd::prelude::*;
use image::DynamicImage;
use crate::accumulator::{rectangular, Accumulator};
use crate::edge::{image_dimensions, image_size, is_edge_at, is_edge_below, EDGE_THRESHOLD};
use crate::geometry::{
    calculate_max_line_length, calculate_rho, is_max_line_length, max_line_length, rho_raw,
    scale_rho, scaled_rho,
};

verus! {

/// Why a Hough transform was not carried out.
#[derive(Clone, Copy, Debug, PartialEq, Eq, Structural)]
pub enum HoughError {
    /// A scale factor is zero: the accumulator would have no cells.
    InvalidConfiguration,
    /// The image or the accumulator is larger than this machine can count or
    /// address.
    TooLarge,
    /// A vote fell beyond the last bin of the rho axis.
    VoteOutOfRange,
    /// A reconstructed line has no point inside the image.
    LineOutsideImage,
}

/// The shape of a Hough space and of the image that it is built for.
pub struct Layout {
    pub img_width: int,
    pub img_height: int,
    pub theta_axis_size: int,
    pub rho_axis_size: int,
    pub edge_threshold: int,
}

impl Layout {
    /// The Hough space of an image of the given size with the given
    /// oversampling factors: 180 steps of theta to the factor, and as many
    /// bins of rho to the factor as the longest line has pixels. Pixels of an
    /// intensity below `edge_threshold` vote.
    pub open spec fn of(
        img_size: (nat, nat),
        theta_axis_scale_factor: int,
        rho_axis_scale_factor: int,
        edge_threshold: int,
    ) -> Layout {
        Layout {
            img_width: img_size.0 as int,
            img_height: img_size.1 as int,
            theta_axis_size: theta_axis_scale_factor * 180,
            rho_axis_size: max_line_length(img_size.0 as int, img_size.1 as int)
                * rho_axis_scale_factor,
            edge_threshold,
        }
    }

    /// The length of the longest line in the image.
    pub open spec fn max_line_length(self) -> int {
        max_line_length(self.img_width, self.img_height)
    }

    /// The image can be counted and the accumulator addressed on this
    /// machine.
    pub open spec fn fits(self) -> bool {
        &&& self.theta_axis_size <= u32::MAX
        &&& self.rho_axis_size <= u32::MAX
        &&& self.img_width * self.img_height <= u32::MAX
        &&& self.theta_axis_size * self.rho_axis_size * 4 <= isize::MAX
    }

    /// The bin of the rho axis that the pixel `(x, y)` votes for at the angle
    /// `theta`. The pixel's row is counted from the top of the image, the
    /// distance `rho` is taken with rows counted from the bottom.
    pub open spec fn vote_bin(self, theta: int, x: int, y: int) -> int {
        scaled_rho(
            rho_raw(theta, self.theta_axis_size, x, self.img_height - 1 - y),
            self.rho_axis_size,
            self.max_line_length(),
        )
    }

    /// The pixel `(x, y)` is an edge and votes, at the angle `theta`, for the
    /// bin `bin`.
    pub open spec fn casts_vote(
        self,
        img: DynamicImage,
        theta: int,
        bin: int,
        x: int,
        y: int,
    ) -> bool {
        is_edge_at(img, x, y, self.edge_threshold) && self.vote_bin(theta, x, y) == bin
    }

    /// The votes for the cell `(theta, bin)` from the first `x_end` pixels of
    /// row `y`.
    pub open spec fn row_votes(
        self,
        img: DynamicImage,
        theta: int,
        bin: int,
        y: int,
        x_end: nat,
    ) -> nat
        decreases x_end,
    {
        if x_end == 0 {
            0
        } else {
            let before = self.row_votes(img, theta, bin, y, (x_end - 1) as nat);
            if self.casts_vote(img, theta, bin, x_end - 1, y) {
                before + 1
            } else {
                before
            }
        }
    }

    /// The votes for the cell `(theta, bin)` from the first `y_end` rows of
    /// the image.
    pub open spec fn image_votes(self, img: DynamicImage, theta: int, bin: int, y_end: nat) -> nat
        decreases y_end,
    {
        if y_end == 0 {
            0
        } else {
            self.image_votes(img, theta, bin, (y_end - 1) as nat) + self.row_votes(
                img,
                theta,
                bin,
                y_end - 1,
                self.img_width as nat,
            )
        }
    }

    /// The votes for the cell `(theta, bin)` from the whole image: the
    /// number of edge pixels whose line at the angle `theta` falls into the
    /// bin.
    pub open spec fn votes(self, img: DynamicImage, theta: int, bin: int) -> nat {
        self.image_votes(img, theta, bin, self.img_height as nat)
    }

    /// Some edge pixel of the first `y_end` rows, or of the first `x_end`
    /// pixels of row `y_end`, votes at an angle below `theta_end` for a bin
    /// that the rho axis does not have.
    pub open spec fn stray_vote_before(
        self,
        img: DynamicImage,
        y_end: int,
        x_end: int,
        theta_end: int,
    ) -> bool {
        exists|x: int, y: int, theta: int|
            #![trigger self.vote_bin(theta, x, y)]
            {
                &&& 0 <= x < self.img_width
                &&& 0 <= y < self.img_height
                &&& 0 <= theta < self.theta_axis_size
                &&& y < y_end || (y == y_end && (x < x_end || (x == x_end && theta < theta_end)))
                &&& is_edge_at(img, x, y, self.edge_threshold)
                &&& self.vote_bin(theta, x, y) >= self.rho_axis_size
            }
    }

    /// Some edge pixel of the image votes for a bin that the rho axis does
    /// not have.
    pub open spec fn stray_vote(self, img: DynamicImage) -> bool {
        self.stray_vote_before(img, self.img_height, 0, 0)
    }
}

/// Part of a row casts no more votes for a cell than it has pixels.
proof fn lemma_row_votes_bound(
    layout: Layout,
    img: DynamicImage,
    theta: int,
    bin: int,
    y: int,
    x_end: nat,
)
    ensures
        layout.row_votes(img, theta, bin, y, x_end) <= x_end,
    decreases x_end,
{
    if x_end > 0 {
        lemma_row_votes_bound(layout, img, theta, bin, y, (x_end - 1) as nat);
    }
}

/// The first rows of an image cast no more votes for a cell than they have
/// pixels.
proof fn lemma_image_votes_bound(
    layout: Layout,
    img: DynamicImage,
    theta: int,
    bin: int,
    y_end: nat,
)
    requires
        layout.img_width >= 0,
    ensures
        layout.image_votes(img, theta, bin, y_end) <= y_end * layout.img_width,
    decreases y_end,
{
    if y_end > 0 {
        lemma_image_votes_bound(layout, img, theta, bin, (y_end - 1) as nat);
        lemma_row_votes_bound(layout, img, theta, bin, y_end - 1, layout.img_width as nat);
        assert(y_end * layout.img_width == (y_end - 1) * layout.img_width + layout.img_width)
            by (nonlinear_arith);
    }
}

/// What a Hough transform with the given layout returns for the image:
/// each failure on its own inputs, and otherwise the accumulator in which
/// each cell holds the votes that the image casts for it.
pub open spec fn transform_of(
    img: DynamicImage,
    layout: Layout,
    theta_axis_scale_factor: int,
    rho_axis_scale_factor: int,
    result: Result<Accumulator, HoughError>,
) -> bool {
    match result {
        Err(HoughError::InvalidConfiguration) => theta_axis_scale_factor == 0
            || rho_axis_scale_factor == 0,
        Err(HoughError::TooLarge) => theta_axis_scale_factor > 0 && rho_axis_scale_factor > 0
            && !layout.fits(),
        Err(HoughError::VoteOutOfRange) => theta_axis_scale_factor > 0 && rho_axis_scale_factor > 0
            && layout.fits() && layout.stray_vote(img),
        Err(HoughError::LineOutsideImage) => false,
        Ok(acc) => {
            &&& theta_axis_scale_factor > 0
            &&& rho_axis_scale_factor > 0
            &&& layout.fits()
            &&& !layout.stray_vote(img)
            &&& acc@.len() == layout.theta_axis_size
            &&& acc.width() == layout.rho_axis_size
            &&& rectangular(acc@, layout.rho_axis_size)
            &&& forall|theta: int, bin: int|
                0 <= theta < layout.theta_axis_size && 0 <= bin < layout.rho_axis_size
                    ==> #[trigger] acc@[theta][bin] == layout.votes(img, theta, bin)
        },
    }
}

/// Builds the Hough accumulator of an image, with the pixels of an intensity
/// below `EDGE_THRESHOLD` as edges.
///
/// The theta axis has `180 * theta_axis_scale_factor` steps, the rho axis as
/// many bins as the longest line in the image has pixels, times
/// `rho_axis_scale_factor`. Each cell holds the number of edge pixels whose
/// line at the cell's angle falls into the cell's bin.
///
/// Fails where a scale factor is zero, where the image or the accumulator
/// is too large for this machine, and where a vote falls beyond the rho
/// axis.
pub fn hough_transform(
    img: &DynamicImage,
    theta_axis_scale_factor: u32,
    rho_axis_scale_factor: u32,
) -> (result: Result<Accumulator, HoughError>)
    ensures
        transform_of(
            *img,
            Layout::of(
                image_size(*img),
                theta_axis_scale_factor as int,
                rho_axis_scale_factor as int,
                EDGE_THRESHOLD as int,
            ),
            theta_axis_scale_factor as int,
            rho_axis_scale_factor as int,
            result,
        ),
{
    hough_transform_with_threshold(
        img,
        theta_axis_scale_factor,
        rho_axis_scale_factor,
        EDGE_THRESHOLD,
    )
}

/// Builds the Hough accumulator of an image, with the pixels of an intensity
/// below `edge_threshold` as edges; in all else as `hough_transform`.
pub fn hough_transform_with_threshold(
    img: &DynamicImage,
    theta_axis_scale_factor: u32,
    rho_axis_scale_factor: u32,
    edge_threshold: u8,
) -> (result: Result<Accumulator, HoughError>)
    ensures
        transform_of(
            *img,
            Layout::of(
                image_size(*img),
                theta_axis_scale_factor as int,
                rho_axis_scale_factor as int,
                edge_threshold as int,
            ),
            theta_axis_scale_factor as int,
            rho_axis_scale_factor as int,
            result,
        ),
{
    let ghost layout = Layout::of(
        image_size(*img),
        theta_axis_scale_factor as int,
        rho_axis_scale_factor as int,
        edge_threshold as int,
    );
    let (img_width, img_height) = image_dimensions(img);
    if theta_axis_scale_factor == 0 || rho_axis_scale_factor == 0 {
        return Err(HoughError::InvalidConfiguration);
    }
    let max_line_length: u64 = calculate_max_line_length(img_width, img_height);
    let theta_axis_wide: u64 = (theta_axis_scale_factor as u64) * 180;
    assert(max_line_length * rho_axis_scale_factor <= 0x2_0000_0000 * 0xffff_ffff)
        by (nonlinear_arith)
        requires
            0 <= max_line_length <= 0x2_0000_0000,
            0 <= rho_axis_scale_factor <= 0xffff_ffff,
    ;
    let rho_axis_wide: u128 = (max_line_length as u128) * (rho_axis_scale_factor as u128);
    assert(img_width * img_height <= 0xffff_ffff * 0xffff_ffff) by (nonlinear_arith)
        requires
            0 <= img_width <= 0xffff_ffff,
            0 <= img_height <= 0xffff_ffff,
    ;
    let pixels: u64 = (img_width as u64) * (img_height as u64);
    if theta_axis_wide > u32::MAX as u64 || rho_axis_wide > u32::MAX as u128 || pixels
        > u32::MAX as u64 {
        return Err(HoughError::TooLarge);
    }
    let theta_axis_size: u32 = theta_axis_wide as u32;
    let rho_axis_size: u32 = rho_axis_wide as u32;
    assert(max_line_length <= max_line_length * rho_axis_scale_factor) by (nonlinear_arith)
        requires
            max_line_length >= 0,
            rho_axis_scale_factor >= 1,
    ;
    let mut accumulator = match Accumulator::new(theta_axis_size as usize, rho_axis_size as usize) {
        Some(acc) => acc,
        None => {
            return Err(HoughError::TooLarge);
        },
    };
    assert(layout.fits());
    let mut y: u32 = 0;
    while y < img_height
        invariant
            y <= img_height,
            layout == Layout::of(
                image_size(*img),
                theta_axis_scale_factor as int,
                rho_axis_scale_factor as int,
                edge_threshold as int,
            ),
            (img_width as nat, img_height as nat) == image_size(*img),
            layout.theta_axis_size == theta_axis_size > 0,
            layout.rho_axis_size == rho_axis_size,
            layout.max_line_length() == max_line_length <= u32::MAX,
            is_max_line_length(max_line_length as int, img_width as int, img_height as int),
            theta_axis_scale_factor > 0,
            rho_axis_scale_factor > 0,
            layout.fits(),
            accumulator@.len() == theta_axis_size,
            accumulator.width() == rho_axis_size,
            rectangular(accumulator@, rho_axis_size as int),
            !layout.stray_vote_before(*img, y as int, 0, 0),
            forall|theta: int, bin: int|
                0 <= theta < theta_axis_size && 0 <= bin < rho_axis_size
                    ==> #[trigger] accumulator@[theta][bin] == layout.image_votes(
                    *img,
                    theta,
                    bin,
                    y as nat,
                ),
        decreases img_height - y,
    {
        let mut x: u32 = 0;
        while x < img_width
            invariant
                y < img_height,
                x <= img_width,
                layout == Layout::of(
                    image_size(*img),
                    theta_axis_scale_factor as int,
                    rho_axis_scale_factor as int,
                    edge_threshold as int,
                ),
                (img_width as nat, img_height as nat) == image_size(*img),
                layout.theta_axis_size == theta_axis_size > 0,
                layout.rho_axis_size == rho_axis_size,
                layout.max_line_length() == max_line_length <= u32::MAX,
            is_max_line_length(max_line_length as int, img_width as int, img_height as int),
                theta_axis_scale_factor > 0,
                rho_axis_scale_factor > 0,
                layout.fits(),
                accumulator@.len() == theta_axis_size,
                accumulator.width() == rho_axis_size,
                rectangular(accumulator@, rho_axis_size as int),
                !layout.stray_vote_before(*img, y as int, x as int, 0),
                forall|theta: int, bin: int|
                    0 <= theta < theta_axis_size && 0 <= bin < rho_axis_size
                        ==> #[trigger] accumulator@[theta][bin] == layout.image_votes(
                        *img,
                        theta,
                        bin,
                        y as nat,
                    ) + layout.row_votes(*img, theta, bin, y as int, x as nat),
            decreases img_width - x,
        {
            if is_edge_below(img, x, y, edge_threshold) {
                let mut theta: u32 = 0;
                while theta < theta_axis_size
                    invariant
                        y < img_height,
                        x < img_width,
                        theta <= theta_axis_size,
                        is_edge_at(*img, x as int, y as int, edge_threshold as int),
                        layout == Layout::of(
                            image_size(*img),
                            theta_axis_scale_factor as int,
                            rho_axis_scale_factor as int,
                            edge_threshold as int,
                        ),
                        (img_width as nat, img_height as nat) == image_size(*img),
                        layout.theta_axis_size == theta_axis_size > 0,
                        layout.rho_axis_size == rho_axis_size,
                        layout.max_line_length() == max_line_length <= u32::MAX,
            is_max_line_length(max_line_length as int, img_width as int, img_height as int),
                        theta_axis_scale_factor > 0,
                        rho_axis_scale_factor > 0,
                        layout.fits(),
                        accumulator@.len() == theta_axis_size,
                        accumulator.width() == rho_axis_size,
                        rectangular(accumulator@, rho_axis_size as int),
                        !layout.stray_vote_before(*img, y as int, x as int, theta as int),
                        forall|t: int, bin: int|
                            0 <= t < theta_axis_size && 0 <= bin < rho_axis_size
                                ==> #[trigger] accumulator@[t][bin] == layout.image_votes(
                                *img,
                                t,
                                bin,
                                y as nat,
                            ) + layout.row_votes(
                                *img,
                                t,
                                bin,
                                y as int,
                                if t < theta {
                                    (x + 1) as nat
                                } else {
                                    x as nat
                                },
                            ),
                    decreases theta_axis_size - theta,
                {
                    assert(max_line_length > 0) by (nonlinear_arith)
                        requires
                            max_line_length * max_line_length >= img_width * img_width
                                + img_height * img_height,
                            img_width > 0,
                    ;
                    let y_inverted: u32 = img_height - y - 1;
                    let rho = calculate_rho(theta, theta_axis_size, x, y_inverted);
                    let rho_scaled: u32 = scale_rho(rho, rho_axis_size, max_line_length as u32);
                    assert(rho_scaled == layout.vote_bin(theta as int, x as int, y as int));
                    let ghost before = accumulator@;
                    proof {
                        if rho_scaled < rho_axis_size {
                            lemma_image_votes_bound(
                                layout,
                                *img,
                                theta as int,
                                rho_scaled as int,
                                y as nat,
                            );
                            lemma_row_votes_bound(
                                layout,
                                *img,
                                theta as int,
                                rho_scaled as int,
                                y as int,
                                x as nat,
                            );
                            assert(y * img_width + x < img_width * img_height)
                                by (nonlinear_arith)
                                requires
                                    0 <= y < img_height,
                                    0 <= x < img_width,
                            ;
                        }
                    }
                    if !accumulator.cast_vote(theta as usize, rho_scaled as usize) {
                        proof {
                            assert(layout.vote_bin(theta as int, x as int, y as int)
                                >= layout.rho_axis_size);
                            assert(layout.stray_vote_before(*img, img_height as int, 0, 0));
                        }
                        return Err(HoughError::VoteOutOfRange);
                    }
                    proof {
                        assert forall|t: int, bin: int|
                            0 <= t < theta_axis_size && 0 <= bin
                                < rho_axis_size implies #[trigger] accumulator@[t][bin]
                            == layout.image_votes(*img, t, bin, y as nat) + layout.row_votes(
                            *img,
                            t,
                            bin,
                            y as int,
                            if t < theta + 1 {
                                (x + 1) as nat
                            } else {
                                x as nat
                            },
                        ) by {
                            assert(before[t][bin] == layout.image_votes(*img, t, bin, y as nat)
                                + layout.row_votes(
                                *img,
                                t,
                                bin,
                                y as int,
                                if t < theta {
                                    (x + 1) as nat
                                } else {
                                    x as nat
                                },
                            ));
                        }
                        assert(rectangular(accumulator@, rho_axis_size as int)) by {
                            assert forall|i: int| 0 <= i < accumulator@.len() implies (
                            #[trigger] accumulator@[i]).len() == rho_axis_size by {
                                assert(before[i].len() == rho_axis_size);
                            }
                        }
                    }
                    theta += 1;
                }
            }
            x += 1;
        }
        y += 1;
    }
    Ok(accumulator)
}

} // verus!
