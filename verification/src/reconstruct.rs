//! From a cell of the Hough space back to a line in the image: the two
//! points where the line `x * cos(theta) + y * sin(theta) = rho` leaves the
//! first quadrant or crosses the image's right border.
//!
//! The closed forms divide by the sine of an angle, which is zero at the
//! multiples of a quarter turn; those angles are regimes of their own.

use vstd::prelude::*;
use crate::fixed::{Fixed, ONE};
use crate::geometry::rho_raw;
use crate::rounding::{
    clamp, lemma_round_half_away_error, lemma_round_half_away_exact, lemma_round_half_away_neg,
    magnitude, round_div, round_half_away,
};
use crate::trig::{
    cos_raw, lemma_cosine_is_sine_of_complement, lemma_finer_axis, lemma_quarter_turn,
    lemma_sine_positive, lemma_values_along_the_axes, sin_raw, sine,
};

verus! {

/// The number of steps of the canonical theta axis: one to the degree.
pub const CANONICAL_AXIS: u32 = 180;

/// The regime that the angle of a line's normal falls into.
#[derive(Clone, Copy, Debug, PartialEq, Eq, Structural)]
pub enum Regime {
    /// The normal lies along the x axis, at 0 or 180 degrees: the line is
    /// vertical.
    Vertical,
    /// The normal lies along the y axis, at 90 degrees: the line is
    /// horizontal.
    Horizontal,
    /// The normal stands at `alpha` degrees, strictly between 0 and 90: the
    /// line falls from the y axis to the x axis.
    Falling { alpha: u32 },
    /// The normal stands at `90 + alpha` degrees, `alpha` strictly between 0
    /// and 90: the line rises from the x axis at the angle `alpha`.
    Rising { alpha: u32 },
    /// The angle lies beyond the half turn: no line belongs to it.
    Beyond,
}

/// The regime of an angle of whole degrees.
pub open spec fn regime_of(degrees: int) -> Regime {
    if degrees == 0 || degrees == 180 {
        Regime::Vertical
    } else if degrees == 90 {
        Regime::Horizontal
    } else if 0 < degrees < 90 {
        Regime::Falling { alpha: degrees as u32 }
    } else if 90 < degrees < 180 {
        Regime::Rising { alpha: (degrees - 90) as u32 }
    } else {
        Regime::Beyond
    }
}

/// The angle of step `theta` of a theta axis oversampled by
/// `theta_axis_scale_factor`, in whole degrees: `theta / factor`, rounded.
pub open spec fn descaled_theta(theta: int, theta_axis_scale_factor: int) -> int {
    round_half_away(theta, theta_axis_scale_factor)
}

/// `v` limited to the range of a signed 32-bit integer.
pub open spec fn to_i32(v: int) -> int {
    clamp(v, i32::MIN as int, i32::MAX as int)
}

/// The two end points `(x1, y1, x2, y2)` of the line with the raw normal
/// distance `rho` in the given regime, in an image `img_width` wide and
/// `img_height` high, rows counted from the bottom; each coordinate rounded
/// to a whole number.
///
/// With `size` for the magnitude of `rho`:
/// - vertical: from `(size, img_height)` to `(size, 0)`;
/// - horizontal: from `(0, size)` to `(img_width, size)`;
/// - falling: from `(0, size / sin(alpha))` to `(size / sin(90 - alpha), 0)`;
/// - rising: from `(-rho / sin(alpha), 0)` to the right border, which the
///   line meets at the height `(img_width * sin(alpha) + rho) / sin(90 - alpha)`.
pub open spec fn exact_line(regime: Regime, rho: int, img_width: int, img_height: int) -> (
    int,
    int,
    int,
    int,
) {
    let size = if rho >= 0 {
        rho
    } else {
        -rho
    };
    match regime {
        Regime::Vertical => {
            let x = round_half_away(size, ONE as int);
            (x, img_height, x, 0)
        },
        Regime::Horizontal => {
            let y = round_half_away(size, ONE as int);
            (0, y, img_width, y)
        },
        Regime::Falling { alpha } => {
            let sin_alpha = sin_raw(alpha as int, CANONICAL_AXIS as int);
            let sin_beta = sin_raw(90 - alpha, CANONICAL_AXIS as int);
            (0, round_half_away(size, sin_alpha), round_half_away(size, sin_beta), 0)
        },
        Regime::Rising { alpha } => {
            let sin_alpha = sin_raw(alpha as int, CANONICAL_AXIS as int);
            let sin_beta = sin_raw(90 - alpha, CANONICAL_AXIS as int);
            (
                round_half_away(-rho, sin_alpha),
                0,
                img_width,
                round_half_away(img_width * sin_alpha + rho, sin_beta),
            )
        },
        Regime::Beyond => (0, 0, 0, 0),
    }
}

/// The line of `exact_line` with each coordinate limited to 32 bits.
pub open spec fn line_in_regime(regime: Regime, rho: int, img_width: int, img_height: int) -> (
    int,
    int,
    int,
    int,
) {
    let line = exact_line(regime, rho, img_width, img_height);
    (to_i32(line.0), to_i32(line.1), to_i32(line.2), to_i32(line.3))
}

/// The line of the cell `(theta, rho)` of a Hough space whose theta axis is
/// oversampled by `theta_axis_scale_factor`.
pub open spec fn reconstructed_line(
    theta: int,
    theta_axis_scale_factor: int,
    rho: int,
    img_width: int,
    img_height: int,
) -> (int, int, int, int) {
    line_in_regime(
        regime_of(descaled_theta(theta, theta_axis_scale_factor)),
        rho,
        img_width,
        img_height,
    )
}

/// The regime of step `theta` of a theta axis oversampled by
/// `theta_axis_scale_factor`.
pub fn angle_regime(theta: u32, theta_axis_scale_factor: u32) -> (regime: Regime)
    requires
        theta_axis_scale_factor > 0,
    ensures
        regime == regime_of(descaled_theta(theta as int, theta_axis_scale_factor as int)),
{
    let degrees: u128 = round_div(theta as u128, theta_axis_scale_factor as u128);
    if degrees == 0 || degrees == 180 {
        Regime::Vertical
    } else if degrees == 90 {
        Regime::Horizontal
    } else if degrees < 90 {
        Regime::Falling { alpha: degrees as u32 }
    } else if degrees < 180 {
        Regime::Rising { alpha: (degrees - 90) as u32 }
    } else {
        Regime::Beyond
    }
}

/// The quotient of `size`, taken negative where `negative` says so, and
/// `den`, rounded and limited to 32 bits.
fn rounded_quotient(size: u128, negative: bool, den: u128) -> (r: i32)
    requires
        den > 0,
    ensures
        r == to_i32(
            round_half_away(
                if negative {
                    -(size as int)
                } else {
                    size as int
                },
                den as int,
            ),
        ),
{
    let q: u128 = round_div(size, den);
    proof {
        lemma_round_half_away_neg(size as int, den as int);
    }
    if negative {
        if q >= 0x8000_0000 {
            i32::MIN
        } else {
            -(q as i32)
        }
    } else {
        if q > 0x7fff_ffff {
            i32::MAX
        } else {
            q as i32
        }
    }
}

/// An image size as a coordinate, limited to 32 bits.
fn size_coordinate(size: u32) -> (r: i32)
    ensures
        r == to_i32(size as int),
{
    if size > 0x7fff_ffff {
        i32::MAX
    } else {
        size as i32
    }
}

/// Reconstructs the line of the cell `(theta, rho)` of a Hough space whose
/// theta axis is oversampled by `theta_axis_scale_factor`: its two end
/// points `(x1, y1, x2, y2)` in an image `img_width` wide and `img_height`
/// high, rows counted from the bottom.
pub fn line_from_rho_theta(
    theta: u32,
    theta_axis_scale_factor: u32,
    rho: Fixed,
    img_width: u32,
    img_height: u32,
) -> (line: (i32, i32, i32, i32))
    requires
        theta_axis_scale_factor > 0,
    ensures
        (line.0 as int, line.1 as int, line.2 as int, line.3 as int) == reconstructed_line(
            theta as int,
            theta_axis_scale_factor as int,
            rho.raw as int,
            img_width as int,
            img_height as int,
        ),
{
    let size: u128 = magnitude(rho.raw);
    match angle_regime(theta, theta_axis_scale_factor) {
        Regime::Vertical => {
            let x: i32 = rounded_quotient(size, false, ONE as u128);
            (x, size_coordinate(img_height), x, 0)
        },
        Regime::Horizontal => {
            let y: i32 = rounded_quotient(size, false, ONE as u128);
            (0, y, size_coordinate(img_width), y)
        },
        Regime::Falling { alpha } => {
            proof {
                lemma_sine_positive(alpha as int, CANONICAL_AXIS as int);
                lemma_sine_positive(90 - alpha, CANONICAL_AXIS as int);
            }
            let sin_alpha: u128 = sine(alpha, CANONICAL_AXIS) as u128;
            let sin_beta: u128 = sine(90 - alpha, CANONICAL_AXIS) as u128;
            let y1: i32 = rounded_quotient(size, false, sin_alpha);
            let x2: i32 = rounded_quotient(size, false, sin_beta);
            (0, y1, x2, 0)
        },
        Regime::Rising { alpha } => {
            proof {
                lemma_sine_positive(alpha as int, CANONICAL_AXIS as int);
                lemma_sine_positive(90 - alpha, CANONICAL_AXIS as int);
            }
            let sin_alpha: u128 = sine(alpha, CANONICAL_AXIS) as u128;
            let sin_beta: u128 = sine(90 - alpha, CANONICAL_AXIS) as u128;
            assert(img_width * sin_alpha <= 0xffff_ffff * 0x1_0000_0000_0000) by (nonlinear_arith)
                requires
                    0 <= img_width <= 0xffff_ffff,
                    0 <= sin_alpha <= 0x1_0000_0000_0000,
            ;
            let reach: u128 = (img_width as u128) * sin_alpha;
            let x1: i32 = rounded_quotient(size, rho.raw >= 0, sin_alpha);
            let y2: i32 = if rho.raw >= 0 {
                rounded_quotient(reach + size, false, sin_beta)
            } else if reach >= size {
                rounded_quotient(reach - size, false, sin_beta)
            } else {
                rounded_quotient(size - reach, true, sin_beta)
            };
            (x1, 0, size_coordinate(img_width), y2)
        },
        Regime::Beyond => (0, 0, 0, 0),
    }
}

/// The sign of `rho` is the one that the geometry of the regime gives it:
/// the vertical, the horizontal and the falling regime reconstruct a line
/// from the magnitude of `rho` alone, which stands for `rho` where the normal
/// points into the first quadrant (up to 90 degrees) and for `-rho` at 180
/// degrees.
pub open spec fn sign_fits_regime(degrees: int, rho: int) -> bool {
    &&& degrees <= 90 ==> rho >= 0
    &&& degrees == 180 ==> rho <= 0
}

/// `rho` evaluated at the point `(x, y)` lies within half a unit of `rho`.
pub open spec fn reproduces_rho(theta: int, axis_size: int, x: int, y: int, rho: int) -> bool {
    -ONE <= 2 * (rho_raw(theta, axis_size, x, y) - rho) <= ONE
}

/// Both end points of a reconstructed line lie on the line that it was
/// reconstructed from, up to rounding: the normal distance of each, taken at
/// the line's own angle, is within half a unit of `rho`.
pub proof fn lemma_end_points_reproduce_rho(
    degrees: int,
    theta_axis_scale_factor: int,
    rho: int,
    img_width: int,
    img_height: int,
)
    requires
        0 <= degrees <= 180,
        theta_axis_scale_factor >= 1,
        sign_fits_regime(degrees, rho),
    ensures
        ({
            let line = exact_line(regime_of(degrees), rho, img_width, img_height);
            let theta = theta_axis_scale_factor * degrees;
            let axis_size = theta_axis_scale_factor * 180;
            &&& reproduces_rho(theta, axis_size, line.0, line.1, rho)
            &&& reproduces_rho(theta, axis_size, line.2, line.3, rho)
        }),
{
    let line = exact_line(regime_of(degrees), rho, img_width, img_height);
    let theta: int = theta_axis_scale_factor * degrees;
    let axis_size: int = theta_axis_scale_factor * 180;
    let cos: int = cos_raw(degrees, 180);
    let sin: int = sin_raw(degrees, 180);
    lemma_finer_axis(degrees, 180, theta_axis_scale_factor);
    assert(rho_raw(theta, axis_size, line.0, line.1) == line.0 * cos + line.1 * sin);
    assert(rho_raw(theta, axis_size, line.2, line.3) == line.2 * cos + line.3 * sin);
    let size: int = if rho >= 0 { rho } else { -rho };
    if degrees == 0 || degrees == 180 {
        lemma_values_along_the_axes(180);
        lemma_round_half_away_error(size, ONE as int);
        let x: int = round_half_away(size, ONE as int);
        assert(sin == 0 && (cos == ONE || cos == -ONE));
        assert(line.1 * sin == 0 && line.3 * sin == 0) by (nonlinear_arith)
            requires
                sin == 0,
        ;
        assert(x * cos == if degrees == 0 { ONE * x } else { -(ONE * x) }) by (nonlinear_arith)
            requires
                cos == if degrees == 0 { ONE as int } else { -ONE },
        ;
    } else if degrees == 90 {
        lemma_values_along_the_axes(90);
        lemma_round_half_away_error(size, ONE as int);
        let y: int = round_half_away(size, ONE as int);
        assert(cos == 0 && sin == ONE);
        assert(line.0 * cos == 0 && line.2 * cos == 0 && y * sin == ONE * y) by (nonlinear_arith)
            requires
                cos == 0,
                sin == ONE,
        ;
    } else if degrees < 90 {
        let sin_beta: int = sin_raw(90 - degrees, 180);
        lemma_cosine_is_sine_of_complement(degrees, 90);
        lemma_sine_positive(degrees, 180);
        lemma_sine_positive(90 - degrees, 180);
        lemma_round_half_away_error(size, sin);
        lemma_round_half_away_error(size, sin_beta);
        let y: int = round_half_away(size, sin);
        let x: int = round_half_away(size, sin_beta);
        assert(line == (0int, y, x, 0int));
        assert(0 * cos + y * sin == sin * y && x * cos + 0 * sin == sin_beta * x)
            by (nonlinear_arith)
            requires
                cos == sin_beta,
        ;
    } else {
        let alpha: int = degrees - 90;
        let sin_alpha: int = sin_raw(alpha, 180);
        let sin_beta: int = sin_raw(90 - alpha, 180);
        lemma_quarter_turn(alpha, 90);
        lemma_cosine_is_sine_of_complement(alpha, 90);
        lemma_sine_positive(alpha, 180);
        lemma_sine_positive(90 - alpha, 180);
        assert(cos == -sin_alpha && sin == sin_beta);
        lemma_round_half_away_error(-rho, sin_alpha);
        lemma_round_half_away_error(img_width * sin_alpha + rho, sin_beta);
        let x: int = round_half_away(-rho, sin_alpha);
        let y: int = round_half_away(img_width * sin_alpha + rho, sin_beta);
        assert(line == (x, 0int, img_width, y));
        assert(x * cos + 0 * sin == -(sin_alpha * x) && img_width * cos + y * sin == sin_beta * y
            - img_width * sin_alpha) by (nonlinear_arith)
            requires
                cos == -sin_alpha,
                sin == sin_beta,
        ;
    }
}

/// Every coordinate of the line is a 32-bit number.
pub open spec fn within_32_bits(line: (int, int, int, int)) -> bool {
    &&& i32::MIN <= line.0 <= i32::MAX
    &&& i32::MIN <= line.1 <= i32::MAX
    &&& i32::MIN <= line.2 <= i32::MAX
    &&& i32::MIN <= line.3 <= i32::MAX
}

/// Round trip: every point of a reconstructed line lies on the line that it
/// was reconstructed from, up to rounding.
///
/// The line is that of the cell `(theta, rho)`, where `theta` stands for a
/// whole number of degrees on the oversampled axis, the sign of `rho` is the
/// one that the regime reconstructs, and no coordinate is cut to 32 bits.
/// `(x, y)` is the point of the segment at the parameter `n / d`. Its normal
/// distance, taken at the angle `theta` on the axis that the cell belongs
/// to, is within half a unit of `rho`.
pub proof fn lemma_round_trip(
    degrees: int,
    theta_axis_scale_factor: int,
    rho: int,
    img_width: int,
    img_height: int,
    x: int,
    y: int,
    n: int,
    d: int,
)
    requires
        0 <= degrees <= 180,
        theta_axis_scale_factor >= 1,
        sign_fits_regime(degrees, rho),
        within_32_bits(exact_line(regime_of(degrees), rho, img_width, img_height)),
        0 <= n <= d,
        d > 0,
        ({
            let line = reconstructed_line(
                theta_axis_scale_factor * degrees,
                theta_axis_scale_factor,
                rho,
                img_width,
                img_height,
            );
            &&& d * x == (d - n) * line.0 + n * line.2
            &&& d * y == (d - n) * line.1 + n * line.3
        }),
    ensures
        reproduces_rho(
            theta_axis_scale_factor * degrees,
            theta_axis_scale_factor * 180,
            x,
            y,
            rho,
        ),
{
    lemma_round_half_away_exact(degrees, theta_axis_scale_factor);
    assert(theta_axis_scale_factor * degrees == degrees * theta_axis_scale_factor)
        by (nonlinear_arith);
    assert(reconstructed_line(
        theta_axis_scale_factor * degrees,
        theta_axis_scale_factor,
        rho,
        img_width,
        img_height,
    ) == exact_line(regime_of(degrees), rho, img_width, img_height));
    let line = exact_line(regime_of(degrees), rho, img_width, img_height);
    let theta: int = theta_axis_scale_factor * degrees;
    let axis_size: int = theta_axis_scale_factor * 180;
    let cos: int = cos_raw(theta, axis_size);
    let sin: int = sin_raw(theta, axis_size);
    lemma_end_points_reproduce_rho(degrees, theta_axis_scale_factor, rho, img_width, img_height);
    let first: int = line.0 * cos + line.1 * sin;
    let second: int = line.2 * cos + line.3 * sin;
    let here: int = x * cos + y * sin;
    let rest: int = d - n;
    assert(d * here == (d * x) * cos + (d * y) * sin) by (nonlinear_arith)
        requires
            here == x * cos + y * sin,
    ;
    assert((rest * line.0 + n * line.2) * cos == rest * (line.0 * cos) + n * (line.2 * cos))
        by (nonlinear_arith);
    assert((rest * line.1 + n * line.3) * sin == rest * (line.1 * sin) + n * (line.3 * sin))
        by (nonlinear_arith);
    assert(rest * first == rest * (line.0 * cos) + rest * (line.1 * sin)) by (nonlinear_arith)
        requires
            first == line.0 * cos + line.1 * sin,
    ;
    assert(n * second == n * (line.2 * cos) + n * (line.3 * sin)) by (nonlinear_arith)
        requires
            second == line.2 * cos + line.3 * sin,
    ;
    assert(d * here == rest * first + n * second);
    let first_error: int = 2 * (first - rho);
    let second_error: int = 2 * (second - rho);
    let error: int = 2 * (here - rho);
    let one: int = ONE as int;
    assert(-(rest * one) <= rest * first_error <= rest * one) by (nonlinear_arith)
        requires
            rest >= 0,
            -one <= first_error <= one,
    ;
    assert(-(n * one) <= n * second_error <= n * one) by (nonlinear_arith)
        requires
            n >= 0,
            -one <= second_error <= one,
    ;
    assert(d * error == rest * first_error + n * second_error && rest * one + n * one == d * one)
        by (nonlinear_arith)
        requires
            d * here == rest * first + n * second,
            rest == d - n,
            first_error == 2 * (first - rho),
            second_error == 2 * (second - rho),
            error == 2 * (here - rho),
    ;
    assert(-one <= error <= one) by (nonlinear_arith)
        requires
            d > 0,
            -(d * one) <= d * error <= d * one,
    ;
}

} // verus!
