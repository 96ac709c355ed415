//! Sine and cosine of angles given as a whole number of steps on an axis that
//! divides the half turn, in fixed-point arithmetic.
//!
//! An angle is first folded, by the symmetries of the sine, into the first
//! eighth of a turn, where the alternating power series of sine and cosine
//! converge fast. The folding is done on whole numbers of half steps, so the
//! symmetries hold of the results exactly and not just up to rounding.

use vstd::prelude::*;
use vstd::arithmetic::div_mod::{
    lemma_fundamental_div_mod, lemma_fundamental_div_mod_converse, lemma_mod_bound,
    lemma_truncate_middle,
};
use crate::fixed::ONE;
use crate::rounding::{
    lemma_round_half_away_between, lemma_round_half_away_scaled, round_div, round_half_away,
};

verus! {

/// The half turn, `pi`, as a raw fixed-point value.
pub const PI_RAW: i128 = 884279719003555;

/// The angle of `steps` steps on an axis that divides the half turn into
/// `half_turn` steps, in radians, as a raw fixed-point value:
/// `steps * pi / half_turn`.
pub open spec fn radians_raw(steps: int, half_turn: int) -> int {
    round_half_away(steps * PI_RAW, half_turn)
}

/// One factor `1 - x2 * inner / divisor` of a nested alternating series, all
/// values raw.
pub open spec fn series_factor(x2: int, inner: int, divisor: int) -> int {
    ONE - (x2 * inner / (ONE as int)) / divisor
}

/// The sine of the angle `x` in `0 ..= 1` radians: the series
/// `x - x^3/3! + x^5/5! - ...` through the term of degree 17, nested as
/// `x * (1 - x^2/(2*3) * (1 - x^2/(4*5) * (1 - ...)))`.
pub open spec fn sine_series(x: int) -> int {
    let x2 = x * x / (ONE as int);
    let f8 = series_factor(x2, ONE as int, 272);
    let f7 = series_factor(x2, f8, 210);
    let f6 = series_factor(x2, f7, 156);
    let f5 = series_factor(x2, f6, 110);
    let f4 = series_factor(x2, f5, 72);
    let f3 = series_factor(x2, f4, 42);
    let f2 = series_factor(x2, f3, 20);
    let f1 = series_factor(x2, f2, 6);
    x * f1 / (ONE as int)
}

/// The cosine of the angle `x` in `0 ..= 1` radians: the series
/// `1 - x^2/2! + x^4/4! - ...` through the term of degree 16, nested as
/// `1 - x^2/(1*2) * (1 - x^2/(3*4) * (1 - ...))`.
pub open spec fn cosine_series(x: int) -> int {
    let x2 = x * x / (ONE as int);
    let f8 = series_factor(x2, ONE as int, 240);
    let f7 = series_factor(x2, f8, 182);
    let f6 = series_factor(x2, f7, 132);
    let f5 = series_factor(x2, f6, 90);
    let f4 = series_factor(x2, f5, 56);
    let f3 = series_factor(x2, f4, 30);
    let f2 = series_factor(x2, f3, 12);
    series_factor(x2, f2, 2)
}

/// The sine of `k` half steps, `0 <= k <= quarter`, where `quarter` half
/// steps make a quarter turn. Up to an eighth of a turn it is the sine series
/// of the angle, beyond that the cosine series of what is missing to the
/// quarter turn.
pub open spec fn quarter_sine(k: int, quarter: int) -> int {
    if 2 * k <= quarter {
        sine_series(radians_raw(k, 2 * quarter))
    } else {
        cosine_series(radians_raw(quarter - k, 2 * quarter))
    }
}

/// The sine of `h` half steps, for any `h >= 0`: `h` is reduced to one full
/// turn of `4 * quarter` half steps and folded into the first quarter.
#[verifier::opaque]
pub open spec fn sine_at(h: int, quarter: int) -> int {
    let r = h % (4 * quarter);
    if r < quarter {
        quarter_sine(r, quarter)
    } else if r < 2 * quarter {
        quarter_sine(2 * quarter - r, quarter)
    } else if r < 3 * quarter {
        -quarter_sine(r - 2 * quarter, quarter)
    } else {
        -quarter_sine(4 * quarter - r, quarter)
    }
}

/// The sine of the angle `theta * pi / axis_size`, as a raw fixed-point value.
pub open spec fn sin_raw(theta: int, axis_size: int) -> int {
    sine_at(2 * theta, axis_size)
}

/// The cosine of the angle `theta * pi / axis_size`, as a raw fixed-point
/// value: the sine a quarter turn further on.
pub open spec fn cos_raw(theta: int, axis_size: int) -> int {
    sine_at(2 * theta + axis_size, axis_size)
}

/// The product of two raw values of the unit range, scaled back: it lies in
/// the unit range again.
proof fn lemma_unit_product(a: int, b: int)
    requires
        0 <= a <= ONE,
        0 <= b <= ONE,
    ensures
        0 <= a * b <= ONE * ONE,
        0 <= a * b / (ONE as int) <= ONE,
        a * b / (ONE as int) <= a,
{
    assert(0 <= a * b <= a * 0x1_0000_0000_0000 && a * 0x1_0000_0000_0000 <= 0x1_0000_0000_0000
        * 0x1_0000_0000_0000) by (nonlinear_arith)
        requires
            0 <= a <= 0x1_0000_0000_0000,
            0 <= b <= 0x1_0000_0000_0000,
    ;
    lemma_fundamental_div_mod(a * b, ONE as int);
    lemma_mod_bound(a * b, ONE as int);
}

/// A factor of the series lies between `1 - 1/divisor` and 1.
proof fn lemma_series_factor_range(x2: int, inner: int, divisor: int)
    requires
        0 <= x2 <= ONE,
        0 <= inner <= ONE,
        divisor >= 2,
    ensures
        ONE / 2 <= ONE - (ONE as int) / divisor <= series_factor(x2, inner, divisor) <= ONE,
{
    lemma_unit_product(x2, inner);
    let scaled: int = x2 * inner / (ONE as int);
    assert(0 <= scaled / divisor <= (ONE as int) / divisor <= (ONE as int) / 2) by (nonlinear_arith)
        requires
            0 <= scaled <= ONE,
            divisor >= 2,
    ;
}

/// The sine series of an angle of the unit range lies between zero and the
/// angle, and is positive from two raw units on.
pub proof fn lemma_sine_series_range(x: int)
    requires
        0 <= x <= ONE,
    ensures
        0 <= sine_series(x) <= x,
        x >= 2 ==> sine_series(x) > 0,
{
    lemma_unit_product(x, x);
    let x2: int = x * x / (ONE as int);
    let f8: int = series_factor(x2, ONE as int, 272);
    lemma_series_factor_range(x2, ONE as int, 272);
    let f7: int = series_factor(x2, f8, 210);
    lemma_series_factor_range(x2, f8, 210);
    let f6: int = series_factor(x2, f7, 156);
    lemma_series_factor_range(x2, f7, 156);
    let f5: int = series_factor(x2, f6, 110);
    lemma_series_factor_range(x2, f6, 110);
    let f4: int = series_factor(x2, f5, 72);
    lemma_series_factor_range(x2, f5, 72);
    let f3: int = series_factor(x2, f4, 42);
    lemma_series_factor_range(x2, f4, 42);
    let f2: int = series_factor(x2, f3, 20);
    lemma_series_factor_range(x2, f3, 20);
    let f1: int = series_factor(x2, f2, 6);
    lemma_series_factor_range(x2, f2, 6);
    lemma_unit_product(x, f1);
    if x >= 2 {
        assert(x * f1 >= ONE) by (nonlinear_arith)
            requires
                x >= 2,
                f1 >= ONE / 2,
                ONE / 2 == 0x8000_0000_0000,
                ONE == 0x1_0000_0000_0000,
        ;
        lemma_fundamental_div_mod(x * f1, ONE as int);
        lemma_mod_bound(x * f1, ONE as int);
        assert(x * f1 / (ONE as int) >= 1) by (nonlinear_arith)
            requires
                x * f1 >= ONE,
                x * f1 == ONE * (x * f1 / (ONE as int)) + x * f1 % (ONE as int),
                0 <= x * f1 % (ONE as int) < ONE,
                ONE == 0x1_0000_0000_0000,
        ;
    }
}

/// The cosine series of an angle of the unit range lies between a half and
/// one, and is one at the angle zero.
pub proof fn lemma_cosine_series_range(x: int)
    requires
        0 <= x <= ONE,
    ensures
        ONE / 2 <= cosine_series(x) <= ONE,
        x == 0 ==> cosine_series(x) == ONE,
{
    lemma_unit_product(x, x);
    let x2: int = x * x / (ONE as int);
    let f8: int = series_factor(x2, ONE as int, 240);
    lemma_series_factor_range(x2, ONE as int, 240);
    let f7: int = series_factor(x2, f8, 182);
    lemma_series_factor_range(x2, f8, 182);
    let f6: int = series_factor(x2, f7, 132);
    lemma_series_factor_range(x2, f7, 132);
    let f5: int = series_factor(x2, f6, 90);
    lemma_series_factor_range(x2, f6, 90);
    let f4: int = series_factor(x2, f5, 56);
    lemma_series_factor_range(x2, f5, 56);
    let f3: int = series_factor(x2, f4, 30);
    lemma_series_factor_range(x2, f4, 30);
    let f2: int = series_factor(x2, f3, 12);
    lemma_series_factor_range(x2, f3, 12);
    lemma_series_factor_range(x2, f2, 2);
    if x == 0 {
        assert(x2 == 0);
        assert(x2 * f2 == 0) by (nonlinear_arith)
            requires
                x2 == 0,
        ;
    }
}

/// An angle of up to an eighth of a turn is less than one radian: its raw
/// value lies in the unit range.
pub proof fn lemma_radians_of_eighth(k: int, quarter: int)
    requires
        quarter > 0,
        0 <= k,
        2 * k <= quarter,
    ensures
        0 <= radians_raw(k, 2 * quarter) <= PI_RAW / 4 + 1 <= ONE,
        k == 0 ==> radians_raw(k, 2 * quarter) == 0,
        k >= 1 && quarter <= 0x1_0000_0000 ==> radians_raw(k, 2 * quarter) >= 2,
{
    let top: int = PI_RAW / 4 + 1;
    assert(PI_RAW == 884279719003555 && top == 221069929750889);
    assert(k * PI_RAW == k * 884279719003555);
    assert(0 * (2 * quarter) <= k * PI_RAW <= top * (2 * quarter));
    lemma_round_half_away_between(k * PI_RAW, 2 * quarter, 0, top);
    if k == 0 {
        lemma_round_half_away_between(k * PI_RAW, 2 * quarter, 0, 0);
    }
    if k >= 1 && quarter <= 0x1_0000_0000 {
        assert(2 * (2 * quarter) <= k * PI_RAW);
        lemma_round_half_away_between(k * PI_RAW, 2 * quarter, 2, top);
    }
}

/// The sine of an angle of the first quarter turn lies between zero and one;
/// it is zero at the angle zero, one at the quarter turn, and positive in
/// between on every axis of up to `2^32` half steps to the quarter turn.
pub proof fn lemma_quarter_sine_range(k: int, quarter: int)
    requires
        quarter > 0,
        0 <= k <= quarter,
    ensures
        0 <= quarter_sine(k, quarter) <= ONE,
        k == 0 ==> quarter_sine(k, quarter) == 0,
        k == quarter ==> quarter_sine(k, quarter) == ONE,
        k >= 1 && quarter <= 0x1_0000_0000 ==> quarter_sine(k, quarter) > 0,
{
    if 2 * k <= quarter {
        lemma_radians_of_eighth(k, quarter);
        lemma_sine_series_range(radians_raw(k, 2 * quarter));
    } else {
        lemma_radians_of_eighth(quarter - k, quarter);
        lemma_cosine_series_range(radians_raw(quarter - k, 2 * quarter));
    }
}

/// Sine and cosine never leave the range from minus one to one.
pub proof fn lemma_sine_at_range(h: int, quarter: int)
    requires
        quarter > 0,
        h >= 0,
    ensures
        -ONE <= sine_at(h, quarter) <= ONE,
        h % (4 * quarter) < 2 * quarter ==> sine_at(h, quarter) >= 0,
{
    reveal(sine_at);
    let r: int = h % (4 * quarter);
    lemma_mod_bound(h, 4 * quarter);
    if r < quarter {
        lemma_quarter_sine_range(r, quarter);
    } else if r < 2 * quarter {
        lemma_quarter_sine_range(2 * quarter - r, quarter);
    } else if r < 3 * quarter {
        lemma_quarter_sine_range(r - 2 * quarter, quarter);
    } else {
        lemma_quarter_sine_range(4 * quarter - r, quarter);
    }
}

/// Half a turn further on the sine has the opposite sign, and a full turn
/// further on it is the same again.
pub proof fn lemma_sine_at_half_turn(h: int, quarter: int)
    requires
        quarter > 0,
        h >= 0,
    ensures
        sine_at(h + 2 * quarter, quarter) == -sine_at(h, quarter),
        sine_at(h + 4 * quarter, quarter) == sine_at(h, quarter),
{
    reveal(sine_at);
    let turn: int = 4 * quarter;
    let r: int = h % turn;
    let d: int = h / turn;
    lemma_fundamental_div_mod(h, turn);
    lemma_mod_bound(h, turn);
    if r < 2 * quarter {
        assert(h + 2 * quarter == d * turn + (r + 2 * quarter)) by (nonlinear_arith)
            requires
                h == turn * d + r,
        ;
        lemma_fundamental_div_mod_converse(h + 2 * quarter, turn, d, r + 2 * quarter);
    } else {
        assert(h + 2 * quarter == (d + 1) * turn + (r - 2 * quarter)) by (nonlinear_arith)
            requires
                h == turn * d + r,
                turn == 4 * quarter,
        ;
        lemma_fundamental_div_mod_converse(h + 2 * quarter, turn, d + 1, r - 2 * quarter);
    }
    assert(h + 4 * quarter == (d + 1) * turn + r) by (nonlinear_arith)
        requires
            h == turn * d + r,
            turn == 4 * quarter,
    ;
    lemma_fundamental_div_mod_converse(h + 4 * quarter, turn, d + 1, r);
}

/// Half a turn further on sine and cosine have the opposite sign, and a full
/// turn further on they are the same again.
pub proof fn lemma_half_turn(theta: int, axis_size: int)
    requires
        theta >= 0,
        axis_size > 0,
    ensures
        sin_raw(theta + axis_size, axis_size) == -sin_raw(theta, axis_size),
        cos_raw(theta + axis_size, axis_size) == -cos_raw(theta, axis_size),
        sin_raw(theta + 2 * axis_size, axis_size) == sin_raw(theta, axis_size),
        cos_raw(theta + 2 * axis_size, axis_size) == cos_raw(theta, axis_size),
{
    lemma_sine_at_half_turn(2 * theta, axis_size);
    lemma_sine_at_half_turn(2 * theta + axis_size, axis_size);
    assert(2 * (theta + axis_size) == 2 * theta + 2 * axis_size);
    assert(2 * (theta + axis_size) + axis_size == (2 * theta + axis_size) + 2 * axis_size);
    assert(2 * (theta + 2 * axis_size) == 2 * theta + 4 * axis_size);
    assert(2 * (theta + 2 * axis_size) + axis_size == (2 * theta + axis_size) + 4 * axis_size);
}

/// Strictly between zero and half a turn the sine is positive, on every axis
/// of up to `2^32` steps.
pub proof fn lemma_sine_positive(theta: int, axis_size: int)
    requires
        0 < theta < axis_size <= 0x1_0000_0000,
    ensures
        0 < sin_raw(theta, axis_size) <= ONE,
{
    reveal(sine_at);
    let turn: int = 4 * axis_size;
    lemma_fundamental_div_mod_converse(2 * theta, turn, 0, 2 * theta);
    if 2 * theta < axis_size {
        lemma_quarter_sine_range(2 * theta, axis_size);
    } else {
        lemma_quarter_sine_range(2 * axis_size - 2 * theta, axis_size);
    }
}

/// The cosine of an angle is the sine of what is missing to the quarter
/// turn: on an axis of an even number of steps, `cos(theta)` is
/// `sin(axis_size / 2 - theta)`.
pub proof fn lemma_cosine_is_sine_of_complement(theta: int, half_axis: int)
    requires
        0 <= theta <= half_axis,
        half_axis > 0,
    ensures
        cos_raw(theta, 2 * half_axis) == sin_raw(half_axis - theta, 2 * half_axis),
{
    reveal(sine_at);
    let quarter: int = 2 * half_axis;
    let turn: int = 4 * quarter;
    lemma_fundamental_div_mod_converse(2 * theta + quarter, turn, 0, 2 * theta + quarter);
    lemma_fundamental_div_mod_converse(2 * (half_axis - theta), turn, 0, 2 * (half_axis - theta));
    if theta == half_axis {
        lemma_quarter_sine_range(0, quarter);
    }
}

/// The values along the axes, exactly: sine and cosine of the angle zero, of
/// the quarter turn (`steps` steps on an axis of `2 * steps`) and of half a
/// turn (`steps` steps on an axis of `steps`).
pub proof fn lemma_values_along_the_axes(steps: int)
    requires
        steps > 0,
    ensures
        sin_raw(0, steps) == 0,
        cos_raw(0, steps) == ONE,
        sin_raw(steps, 2 * steps) == ONE,
        cos_raw(steps, 2 * steps) == 0,
        sin_raw(steps, steps) == 0,
        cos_raw(steps, steps) == -ONE,
{
    reveal(sine_at);
    let a: int = steps;
    lemma_quarter_sine_range(0, a);
    lemma_quarter_sine_range(a, a);
    lemma_quarter_sine_range(0, 2 * a);
    lemma_quarter_sine_range(2 * a, 2 * a);
    lemma_fundamental_div_mod_converse(0, 4 * a, 0, 0);
    lemma_fundamental_div_mod_converse(a, 4 * a, 0, a);
    lemma_fundamental_div_mod_converse(2 * a, 4 * a, 0, 2 * a);
    lemma_fundamental_div_mod_converse(3 * a, 4 * a, 0, 3 * a);
    lemma_fundamental_div_mod_converse(2 * a, 8 * a, 0, 2 * a);
    lemma_fundamental_div_mod_converse(4 * a, 8 * a, 0, 4 * a);
}

/// A quarter turn further on the sine is the cosine and the cosine is the
/// sine with the opposite sign, on an axis of an even number of steps.
pub proof fn lemma_quarter_turn(theta: int, half_axis: int)
    requires
        theta >= 0,
        half_axis > 0,
    ensures
        sin_raw(theta + half_axis, 2 * half_axis) == cos_raw(theta, 2 * half_axis),
        cos_raw(theta + half_axis, 2 * half_axis) == -sin_raw(theta, 2 * half_axis),
{
    lemma_sine_at_half_turn(2 * theta, 2 * half_axis);
    assert(2 * (theta + half_axis) == 2 * theta + 2 * half_axis);
    assert(2 * (theta + half_axis) + 2 * half_axis == 2 * theta + 2 * (2 * half_axis));
}

/// On an axis `c` times as fine, `c` times as many half steps of the first
/// quarter turn have the same sine.
proof fn lemma_quarter_sine_scaled(k: int, quarter: int, c: int)
    requires
        quarter > 0,
        c > 0,
    ensures
        quarter_sine(c * k, c * quarter) == quarter_sine(k, quarter),
{
    assert((2 * (c * k) <= c * quarter) <==> (2 * k <= quarter)) by (nonlinear_arith)
        requires
            c > 0,
    ;
    assert(2 * (c * quarter) == c * (2 * quarter) && (c * k) * PI_RAW == c * (k * PI_RAW) && (c
        * quarter - c * k) * PI_RAW == c * ((quarter - k) * PI_RAW) && c * quarter - c * k == c * (
    quarter - k)) by (nonlinear_arith);
    lemma_round_half_away_scaled(k * PI_RAW, 2 * quarter, c);
    lemma_round_half_away_scaled((quarter - k) * PI_RAW, 2 * quarter, c);
}

/// On an axis `c` times as fine, `c` times as many steps stand for the same
/// angle, and sine and cosine are the same.
pub proof fn lemma_finer_axis(theta: int, axis_size: int, c: int)
    requires
        theta >= 0,
        axis_size > 0,
        c > 0,
    ensures
        sin_raw(c * theta, c * axis_size) == sin_raw(theta, axis_size),
        cos_raw(c * theta, c * axis_size) == cos_raw(theta, axis_size),
{
    lemma_sine_at_scaled(2 * theta, axis_size, c);
    lemma_sine_at_scaled(2 * theta + axis_size, axis_size, c);
    assert(2 * (c * theta) == c * (2 * theta) && 2 * (c * theta) + c * axis_size == c * (2 * theta
        + axis_size)) by (nonlinear_arith);
}

/// On an axis `c` times as fine, `c` times as many half steps have the same
/// sine.
proof fn lemma_sine_at_scaled(h: int, quarter: int, c: int)
    requires
        h >= 0,
        quarter > 0,
        c > 0,
    ensures
        sine_at(c * h, c * quarter) == sine_at(h, quarter),
{
    reveal(sine_at);
    let r: int = h % (4 * quarter);
    lemma_mod_bound(h, 4 * quarter);
    lemma_truncate_middle(h, c, 4 * quarter);
    assert(c * (4 * quarter) == 4 * (c * quarter) && c * (2 * quarter - r) == 2 * (c * quarter)
        - c * r && c * (r - 2 * quarter) == c * r - 2 * (c * quarter) && c * (4 * quarter - r)
        == 4 * (c * quarter) - c * r) by (nonlinear_arith);
    assert(((c * r < c * quarter) <==> (r < quarter)) && ((c * r < 2 * (c * quarter)) <==> (r < 2
        * quarter)) && ((c * r < 3 * (c * quarter)) <==> (r < 3 * quarter))) by (nonlinear_arith)
        requires
            c > 0,
    ;
    lemma_quarter_sine_scaled(r, quarter, c);
    lemma_quarter_sine_scaled(2 * quarter - r, quarter, c);
    lemma_quarter_sine_scaled(r - 2 * quarter, quarter, c);
    lemma_quarter_sine_scaled(4 * quarter - r, quarter, c);
}

/// One factor of a nested alternating series.
fn factor(x2: u64, inner: u64, divisor: u64) -> (f: u64)
    requires
        x2 <= ONE,
        inner <= ONE,
        divisor >= 2,
    ensures
        f == series_factor(x2 as int, inner as int, divisor as int),
        f <= ONE,
{
    proof {
        lemma_unit_product(x2 as int, inner as int);
        lemma_series_factor_range(x2 as int, inner as int, divisor as int);
    }
    let scaled: u128 = (x2 as u128) * (inner as u128) / (ONE as u128);
    (ONE as u64) - (scaled / (divisor as u128)) as u64
}

/// The sine series of a raw angle of the unit range.
fn sine_series_of(x: u64) -> (s: u64)
    requires
        x <= ONE,
    ensures
        s == sine_series(x as int),
        s <= ONE,
{
    proof {
        lemma_unit_product(x as int, x as int);
        lemma_sine_series_range(x as int);
    }
    let x2: u64 = ((x as u128) * (x as u128) / (ONE as u128)) as u64;
    let f8: u64 = factor(x2, ONE as u64, 272);
    let f7: u64 = factor(x2, f8, 210);
    let f6: u64 = factor(x2, f7, 156);
    let f5: u64 = factor(x2, f6, 110);
    let f4: u64 = factor(x2, f5, 72);
    let f3: u64 = factor(x2, f4, 42);
    let f2: u64 = factor(x2, f3, 20);
    let f1: u64 = factor(x2, f2, 6);
    proof {
        lemma_unit_product(x as int, f1 as int);
    }
    ((x as u128) * (f1 as u128) / (ONE as u128)) as u64
}

/// The cosine series of a raw angle of the unit range.
fn cosine_series_of(x: u64) -> (c: u64)
    requires
        x <= ONE,
    ensures
        c == cosine_series(x as int),
        c <= ONE,
{
    proof {
        lemma_unit_product(x as int, x as int);
    }
    let x2: u64 = ((x as u128) * (x as u128) / (ONE as u128)) as u64;
    let f8: u64 = factor(x2, ONE as u64, 240);
    let f7: u64 = factor(x2, f8, 182);
    let f6: u64 = factor(x2, f7, 132);
    let f5: u64 = factor(x2, f6, 90);
    let f4: u64 = factor(x2, f5, 56);
    let f3: u64 = factor(x2, f4, 30);
    let f2: u64 = factor(x2, f3, 12);
    factor(x2, f2, 2)
}

/// The sine of `k` half steps of the first quarter turn.
fn quarter_sine_of(k: u64, quarter: u64) -> (s: i64)
    requires
        0 < quarter <= 0x1_0000_0000,
        k <= quarter,
    ensures
        s == quarter_sine(k as int, quarter as int),
        0 <= s <= ONE,
{
    proof {
        lemma_quarter_sine_range(k as int, quarter as int);
    }
    if 2 * k <= quarter {
        proof {
            lemma_radians_of_eighth(k as int, quarter as int);
        }
        let x: u128 = round_div((k as u128) * (PI_RAW as u128), 2 * (quarter as u128));
        sine_series_of(x as u64) as i64
    } else {
        proof {
            lemma_radians_of_eighth(quarter - k, quarter as int);
        }
        let x: u128 = round_div(((quarter - k) as u128) * (PI_RAW as u128), 2 * (quarter as u128));
        cosine_series_of(x as u64) as i64
    }
}

/// The sine of `h` half steps.
fn sine_of_half_steps(h: u64, quarter: u64) -> (s: i64)
    requires
        0 < quarter <= 0x1_0000_0000,
    ensures
        s == sine_at(h as int, quarter as int),
        -ONE <= s <= ONE,
{
    reveal(sine_at);
    let r: u64 = h % (4 * quarter);
    if r < quarter {
        quarter_sine_of(r, quarter)
    } else if r < 2 * quarter {
        quarter_sine_of(2 * quarter - r, quarter)
    } else if r < 3 * quarter {
        -quarter_sine_of(r - 2 * quarter, quarter)
    } else {
        -quarter_sine_of(4 * quarter - r, quarter)
    }
}

/// The sine of the angle `theta * pi / axis_size`, as a raw fixed-point value.
pub fn sine(theta: u32, axis_size: u32) -> (s: i64)
    requires
        axis_size > 0,
    ensures
        s == sin_raw(theta as int, axis_size as int),
        -ONE <= s <= ONE,
{
    sine_of_half_steps(2 * (theta as u64), axis_size as u64)
}

/// The cosine of the angle `theta * pi / axis_size`, as a raw fixed-point
/// value.
pub fn cosine(theta: u32, axis_size: u32) -> (c: i64)
    requires
        axis_size > 0,
    ensures
        c == cos_raw(theta as int, axis_size as int),
        -ONE <= c <= ONE,
{
    sine_of_half_steps(2 * (theta as u64) + axis_size as u64, axis_size as u64)
}

} // verus!
