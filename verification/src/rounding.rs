//! Exact rounding of integer quotients to the nearest integer, ties away from
//! zero, and the facts about it that the geometry relies on.

use vstd::prelude::*;
use vstd::arithmetic::div_mod::*;

verus! {

/// The quotient `num / den` rounded to the nearest integer; a quotient that
/// lies exactly between two integers goes to the one farther from zero.
pub open spec fn round_half_away(num: int, den: int) -> int
    recommends
        den > 0,
{
    if num >= 0 {
        (2 * num + den) / (2 * den)
    } else {
        -((2 * (-num) + den) / (2 * den))
    }
}

/// `v` limited to the range `lo ..= hi`.
pub open spec fn clamp(v: int, lo: int, hi: int) -> int {
    if v < lo {
        lo
    } else if v > hi {
        hi
    } else {
        v
    }
}

/// The rounded quotient is the one integer within half a unit of `num / den`:
/// `|2 * num - 2 * den * r| <= den`, with the tie resolved away from zero.
pub proof fn lemma_round_half_away_bounds(num: int, den: int)
    requires
        den > 0,
    ensures
        num >= 0 ==> 2 * den * round_half_away(num, den) <= 2 * num + den < 2 * den
            * round_half_away(num, den) + 2 * den,
        num < 0 ==> 2 * den * round_half_away(num, den) - 2 * den < 2 * num - den <= 2 * den
            * round_half_away(num, den),
        num >= 0 ==> round_half_away(num, den) >= 0,
        num <= 0 ==> round_half_away(num, den) <= 0,
{
    let a: int = if num >= 0 { num } else { -num };
    let x: int = 2 * a + den;
    let d: int = 2 * den;
    lemma_fundamental_div_mod(x, d);
    lemma_mod_bound(x, d);
    lemma_div_pos_is_pos(x, d);
    let k: int = x / d;
    assert(d * k == 2 * den * k && 2 * den * (-k) == -(2 * den * k)) by (nonlinear_arith)
        requires
            d == 2 * den,
    ;
    if num == 0 {
        assert(k == 0) by (nonlinear_arith)
            requires
                den > 0,
                k >= 0,
                2 * den * k <= den,
        ;
    }
}

/// Rounding is odd: negating the numerator negates the result.
pub proof fn lemma_round_half_away_neg(num: int, den: int)
    requires
        den > 0,
    ensures
        round_half_away(-num, den) == -round_half_away(num, den),
{
    if num == 0 {
        lemma_round_half_away_bounds(0, den);
        assert(round_half_away(0, den) == 0) by (nonlinear_arith)
            requires
                den > 0,
                2 * den * round_half_away(0, den) <= den < 2 * den * round_half_away(0, den) + 2
                    * den,
        ;
    }
}

/// The only integer `r` with `2 * den * r <= 2 * num + den < 2 * den * (r + 1)`
/// is the rounded quotient of a non-negative `num`.
pub proof fn lemma_round_half_away_unique(num: int, den: int, r: int)
    requires
        den > 0,
        num >= 0,
        2 * den * r <= 2 * num + den < 2 * den * r + 2 * den,
    ensures
        round_half_away(num, den) == r,
{
    let x: int = 2 * num + den;
    let d: int = 2 * den;
    let rem: int = x - d * r;
    assert(d * r == 2 * den * r) by (nonlinear_arith)
        requires
            d == 2 * den,
    ;
    assert(x == r * d + rem) by (nonlinear_arith)
        requires
            rem == x - d * r,
    ;
    lemma_fundamental_div_mod_converse(x, d, r, rem);
}

/// A whole multiple of the denominator rounds to the multiplier.
pub proof fn lemma_round_half_away_exact(k: int, den: int)
    requires
        den > 0,
    ensures
        round_half_away(k * den, den) == k,
{
    if k >= 0 {
        assert(k * den >= 0 && 2 * den * k == 2 * (k * den)) by (nonlinear_arith)
            requires
                k >= 0,
                den > 0,
        ;
        lemma_round_half_away_unique(k * den, den, k);
    } else {
        assert(k * den < 0 && -(k * den) == (-k) * den && 2 * den * (-k) == 2 * ((-k) * den))
            by (nonlinear_arith)
            requires
                k < 0,
                den > 0,
        ;
        lemma_round_half_away_unique((-k) * den, den, -k);
    }
}

/// Rounding keeps a quotient between the integers that bound it:
/// from `lo <= num / den <= hi` follows `lo <= round(num / den) <= hi`.
pub proof fn lemma_round_half_away_between(num: int, den: int, lo: int, hi: int)
    requires
        den > 0,
        lo * den <= num <= hi * den,
    ensures
        lo <= round_half_away(num, den) <= hi,
{
    let r: int = round_half_away(num, den);
    lemma_round_half_away_bounds(num, den);
    if num >= 0 {
        assert(r <= hi) by (nonlinear_arith)
            requires
                den > 0,
                2 * den * r <= 2 * num + den,
                num <= hi * den,
        ;
        assert(lo <= r) by (nonlinear_arith)
            requires
                den > 0,
                2 * num + den < 2 * den * r + 2 * den,
                lo * den <= num,
        ;
    } else {
        assert(r <= hi) by (nonlinear_arith)
            requires
                den > 0,
                2 * den * r - 2 * den < 2 * num - den,
                num <= hi * den,
        ;
        assert(lo <= r) by (nonlinear_arith)
            requires
                den > 0,
                2 * num - den <= 2 * den * r,
                lo * den <= num,
        ;
    }
}

/// The rounded quotient lies within half a unit of the quotient:
/// `|num - den * round(num / den)| <= den / 2`.
pub proof fn lemma_round_half_away_error(num: int, den: int)
    requires
        den > 0,
    ensures
        -den <= 2 * num - 2 * (den * round_half_away(num, den)) <= den,
{
    lemma_round_half_away_bounds(num, den);
    assert(2 * den * round_half_away(num, den) == 2 * (den * round_half_away(num, den)))
        by (nonlinear_arith);
}

/// A common factor of numerator and denominator does not change the rounded
/// quotient.
pub proof fn lemma_round_half_away_scaled(num: int, den: int, c: int)
    requires
        den > 0,
        c > 0,
    ensures
        round_half_away(c * num, c * den) == round_half_away(num, den),
{
    let size: int = if num >= 0 { num } else { -num };
    let r: int = round_half_away(size, den);
    lemma_round_half_away_bounds(size, den);
    assert(c * den > 0 && c * size >= 0 && 2 * (c * den) * r <= 2 * (c * size) + c * den < 2 * (c
        * den) * r + 2 * (c * den)) by (nonlinear_arith)
        requires
            c > 0,
            den > 0,
            size >= 0,
            2 * den * r <= 2 * size + den < 2 * den * r + 2 * den,
    ;
    lemma_round_half_away_unique(c * size, c * den, r);
    if num >= 0 {
    } else {
        assert(c * num < 0 && -(c * num) == c * size) by (nonlinear_arith)
            requires
                c > 0,
                num < 0,
                size == -num,
        ;
    }
}

/// Rounding commutes with adding a whole number: `round(k + n / den)` is
/// `k + round(n / den)`.
pub proof fn lemma_round_add_whole(k: int, n: int, den: int)
    requires
        den > 0,
        k >= 0,
        n >= 0,
    ensures
        round_half_away(k * den + n, den) == k + round_half_away(n, den),
{
    let r: int = round_half_away(n, den);
    lemma_round_half_away_bounds(n, den);
    assert(k * den + n >= 0 && 2 * den * (k + r) == 2 * (k * den) + 2 * den * r)
        by (nonlinear_arith)
        requires
            den > 0,
            k >= 0,
            n >= 0,
    ;
    lemma_round_half_away_unique(k * den + n, den, k + r);
}

/// Rounds the quotient of two unsigned integers to the nearest integer, ties
/// upward.
pub fn round_div(num: u128, den: u128) -> (r: u128)
    requires
        den > 0,
    ensures
        r == round_half_away(num as int, den as int),
{
    let q: u128 = num / den;
    let rem: u128 = num % den;
    proof {
        lemma_fundamental_div_mod(num as int, den as int);
        assert(den * q == 2 * den * q - den * q) by (nonlinear_arith);
    }
    if rem >= den - rem {
        proof {
            assert(q < u128::MAX) by (nonlinear_arith)
                requires
                    num == den * q + rem,
                    rem >= den - rem,
                    rem < den,
                    q >= 0,
                    num <= u128::MAX,
            ;
            assert(2 * den * (q + 1) == 2 * (den * q) + 2 * den) by (nonlinear_arith);
            lemma_round_half_away_unique(num as int, den as int, q + 1);
        }
        q + 1
    } else {
        proof {
            assert(2 * den * q == 2 * (den * q)) by (nonlinear_arith);
            lemma_round_half_away_unique(num as int, den as int, q as int);
        }
        q
    }
}

/// The magnitude of a signed integer.
pub fn magnitude(v: i128) -> (m: u128)
    ensures
        m == if v >= 0 { v as int } else { -(v as int) },
{
    if v >= 0 {
        v as u128
    } else if v == i128::MIN {
        0x8000_0000_0000_0000_0000_0000_0000_0000u128
    } else {
        (-v) as u128
    }
}

/// Rounds the quotient of a signed numerator and a positive denominator to
/// the nearest integer, ties away from zero.
pub fn round_div_signed(num: i128, den: i128) -> (r: i128)
    requires
        den > 0,
    ensures
        r == round_half_away(num as int, den as int),
{
    let m: u128 = round_div(magnitude(num), den as u128);
    proof {
        let a: int = if num >= 0 { num as int } else { -(num as int) };
        assert(0 * den <= a <= a * den) by (nonlinear_arith)
            requires
                a >= 0,
                den >= 1,
        ;
        lemma_round_half_away_between(a, den as int, 0, a);
    }
    if num >= 0 {
        m as i128
    } else if m == 0x8000_0000_0000_0000_0000_0000_0000_0000u128 {
        i128::MIN
    } else {
        -(m as i128)
    }
}

} // verus!
