//! Fixed-point numbers: reals held as a whole number of fractions of `2^-48`.

use vstd::prelude::*;
use crate::rounding::{round_div_signed, round_half_away};

verus! {

/// The raw value that stands for the real number one.
pub const ONE: i128 = 0x1_0000_0000_0000;

/// A real number `raw / ONE`.
#[derive(Clone, Copy, Debug, PartialEq, Eq, Structural)]
pub struct Fixed {
    pub raw: i128,
}

impl Fixed {
    /// The fixed-point number equal to the integer `v`.
    pub fn from_int(v: i64) -> (f: Fixed)
        ensures
            f.raw == v * ONE,
    {
        assert(-0x8000_0000_0000_0000 * 0x1_0000_0000_0000 <= v * 0x1_0000_0000_0000
            <= 0x8000_0000_0000_0000 * 0x1_0000_0000_0000);
        Fixed { raw: (v as i128) * ONE }
    }

    /// The nearest integer, ties away from zero.
    pub fn round(&self) -> (r: i128)
        ensures
            r == round_half_away(self.raw as int, ONE as int),
    {
        round_div_signed(self.raw, ONE)
    }
}

} // verus!
