//! An exact fixed-point decimal number.
//!
//! Prices and percentage shares are stored as a signed count of
//! ten-thousandths, so every amount this library works with is an
//! integer and every comparison is exact: summing shares to exactly
//! 100% never suffers the rounding artifacts of binary floating point.

use vstd::prelude::*;

verus! {

/// How many [`Fixed`] units make one whole: a value is a count of
/// ten-thousandths, i.e. four decimal places.
pub const FIXED_ONE: i64 = 10000;

/// One hundred percent, in [`Fixed`] units.
pub const HUNDRED_PERCENT_UNITS: i64 = 1000000;

/// A decimal number with four decimal places, stored exactly as a
/// signed integer count of ten-thousandths.
#[derive(Debug, Clone, Copy, PartialEq, Eq, Structural)]
pub struct Fixed {
    units: i64,
}

impl Fixed {
    /// The number as an integer count of ten-thousandths.
    pub closed spec fn spec_units(self) -> int {
        self.units as int
    }

    /// Builds the number `units / 10000`.
    pub fn from_units(units: i64) -> (r: Fixed)
        ensures
            r.spec_units() == units as int,
    {
        Fixed { units }
    }

    /// Builds the whole number `n`.
    pub fn from_int(n: i64) -> (r: Fixed)
        requires
            -922337203685477 <= n <= 922337203685477,
        ensures
            r.spec_units() == n * FIXED_ONE,
    {
        Fixed { units: n * FIXED_ONE }
    }

    /// The exact count of ten-thousandths this number stands for.
    pub fn units(&self) -> (r: i64)
        ensures
            r as int == self.spec_units(),
    {
        self.units
    }

    /// Whether the number is exactly zero.
    pub fn is_zero(&self) -> (r: bool)
        ensures
            r == (self.spec_units() == 0),
    {
        self.units == 0
    }
}

} // verus!
