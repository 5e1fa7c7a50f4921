//! The smoothing factor of the latency average, carried as an IEEE 754 binary64 bit pattern.

use vstd::prelude::*;

use crate::config::DEFAULT_LATENCY_SMOOTHING_FACTOR;

verus! {

/// The sign bit of a binary64 number.
pub const SIGN_BIT: u64 = 0x8000_0000_0000_0000;

/// The bit pattern of positive infinity; larger magnitudes are not numbers.
pub const INFINITY_BITS: u64 = 0x7ff0_0000_0000_0000;

/// The bit pattern of one.
pub const ONE_BITS: u64 = 0x3ff0_0000_0000_0000;

/// A binary64 number by its bit pattern.
#[derive(Clone, Copy, Debug, PartialEq, Eq, Structural)]
pub struct SmoothingFactor {
    pub bits: u64,
}

impl SmoothingFactor {
    /// The bit pattern without its sign. Among numbers of one sign it grows with the distance
    /// from zero.
    pub open spec fn magnitude(self) -> int {
        self.bits as int % SIGN_BIT as int
    }

    /// The sign bit is set.
    pub open spec fn is_negative(self) -> bool {
        self.bits >= SIGN_BIT
    }

    /// The pattern stands for no number.
    pub open spec fn is_nan(self) -> bool {
        self.magnitude() > INFINITY_BITS
    }

    /// The number lies between zero and one, both included.
    pub open spec fn in_unit_range(self) -> bool {
        self.magnitude() == 0 || (!self.is_negative() && self.magnitude() <= ONE_BITS)
    }

    /// The number nearest to this one between zero and one; the default factor for what is not a
    /// number.
    pub open spec fn unit_clamped(self) -> SmoothingFactor {
        if self.is_nan() {
            SmoothingFactor { bits: DEFAULT_LATENCY_SMOOTHING_FACTOR }
        } else if self.in_unit_range() {
            self
        } else if self.is_negative() {
            SmoothingFactor { bits: 0 }
        } else {
            SmoothingFactor { bits: ONE_BITS }
        }
    }

    /// The number nearest to this one between zero and one; the default factor for what is not a
    /// number.
    pub fn clamp_to_unit(self) -> (r: SmoothingFactor)
        ensures
            r == self.unit_clamped(),
    {
        let magnitude: u64 = self.bits % SIGN_BIT;
        let negative: bool = self.bits >= SIGN_BIT;
        if magnitude > INFINITY_BITS {
            SmoothingFactor { bits: DEFAULT_LATENCY_SMOOTHING_FACTOR }
        } else if magnitude == 0 || (!negative && magnitude <= ONE_BITS) {
            self
        } else if negative {
            SmoothingFactor { bits: 0 }
        } else {
            SmoothingFactor { bits: ONE_BITS }
        }
    }
}

/// A clamped smoothing factor lies between zero and one, a factor that lies there is kept, and
/// clamping again changes nothing.
pub proof fn law_clamped_factor_in_unit_range(factor: SmoothingFactor)
    ensures
        factor.unit_clamped().in_unit_range(),
        factor.in_unit_range() ==> factor.unit_clamped() == factor,
        factor.unit_clamped().unit_clamped() == factor.unit_clamped(),
{
}

} // verus!
