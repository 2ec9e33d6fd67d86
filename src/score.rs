//! Scores as IEEE-754 binary64 bit patterns, with the ordering that the
//! floating-point comparisons `<` and `<=` give them.
use vstd::prelude::*;

verus! {

/// Bit of the sign of a binary64 pattern.
pub const SIGN_BIT: u64 = 0x8000_0000_0000_0000;

/// Pattern of positive infinity: every larger magnitude is not a number.
pub const INFINITY_BITS: u64 = 0x7FF0_0000_0000_0000;

/// A score, held as the bit pattern of a binary64 value.
#[derive(Clone, Copy, Debug, PartialEq, Eq, Structural)]
pub struct Score {
    pub bits: u64,
}

/// The pattern without its sign bit.
pub open spec fn magnitude_of(bits: u64) -> int {
    (bits % SIGN_BIT) as int
}

/// Whether the pattern is a NaN: all exponent bits set and a nonzero fraction.
pub open spec fn nan_bits(bits: u64) -> bool {
    magnitude_of(bits) > INFINITY_BITS
}

/// Position of a non-NaN pattern on the real line, up to order: both zeros
/// meet at 0, and a larger magnitude lies farther from it.
pub open spec fn key_of(bits: u64) -> int {
    if bits >= SIGN_BIT {
        -magnitude_of(bits)
    } else {
        magnitude_of(bits)
    }
}

impl Score {
    pub open spec fn is_nan_spec(self) -> bool {
        nan_bits(self.bits)
    }

    pub open spec fn key(self) -> int {
        key_of(self.bits)
    }

    /// `a < b` on the values: false whenever either is NaN.
    pub open spec fn lt_spec(self, other: Score) -> bool {
        !self.is_nan_spec() && !other.is_nan_spec() && self.key() < other.key()
    }

    /// `a <= b` on the values: false whenever either is NaN.
    pub open spec fn le_spec(self, other: Score) -> bool {
        !self.is_nan_spec() && !other.is_nan_spec() && self.key() <= other.key()
    }

    pub fn is_nan(&self) -> (r: bool)
        ensures
            r == self.is_nan_spec(),
    {
        self.bits % SIGN_BIT > INFINITY_BITS
    }

    /// The ordering key of the value, as a machine integer.
    pub fn key_exec(&self) -> (r: i64)
        ensures
            r as int == self.key(),
    {
        let m: u64 = self.bits % SIGN_BIT;
        if self.bits >= SIGN_BIT {
            -(m as i64)
        } else {
            m as i64
        }
    }

    pub fn lt(&self, other: &Score) -> (r: bool)
        ensures
            r == self.lt_spec(*other),
    {
        !self.is_nan() && !other.is_nan() && self.key_exec() < other.key_exec()
    }

    pub fn le(&self, other: &Score) -> (r: bool)
        ensures
            r == self.le_spec(*other),
    {
        !self.is_nan() && !other.is_nan() && self.key_exec() <= other.key_exec()
    }
}

} // verus!
