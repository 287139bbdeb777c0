//! IEEE 754 numbers carried as bit patterns.
//!
//! The mapper compares thresholds, errors and angles but leaves the arithmetic
//! on them to its callers. A number is therefore kept as its encoding, and the
//! comparisons are defined on the encoding.

use vstd::prelude::*;

verus! {

/// A single precision number.
///
/// `==` compares encodings; `lt`, `le` and `same_value` compare numbers.
#[derive(Clone, Copy, Debug, PartialEq, Eq, Structural, Hash, Default)]
pub struct Real32 {
    pub bits: u32,
}

/// A double precision number, compared by its encoding.
#[derive(Clone, Copy, Debug, PartialEq, Eq, Structural, Hash, Default)]
pub struct Real64 {
    pub bits: u64,
}

/// The bits of the positive infinity in double precision.
pub const INFINITY64: u64 = 0x7ff0_0000_0000_0000;

impl Real64 {
    /// Above zero and finite.
    pub open spec fn positive(self) -> bool {
        0 < self.bits < INFINITY64
    }

    pub fn is_positive(&self) -> (b: bool)
        ensures
            b == self.positive(),
    {
        0 < self.bits && self.bits < INFINITY64
    }
}

impl Real32 {
    /// The encoding without its sign bit.
    pub open spec fn magnitude(self) -> int {
        if self.bits >= 0x8000_0000u32 {
            self.bits - 0x8000_0000
        } else {
            self.bits as int
        }
    }

    pub open spec fn nan(self) -> bool {
        self.magnitude() > 0x7f80_0000
    }

    pub open spec fn finite(self) -> bool {
        self.magnitude() < 0x7f80_0000
    }

    /// Position on the number line; both zeros sit at the origin.
    pub open spec fn position(self) -> int {
        if self.bits >= 0x8000_0000u32 {
            -self.magnitude()
        } else {
            self.magnitude()
        }
    }

    pub open spec fn below(self, other: Real32) -> bool {
        !self.nan() && !other.nan() && self.position() < other.position()
    }

    pub open spec fn at_most(self, other: Real32) -> bool {
        !self.nan() && !other.nan() && self.position() <= other.position()
    }

    /// Half of a number, rounded to nearest with ties to even.
    ///
    /// From twice the smallest normal number on, halving lowers the exponent.
    /// Below that the magnitude counts multiples of the smallest subnormal.
    pub open spec fn halved(self) -> int {
        let m = self.magnitude();
        let sign = self.bits - m;
        if m >= 0x7f80_0000 {
            self.bits as int
        } else if m >= 0x0100_0000 {
            sign + (m - 0x0080_0000)
        } else if m % 4 == 3 {
            sign + (m / 2 + 1)
        } else {
            sign + m / 2
        }
    }

    pub fn from_bits(bits: u32) -> (r: Real32)
        ensures
            r.bits == bits,
    {
        Real32 { bits }
    }

    fn magnitude_bits(&self) -> (m: u32)
        ensures
            m == self.magnitude(),
    {
        if self.bits >= 0x8000_0000u32 {
            self.bits - 0x8000_0000u32
        } else {
            self.bits
        }
    }

    pub fn is_nan(&self) -> (b: bool)
        ensures
            b == self.nan(),
    {
        self.magnitude_bits() > 0x7f80_0000u32
    }

    pub fn is_finite(&self) -> (b: bool)
        ensures
            b == self.finite(),
    {
        self.magnitude_bits() < 0x7f80_0000u32
    }

    pub fn lt(&self, other: &Real32) -> (b: bool)
        ensures
            b == self.below(*other),
    {
        if self.is_nan() || other.is_nan() {
            return false;
        }
        let a: i64 = self.signed_position();
        let b: i64 = other.signed_position();
        a < b
    }

    pub fn le(&self, other: &Real32) -> (b: bool)
        ensures
            b == self.at_most(*other),
    {
        if self.is_nan() || other.is_nan() {
            return false;
        }
        let a: i64 = self.signed_position();
        let b: i64 = other.signed_position();
        a <= b
    }

    /// Where the number sits on the number line.
    pub fn signed_position(&self) -> (p: i64)
        ensures
            p == self.position(),
    {
        let m: i64 = self.magnitude_bits() as i64;
        if self.bits >= 0x8000_0000u32 {
            -m
        } else {
            m
        }
    }

    /// Half of the number; not-a-number and the infinities stay as they are.
    pub fn half(&self) -> (r: Real32)
        ensures
            r.bits == self.halved(),
    {
        let m: u32 = self.magnitude_bits();
        let sign: u32 = self.bits - m;
        if m >= 0x7f80_0000u32 {
            *self
        } else if m >= 0x0100_0000u32 {
            Real32 { bits: sign + (m - 0x0080_0000u32) }
        } else if m % 4 == 3 {
            Real32 { bits: sign + (m / 2 + 1) }
        } else {
            Real32 { bits: sign + m / 2 }
        }
    }
}

} // verus!
