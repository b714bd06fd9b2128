//! Single-precision numbers held by their bit pattern.
use vstd::prelude::*;

verus! {

/// Bit pattern that holds only the sign bit.
pub const SIGN_BIT: u32 = 0x8000_0000;

/// Bit pattern of positive infinity: every exponent bit set, no fraction bit.
pub const INFINITY_BITS: u32 = 0x7f80_0000;

/// Bit pattern of the number minus one.
pub const MINUS_ONE_BITS: u32 = 0xbf80_0000;

/// An IEEE-754 binary32 number, stored as the 32 bits that encode it.
///
/// Two scalars are equal when their bits are equal, so `0.0` and `-0.0`
/// differ and a NaN equals itself.
#[derive(Clone, Copy, Debug, PartialEq, Eq, Structural)]
pub struct Scalar {
    pub bits: u32,
}

impl Scalar {
    /// The sign field: 1 when the sign bit is set.
    pub open spec fn sign_field(self) -> int {
        self.bits as int / 0x8000_0000
    }

    /// The biased exponent field, between 0 and 255.
    pub open spec fn exponent_field(self) -> int {
        (self.bits as int / 0x0080_0000) % 256
    }

    /// The fraction field, below 2^23.
    pub open spec fn fraction_field(self) -> int {
        self.bits as int % 0x0080_0000
    }

    /// Not a number: the exponent is all ones and the fraction is not zero.
    pub open spec fn is_nan(self) -> bool {
        self.exponent_field() == 255 && self.fraction_field() != 0
    }

    /// Positive or negative zero.
    pub open spec fn is_zero(self) -> bool {
        self.exponent_field() == 0 && self.fraction_field() == 0
    }

    /// A number strictly below zero (negative infinity included).
    pub open spec fn is_negative(self) -> bool {
        self.sign_field() == 1 && !self.is_nan() && !self.is_zero()
    }

    /// A number that is zero or above (positive infinity included).
    pub open spec fn is_non_negative(self) -> bool {
        !self.is_nan() && !self.is_negative()
    }

    /// Exactly the number minus one: sign set, unbiased exponent zero, no
    /// fraction.
    pub open spec fn is_minus_one(self) -> bool {
        self.sign_field() == 1 && self.exponent_field() == 127 && self.fraction_field() == 0
    }

    /// Positive zero.
    pub open spec fn zero_spec() -> Scalar {
        Scalar { bits: 0 }
    }

    /// The value itself when it is zero or above, positive zero otherwise.
    pub open spec fn clamped(self) -> Scalar {
        if self.is_non_negative() {
            self
        } else {
            Scalar::zero_spec()
        }
    }

    /// The value itself unless it is a NaN, positive zero otherwise.
    pub open spec fn settled(self) -> Scalar {
        if self.is_nan() {
            Scalar::zero_spec()
        } else {
            self
        }
    }

    /// Wraps a bit pattern.
    pub fn from_bits(bits: u32) -> (r: Scalar)
        ensures
            r.bits == bits,
    {
        Scalar { bits }
    }

    /// The bit pattern.
    pub fn to_bits(&self) -> (r: u32)
        ensures
            r == self.bits,
    {
        self.bits
    }

    /// Positive zero.
    #[verifier::when_used_as_spec(zero_spec)]
    pub fn zero() -> (r: Scalar)
        ensures
            r == Scalar::zero_spec(),
            r.is_zero(),
            r.is_non_negative(),
    {
        Scalar { bits: 0 }
    }

    /// Tests for NaN.
    pub fn check_nan(&self) -> (r: bool)
        ensures
            r == self.is_nan(),
    {
        let magnitude: u32 = if self.bits >= SIGN_BIT {
            self.bits - SIGN_BIT
        } else {
            self.bits
        };
        magnitude > INFINITY_BITS
    }

    /// Tests for a number strictly below zero.
    pub fn check_negative(&self) -> (r: bool)
        ensures
            r == self.is_negative(),
    {
        self.bits > SIGN_BIT && self.bits - SIGN_BIT <= INFINITY_BITS
    }

    /// Tests for a number that is zero or above.
    pub fn check_non_negative(&self) -> (r: bool)
        ensures
            r == self.is_non_negative(),
    {
        self.bits <= INFINITY_BITS || self.bits == SIGN_BIT
    }

    /// Tests for the number minus one.
    pub fn check_minus_one(&self) -> (r: bool)
        ensures
            r == self.is_minus_one(),
    {
        self.bits == MINUS_ONE_BITS
    }

    /// Replaces a NaN or a number below zero by positive zero.
    pub fn clamp_non_negative(&self) -> (r: Scalar)
        ensures
            r == self.clamped(),
            r.is_non_negative(),
    {
        if self.check_non_negative() {
            *self
        } else {
            Scalar::zero()
        }
    }

    /// Replaces a NaN by positive zero.
    pub fn settle(&self) -> (r: Scalar)
        ensures
            r == self.settled(),
            !r.is_nan(),
    {
        if self.check_nan() {
            Scalar::zero()
        } else {
            *self
        }
    }
}

/// A scalar is exactly one of: a NaN, a number below zero, a number that is
/// zero or above.
pub proof fn lemma_scalar_classes(s: Scalar)
    ensures
        s.is_nan() || s.is_negative() || s.is_non_negative(),
        !(s.is_nan() && s.is_negative()),
        !(s.is_nan() && s.is_non_negative()),
        !(s.is_negative() && s.is_non_negative()),
        s.is_minus_one() ==> s.is_negative(),
{
}

/// Clamping changes nothing a second time.
pub proof fn lemma_clamped_idempotent(s: Scalar)
    ensures
        s.clamped().clamped() == s.clamped(),
        s.clamped().is_non_negative(),
        s.settled().settled() == s.settled(),
        !s.settled().is_nan(),
{
}

} // verus!
