use vstd::prelude::*;

verus! {

/// A single-precision number, held as its IEEE 754 bit pattern.
///
/// The world stores and returns such numbers and never computes with them, so
/// the bit pattern is all it needs. Two values are equal when their bit
/// patterns are.
#[derive(Clone, Copy, Debug, PartialEq, Eq, Structural)]
pub struct Float {
    pub bits: u32,
}

impl Float {
    /// The number with the given bit pattern.
    pub fn from_bits(bits: u32) -> (number: Self)
        ensures
            number.bits == bits,
    {
        Float { bits }
    }

    /// The bit pattern of the number.
    pub fn to_bits(&self) -> (bits: u32)
        ensures
            bits == self.bits,
    {
        self.bits
    }

    /// The number with the opposite sign: the same bit pattern with the sign
    /// bit flipped.
    pub fn negated(&self) -> (number: Self)
        ensures
            number.bits == self.bits ^ 0x8000_0000u32,
    {
        Float { bits: self.bits ^ 0x8000_0000u32 }
    }
}

impl Default for Float {
    /// Positive zero.
    fn default() -> (number: Self)
        ensures
            number.bits == 0,
    {
        Float { bits: 0 }
    }
}

} // verus!
