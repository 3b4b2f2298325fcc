use vstd::prelude::*;

verus! {

/// The bit pattern of an IEEE-754 double whose value is the sign bit alone.
pub const F64_SIGN_BIT: u64 = 0x8000_0000_0000_0000;

/// The bit pattern of positive infinity: the largest bit pattern that still
/// denotes a positive number. Every larger pattern with a clear sign bit is
/// a NaN.
pub const F64_POS_INFINITY_BITS: u64 = 0x7FF0_0000_0000_0000;

/// A daily goal or a recorded amount.
///
/// The caller supplies the value as the bit pattern of a 64-bit IEEE-754
/// float (`f64::to_bits`). The library never computes with the number: it
/// stores the bits and reads only their sign and positivity, which the
/// IEEE-754 layout determines. The top bit is the sign; among the patterns
/// with a clear sign bit, those in `1 ..= 0x7FF0_0000_0000_0000` are exactly
/// the numbers greater than zero (zero is the all-zero pattern, and the
/// patterns above positive infinity are NaNs).
#[derive(Clone, Copy, PartialEq, Eq, Structural, Debug, Hash)]
pub struct Quantum {
    pub bits: u64,
}

/// The bit pattern has a clear sign bit, as `f64::is_sign_positive` tests.
pub open spec fn bits_sign_positive(bits: u64) -> bool {
    bits < F64_SIGN_BIT
}

/// The bit pattern denotes a number strictly greater than zero, as `> 0.0`
/// tests on the floats: positive, nonzero, and not a NaN.
pub open spec fn bits_gt_zero(bits: u64) -> bool {
    0 < bits <= F64_POS_INFINITY_BITS
}

impl Quantum {
    pub fn from_bits(bits: u64) -> (q: Quantum)
        ensures
            q.bits == bits,
    {
        Quantum { bits }
    }

    pub fn bits(&self) -> (b: u64)
        ensures
            b == self.bits,
    {
        self.bits
    }

    /// The zero amount: the bits of positive zero.
    pub fn zero() -> (q: Quantum)
        ensures
            q.bits == 0,
    {
        Quantum { bits: 0 }
    }

    pub fn is_sign_positive(&self) -> (r: bool)
        ensures
            r == bits_sign_positive(self.bits),
    {
        self.bits < F64_SIGN_BIT
    }

    pub fn gt_zero(&self) -> (r: bool)
        ensures
            r == bits_gt_zero(self.bits),
    {
        0 < self.bits && self.bits <= F64_POS_INFINITY_BITS
    }
}

} // verus!
