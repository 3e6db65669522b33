//! Dollar amounts as they are recorded.

use vstd::prelude::*;

verus! {

/// A dollar amount, kept as the bit pattern of the IEEE 754 binary64 value it was recorded as.
///
/// Amounts are compared with zero here but never added up: binary64 addition depends on the
/// order of the terms, so an aggregate keeps its terms in the order in which they are to be
/// added.
#[derive(Debug, Clone, Copy, PartialEq, Eq, Structural)]
pub struct Cost {
    pub bits: u64,
}

/// The bit pattern of negative zero, which equals zero.
pub const NEGATIVE_ZERO_BITS: u64 = 0x8000_0000_0000_0000;

impl Cost {
    /// The amount equals zero, whatever its sign.
    pub open spec fn zero(self) -> bool {
        self.bits == 0 || self.bits == NEGATIVE_ZERO_BITS
    }

    /// Whether the amount equals zero, whatever its sign.
    pub fn is_zero(&self) -> (r: bool)
        ensures
            r == self.zero(),
    {
        self.bits == 0 || self.bits == NEGATIVE_ZERO_BITS
    }
}

} // verus!
