//! Signal history of a boolean input, one bit per evaluation.

use vstd::prelude::*;

verus! {

/// The last eight values of a boolean signal: bit 0 holds the current
/// value, bit `n` the value `n` evaluations ago.
#[derive(Clone, Copy, Debug, PartialEq, Eq, Structural)]
pub struct SignalByte {
    bits: u8,
}

impl SignalByte {
    /// The history bits.
    pub closed spec fn history(&self) -> u8 {
        self.bits
    }

    /// Records a new current value, shifting the older ones back.
    pub fn push(&mut self, value: bool)
        ensures
            final(self).history() == ((old(self).history() << 1u8) | (if value { 1u8 } else { 0u8 })),
    {
        let v: u8 = if value { 1 } else { 0 };
        self.bits = (self.bits << 1u8) | v;
    }

    /// Whether the current value is true.
    pub fn is_positive(&self) -> (r: bool)
        ensures
            r == (self.history() & 1u8 == 1u8),
    {
        self.bits & 1 == 1
    }

    /// Whether the current value is false.
    pub fn is_negative(&self) -> (r: bool)
        ensures
            r == !(self.history() & 1u8 == 1u8),
    {
        !self.is_positive()
    }
}

impl Default for SignalByte {
    fn default() -> (r: Self)
        ensures
            r.history() == 0,
    {
        SignalByte { bits: 0 }
    }
}

/// After a push, the signal is positive exactly when the pushed value was true.
pub proof fn lemma_push_then_current(before: u8, value: bool)
    ensures
        (((before << 1u8) | (if value { 1u8 } else { 0u8 })) & 1u8 == 1u8) == value,
{
    if value {
        assert(((before << 1u8) | 1u8) & 1u8 == 1u8) by (bit_vector);
    } else {
        assert(((before << 1u8) | 0u8) & 1u8 == 0u8) by (bit_vector);
    }
}

} // verus!
