use vstd::prelude::*;

verus! {

/// Identifier of a simulation entity, held as the entity's 64-bit encoding:
/// generation in the high half, slot index in the low half.
#[derive(Debug, Clone, Copy, PartialEq, Eq, Hash, Structural)]
pub struct EntityId {
    pub bits: u64,
}

impl EntityId {
    pub fn from_bits(bits: u64) -> (r: Self)
        ensures
            r.bits == bits,
    {
        Self { bits }
    }

    pub fn to_bits(self) -> (r: u64)
        ensures
            r == self.bits,
    {
        self.bits
    }

    /// The slot index: the low 32 bits of the encoding.
    pub open spec fn slot(self) -> u32 {
        (self.bits % 0x1_0000_0000) as u32
    }

    pub fn index(self) -> (r: u32)
        ensures
            r == self.slot(),
    {
        (self.bits % 0x1_0000_0000) as u32
    }
}

} // verus!
