//! VLIB buffer metadata

use vstd::prelude::*;

verus! {

/// VLIB buffer flags, as the 32 bits of the buffer's `flags` field
#[derive(Copy, Clone, Debug, PartialEq, Eq, Structural)]
pub struct BufferFlags {
    bits: u32,
}

impl BufferFlags {
    /// The flags with exactly the given bits set
    pub fn from_bits_retain(bits: u32) -> (flags: Self)
        ensures
            flags.bits() == bits,
    {
        BufferFlags { bits }
    }

    /// The bits of the flags
    #[verifier::when_used_as_spec(spec_bits)]
    pub fn bits(&self) -> (bits: u32)
        ensures
            bits == self.spec_bits(),
    {
        self.bits
    }

    /// The bits of the flags
    pub closed spec fn spec_bits(&self) -> u32 {
        self.bits
    }
}

} // verus!
