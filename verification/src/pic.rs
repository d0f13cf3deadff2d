//! The interrupt indices behind the two chained programmable interrupt
//! controllers: the remapped offsets and the vector number of each
//! hardware interrupt.

use vstd::prelude::*;

verus! {

/// Vector offset the first controller is remapped to.
pub const PIC_1_OFFSET: u8 = 32;

/// Vector offset of the second controller, right after the first.
pub const PIC_2_OFFSET: u8 = PIC_1_OFFSET + 8;

/// Stores the interrupt address for a given interrupt type
#[derive(Debug, Clone, Copy, PartialEq, Eq, Structural)]
pub enum InterruptIndex {
    Timer,
    Keyboard,
}

impl InterruptIndex {
    /// The interrupt vector number: the first controller's offset, then
    /// one vector per line.
    pub open spec fn spec_vector(self) -> u8 {
        match self {
            InterruptIndex::Timer => 32,
            InterruptIndex::Keyboard => 33,
        }
    }

    /// The vector number as a byte.
    pub fn as_u8(self) -> (r: u8)
        ensures
            r == self.spec_vector(),
    {
        match self {
            InterruptIndex::Timer => PIC_1_OFFSET,
            InterruptIndex::Keyboard => PIC_1_OFFSET + 1,
        }
    }

    /// The vector number as an index.
    pub fn as_usize(self) -> (r: usize)
        ensures
            r == self.spec_vector() as usize,
    {
        self.as_u8() as usize
    }
}

} // verus!
