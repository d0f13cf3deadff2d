//! Core logic of a small operating-system kernel, with its hardest piece —
//! the physical-memory frame allocator — verified: a two-level bitmap over
//! a 64 GiB physical address space, tracking 4 KiB and 2 MiB frames, with
//! machine-checked invariants tying the two levels, the free counters and
//! the search hints together.

use vstd::prelude::*;

pub mod bits;
pub mod devices;
pub mod display;
pub mod frame_allocator;
pub mod framebuffer;
pub mod ikd;
pub mod pic;
pub mod placement;
pub mod processes;
pub mod region;
pub mod rtc;
pub mod structures;

verus! {

/// Fast division by 255 using additions and shifts; exact as long as the
/// 16-bit intermediate sum of the hardware form cannot overflow.
pub fn div_255_fast(x: u16) -> (r: u8)
    requires
        x <= 65278,
    ensures
        r == x / 255,
{
    proof {
        lemma_div_255_fast(x);
    }
    let a: u32 = x as u32;
    let t: u32 = (a + 257) >> 8;
    ((a + t) >> 8) as u8
}

proof fn lemma_div_255_fast(x: u16)
    by (bit_vector)
    requires
        x <= 65278,
    ensures
        (((x as u32) + 257) as u32) >> 8 <= 257,
        (((x as u32) + ((((x as u32) + 257) as u32) >> 8)) as u32) >> 8 <= 255,
        (((((x as u32) + ((((x as u32) + 257) as u32) >> 8)) as u32) >> 8) as u8) == x / 255,
{
}

} // verus!
