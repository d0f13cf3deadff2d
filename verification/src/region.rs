//! The boot-supplied physical memory map, modelled as plain values:
//! a list of `[start, end)` regions tagged by kind. The boot loader hands
//! these over at startup; everything the allocator needs from them is
//! arithmetic over the two bounds.

use vstd::prelude::*;

verus! {

/// Lowest physical address the allocator will ever hand out; everything
/// below stays reserved for DMA-only hardware.
pub const LOW_MEMORY_LIMIT: u64 = 0x0100_0000;

/// Bytes in a small frame.
pub const SIZE_4K: u64 = 4096;

/// Bytes in a large frame.
pub const SIZE_2M: u64 = 0x20_0000;

/// Top of the tracked physical address space: 64 GiB.
pub const MEMORY_CEILING: u64 = 0x10_0000_0000;

/// What a region of physical memory is usable for, as reported at boot.
#[derive(Clone, Copy, Debug, PartialEq, Eq, Structural)]
pub enum MemoryRegionKind {
    /// Free for the kernel to allocate.
    Usable,
    /// Reserved by firmware or devices.
    Reserved,
    /// Listed but not general-purpose memory.
    Other,
}

/// One entry of the boot memory map: the physical range `[start, end)`.
#[derive(Clone, Copy, Debug, PartialEq, Eq, Structural)]
pub struct MemoryRegion {
    pub start: u64,
    pub end: u64,
    pub kind: MemoryRegionKind,
}

impl MemoryRegion {
    /// Bytes of this region, when well formed.
    pub open spec fn size(self) -> int {
        self.end - self.start
    }

    /// Bytes of this region below the DMA boundary.
    pub open spec fn low_overlap(self) -> int {
        let end = if self.end < LOW_MEMORY_LIMIT {
            self.end
        } else {
            LOW_MEMORY_LIMIT
        };
        let start = if self.start < end {
            self.start
        } else {
            end
        };
        end - start
    }
}

/// Total bytes of the usable regions among the first `n` entries.
pub open spec fn usable_bytes(regions: Seq<MemoryRegion>, n: int) -> int
    decreases n,
{
    if n <= 0 {
        0
    } else {
        usable_bytes(regions, n - 1) + if regions[n - 1].kind == MemoryRegionKind::Usable {
            regions[n - 1].size()
        } else {
            0
        }
    }
}

/// Total bytes of usable memory below the DMA boundary among the first `n`.
pub open spec fn usable_low_bytes(regions: Seq<MemoryRegion>, n: int) -> int
    decreases n,
{
    if n <= 0 {
        0
    } else {
        usable_low_bytes(regions, n - 1) + if regions[n - 1].kind == MemoryRegionKind::Usable {
            regions[n - 1].low_overlap()
        } else {
            0
        }
    }
}

/// A memory map the allocator accepts: every region is an ordered range,
/// usable regions lie under the 64 GiB ceiling, and are listed in
/// increasing order without overlap.
pub open spec fn regions_wf(regions: Seq<MemoryRegion>) -> bool {
    &&& forall|r: int|
        0 <= r < regions.len() ==> (#[trigger] regions[r]).start <= regions[r].end
    &&& forall|r: int|
        0 <= r < regions.len() && (#[trigger] regions[r]).kind == MemoryRegionKind::Usable
            ==> regions[r].end <= MEMORY_CEILING
    &&& forall|r1: int, r2: int|
        0 <= r1 < r2 < regions.len() && (#[trigger] regions[r1]).kind == MemoryRegionKind::Usable
            && (#[trigger] regions[r2]).kind == MemoryRegionKind::Usable ==> regions[r1].end
            <= regions[r2].start
}

pub proof fn lemma_usable_bytes_bounds(regions: Seq<MemoryRegion>, n: int)
    requires
        regions_wf(regions),
        n <= regions.len(),
    ensures
        0 <= usable_bytes(regions, n),
        0 <= usable_low_bytes(regions, n) <= usable_bytes(regions, n),
    decreases n,
{
    if n > 0 {
        lemma_usable_bytes_bounds(regions, n - 1);
    }
}

/// Usable bytes among disjoint ordered regions never exceed the span up to
/// the last usable end, so the totals stay under the 64 GiB ceiling.
pub proof fn lemma_usable_bytes_ceiling(regions: Seq<MemoryRegion>, n: int)
    requires
        regions_wf(regions),
        n <= regions.len(),
    ensures
        usable_bytes(regions, n) <= max_usable_end(regions, n),
        max_usable_end(regions, n) <= MEMORY_CEILING,
    decreases n,
{
    if n > 0 {
        lemma_usable_bytes_ceiling(regions, n - 1);
        if regions[n - 1].kind == MemoryRegionKind::Usable {
            lemma_max_usable_end_le(regions, n - 1, regions[n - 1].start as int);
        }
    }
}

proof fn lemma_max_usable_end_le(regions: Seq<MemoryRegion>, n: int, b: int)
    requires
        0 <= b,
        forall|r: int|
            0 <= r < n && (#[trigger] regions[r]).kind == MemoryRegionKind::Usable
                ==> regions[r].end <= b,
    ensures
        max_usable_end(regions, n) <= b,
    decreases n,
{
    if n > 0 {
        lemma_max_usable_end_le(regions, n - 1, b);
    }
}

/// End of the last usable region among the first `n`, or zero.
pub open spec fn max_usable_end(regions: Seq<MemoryRegion>, n: int) -> int
    decreases n,
{
    if n <= 0 {
        0
    } else if regions[n - 1].kind == MemoryRegionKind::Usable {
        regions[n - 1].end as int
    } else {
        max_usable_end(regions, n - 1)
    }
}

} // verus!
