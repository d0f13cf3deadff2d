use kernel_core::frame_allocator::BitmapFrameAllocator;
use kernel_core::frame_allocator::FullFrameAllocator;
use kernel_core::placement::get_bitflag_frames;
use kernel_core::region::{MemoryRegion, MemoryRegionKind};

const KIB4: u64 = 4096;
const MIB2: u64 = 0x20_0000;
const MIB: u64 = 0x10_0000;

fn usable(start: u64, end: u64) -> MemoryRegion {
    MemoryRegion { start, end, kind: MemoryRegionKind::Usable }
}

fn reserved(start: u64, end: u64) -> MemoryRegion {
    MemoryRegion { start, end, kind: MemoryRegionKind::Reserved }
}

/// A 6 MiB usable region at 32 MiB: the allocator's own bitmaps take the
/// first 2 MiB plus one frame, leaving 1023 small frames free of which
/// one whole 2 MiB region remains.
fn six_mib_map() -> Vec<MemoryRegion> {
    vec![usable(16 * MIB, 22 * MIB)]
}

#[test]
fn bootstrap_placement_unaligned_region() {
    // A usable region [0x10_0000, 0x40_0000): unaligned start, 3 MiB.
    // The 4 KiB block sits at the start, the 2 MiB block at the next
    // 2 MiB boundary; both lie inside the region and do not overlap.
    let (big, small) = get_bitflag_frames(0x10_0000);
    assert_eq!(small, 0x10_0000);
    assert_eq!(big, 0x20_0000);
    assert!(small + KIB4 <= big);
    assert!(big + MIB2 <= 0x40_0000);
}

#[test]
fn bootstrap_placement_aligned_region() {
    let (big, small) = get_bitflag_frames(0x200_0000);
    assert_eq!(big, 0x200_0000);
    assert_eq!(small, 0x200_0000 + MIB2);
}

#[test]
fn bootstrap_placement_end_aligned_region() {
    // start + 4 KiB on a 2 MiB boundary: the 4 KiB block goes first.
    let (big, small) = get_bitflag_frames(0x20_0000 - 0x1000);
    assert_eq!(small, 0x20_0000 - 0x1000);
    assert_eq!(big, 0x20_0000);
}

#[test]
fn init_totals() {
    let map = vec![
        reserved(0, 16 * MIB),
        usable(16 * MIB, 22 * MIB),
        reserved(22 * MIB, 23 * MIB),
    ];
    let a = BitmapFrameAllocator::init(&map);
    assert_eq!(a.get_total_memory_size(), 6 * MIB);
    assert_eq!(a.get_free_dma_memory(), 0);
    // 1536 frames in the region, minus 512 + 1 backing frames
    assert_eq!(a.get_free_4k_frames(), 1023);
    assert_eq!(a.get_free_memory_size(), 1023 * KIB4);
    // only [20 MiB, 22 MiB) is still fully free
    assert_eq!(a.get_free_2m_frames(), 1);
}

#[test]
fn init_counts_dma_overlap() {
    let map = vec![usable(0, 32 * MIB)];
    let a = BitmapFrameAllocator::init(&map);
    assert_eq!(a.get_total_memory_size(), 32 * MIB);
    assert_eq!(a.get_free_dma_memory(), 16 * MIB);
    // frames of [16 MiB, 32 MiB), minus 513 backing frames
    assert_eq!(a.get_free_4k_frames(), 4096 - 513);
    // regions 10..16 of the tracked space are still fully free
    assert_eq!(a.get_free_2m_frames(), 6);
}

#[test]
fn counters_match_recount() {
    let map = six_mib_map();
    let mut a = BitmapFrameAllocator::init(&map);
    assert_eq!(a.count_free_4k_frames(), a.get_free_4k_frames());
    assert_eq!(a.count_free_2m_frames(), a.get_free_2m_frames());
    let f = a.allocate_frame(KIB4).unwrap();
    let _ = a.allocate_frame(MIB2).unwrap();
    assert_eq!(a.count_free_4k_frames(), a.get_free_4k_frames());
    assert_eq!(a.count_free_2m_frames(), a.get_free_2m_frames());
    a.deallocate_frame(f, KIB4);
    assert_eq!(a.count_free_4k_frames(), a.get_free_4k_frames());
    assert_eq!(a.count_free_2m_frames(), a.get_free_2m_frames());
}

#[test]
fn summary_bit_tracks_partial_region() {
    // Allocating one 4 KiB frame inside a fully free 2 MiB region marks
    // the whole region partially used; freeing it clears the mark again.
    let map = six_mib_map();
    let mut a = BitmapFrameAllocator::init(&map);
    assert_eq!(a.get_free_2m_frames(), 1);
    let frames_before = a.get_free_4k_frames();
    // drain the partial band [18 MiB + 4 KiB, 20 MiB)
    let mut taken = Vec::new();
    for _ in 0..511 {
        taken.push(a.allocate_frame(KIB4).unwrap());
    }
    assert_eq!(a.get_free_2m_frames(), 1);
    // the next one bites into the free region
    let f = a.allocate_frame(KIB4).unwrap();
    assert_eq!(f, 20 * MIB);
    assert_eq!(a.get_free_2m_frames(), 0);
    a.deallocate_frame(f, KIB4);
    assert_eq!(a.get_free_2m_frames(), 1);
    for f in taken {
        a.deallocate_frame(f, KIB4);
    }
    assert_eq!(a.get_free_4k_frames(), frames_before);
}

#[test]
fn no_double_allocation() {
    let map = six_mib_map();
    let mut a = BitmapFrameAllocator::init(&map);
    let x = a.allocate_frame(KIB4).unwrap();
    let y = a.allocate_frame(KIB4).unwrap();
    let z = a.allocate_frame(KIB4).unwrap();
    assert_ne!(x, y);
    assert_ne!(x, z);
    assert_ne!(y, z);
}

#[test]
fn allocate_deallocate_round_trip() {
    let map = six_mib_map();
    let mut a = BitmapFrameAllocator::init(&map);
    let free_4k = a.get_free_4k_frames();
    let free_2m = a.get_free_2m_frames();
    let addr = a.allocate_frame(KIB4).unwrap();
    assert_eq!(a.get_free_4k_frames(), free_4k - 1);
    a.deallocate_frame(addr, KIB4);
    assert_eq!(a.get_free_4k_frames(), free_4k);
    assert_eq!(a.get_free_2m_frames(), free_2m);
    // first-fit hands the very same frame out again
    assert_eq!(a.allocate_frame(KIB4).unwrap(), addr);
}

#[test]
fn large_frame_atomicity() {
    let map = six_mib_map();
    let mut a = BitmapFrameAllocator::init(&map);
    let big = a.allocate_frame(MIB2).unwrap();
    assert_eq!(big, 20 * MIB);
    // drain every remaining 4 KiB frame; none lands inside the 2 MiB one
    let mut taken = Vec::new();
    while let Some(f) = a.allocate_frame(KIB4) {
        assert!(!(big <= f && f < big + MIB2));
        taken.push(f);
    }
    assert_eq!(taken.len(), 511);
    assert_eq!(a.allocate_frame(KIB4), None);
    // once the 2 MiB frame is freed its sub-frames become allocatable
    a.deallocate_frame(big, MIB2);
    assert_eq!(a.allocate_frame(KIB4).unwrap(), big);
}

#[test]
fn dma_band_never_allocated() {
    // the whole DMA band is tagged usable, yet never handed out
    let map = vec![usable(0, 32 * MIB)];
    let mut a = BitmapFrameAllocator::init(&map);
    while let Some(f) = a.allocate_frame(KIB4) {
        assert!(f >= 16 * MIB);
    }
    let mut b = BitmapFrameAllocator::init(&map);
    while let Some(f) = b.allocate_frame(MIB2) {
        assert!(f >= 16 * MIB);
    }
}

#[test]
fn exhaustion_after_single_free_frame() {
    // a region hosting the bitmaps plus exactly one spare 4 KiB frame
    let map = vec![usable(16 * MIB, 18 * MIB + 2 * KIB4)];
    let mut a = BitmapFrameAllocator::init(&map);
    assert_eq!(a.get_free_4k_frames(), 1);
    let first = a.allocate_frame(KIB4);
    assert_eq!(first, Some(18 * MIB + KIB4));
    let second = a.allocate_frame(KIB4);
    assert_eq!(second, None);
    assert_eq!(a.get_free_4k_frames(), 0);
}

#[test]
fn unaligned_region_end_frees_only_whole_frames() {
    // the region ends 2 KiB into a frame; that frame is never freed
    let map = vec![usable(16 * MIB, 18 * MIB + 2 * KIB4 + 0x800)];
    let mut a = BitmapFrameAllocator::init(&map);
    assert_eq!(a.get_free_4k_frames(), 1);
    assert_eq!(a.allocate_frame(KIB4), Some(18 * MIB + KIB4));
    assert_eq!(a.allocate_frame(KIB4), None);
}

#[test]
fn exhaustion_of_large_frames() {
    let map = six_mib_map();
    let mut a = BitmapFrameAllocator::init(&map);
    assert_eq!(a.allocate_frame(MIB2), Some(20 * MIB));
    assert_eq!(a.allocate_frame(MIB2), None);
    assert_eq!(a.get_free_2m_frames(), 0);
}

#[test]
fn allocation_is_first_fit() {
    let map = six_mib_map();
    let mut a = BitmapFrameAllocator::init(&map);
    // the lowest free frame sits right after the two backing blocks
    assert_eq!(a.allocate_frame(KIB4), Some(18 * MIB + KIB4));
    assert_eq!(a.allocate_frame(KIB4), Some(18 * MIB + 2 * KIB4));
}

#[test]
fn mark_used_and_unused_directly() {
    let map = six_mib_map();
    let mut a = BitmapFrameAllocator::init(&map);
    let free_4k = a.get_free_4k_frames();
    // claim a specific free frame, then release it
    let target = 21 * MIB;
    assert_eq!(a.set_used_lock(target, KIB4), Some(()));
    assert_eq!(a.get_free_4k_frames(), free_4k - 1);
    assert_eq!(a.set_unused_lock(target, KIB4), Some(()));
    assert_eq!(a.get_free_4k_frames(), free_4k);
    // an address beyond the tracked 64 GiB is refused
    assert_eq!(a.set_used_lock(0x10_0000_0000, KIB4), None);
    assert_eq!(a.set_unused_lock(0x10_0000_0000, KIB4), None);
}

#[test]
fn several_regions_with_gaps() {
    let map = vec![
        usable(16 * MIB, 22 * MIB),
        reserved(22 * MIB, 24 * MIB),
        usable(24 * MIB, 26 * MIB),
    ];
    let mut a = BitmapFrameAllocator::init(&map);
    assert_eq!(a.get_total_memory_size(), 8 * MIB);
    // free: 1023 frames of the first region plus 512 of the second
    assert_eq!(a.get_free_4k_frames(), 1535);
    assert_eq!(a.get_free_2m_frames(), 2);
    // the reserved gap is never handed out
    while let Some(f) = a.allocate_frame(KIB4) {
        assert!(!(22 * MIB <= f && f < 24 * MIB));
    }
}
