//! Bootstrap placement: before any allocator exists, its two bitmap arrays
//! need physical storage. Given the start of a free region, this picks a
//! 2 MiB block (backing the small-frame bitmap) and a 4 KiB block (backing
//! the large-frame bitmap) so that neither block straddles an alignment gap.

use vstd::prelude::*;
use crate::region::{SIZE_2M, SIZE_4K};

verus! {

/// Largest 2 MiB-aligned address at or below `a`.
pub open spec fn spec_align_down_2m(a: int) -> int {
    0x20_0000 * (a / 0x20_0000)
}

/// Smallest 2 MiB-aligned address at or above `a`.
pub open spec fn spec_align_up_2m(a: int) -> int {
    spec_align_down_2m(a + 0x20_0000 - 1)
}

/// Where the two bitmap blocks land for a region starting at `start`:
/// the 2 MiB block first when `start` is 2 MiB-aligned, otherwise the
/// 4 KiB block at `start` and the 2 MiB block at the next aligned address.
pub open spec fn spec_big_block(start: int) -> int {
    if start % 0x20_0000 == 0 {
        start
    } else if (start + 4096) % 0x20_0000 == 0 {
        start + 4096
    } else {
        spec_align_up_2m(start)
    }
}

/// The 4 KiB block lands at `start` unless the region starts 2 MiB-aligned,
/// in which case it follows the 2 MiB block.
pub open spec fn spec_small_block(start: int) -> int {
    if start % 0x20_0000 == 0 {
        start + 0x20_0000
    } else {
        start
    }
}

/// Both blocks fit between `start` and `end`.
pub open spec fn spec_placement_fits(start: int, end: int) -> bool {
    &&& spec_big_block(start) + 0x20_0000 <= end
    &&& spec_small_block(start) + 4096 <= end
}

/// Picks physical storage for the two bitmap arrays inside a free region
/// starting at `start_address`: returns the 2 MiB block backing the
/// small-frame bitmap and the 4 KiB block backing the large-frame bitmap.
/// The packing order follows the region's natural alignment so neither
/// block straddles a gap; an unaligned start leaves a never-reused gap
/// before the 2 MiB block, which is accepted waste.
pub fn get_bitflag_frames(start_address: u64) -> (r: (u64, u64))
    requires
        start_address % 4096 == 0,
        start_address + 0x40_0000 < u64::MAX,
    ensures
        r.0 == spec_big_block(start_address as int),
        r.1 == spec_small_block(start_address as int),
        r.0 % 0x20_0000 == 0,
        r.1 % 4096 == 0,
        start_address <= r.0 && start_address <= r.1,
        r.1 + 4096 <= r.0 || r.0 + 0x20_0000 <= r.1,
        start_address % 0x20_0000 != 0 ==> r.1 == start_address && r.1 + 4096 <= r.0,
{
    let four_kilobytes_frames_bitflag: u64;
    let two_megabyte_frames_bitflag: u64;
    if start_address % SIZE_2M == 0 {
        four_kilobytes_frames_bitflag = start_address;
        two_megabyte_frames_bitflag = start_address + SIZE_2M;
    } else if (start_address + SIZE_4K) % SIZE_2M == 0 {
        four_kilobytes_frames_bitflag = start_address + SIZE_4K;
        two_megabyte_frames_bitflag = start_address;
    } else {
        four_kilobytes_frames_bitflag = align_up_2m(start_address);
        two_megabyte_frames_bitflag = start_address;
        proof {
            lemma_align_up_2m_gap(start_address as int);
        }
    }
    (four_kilobytes_frames_bitflag, two_megabyte_frames_bitflag)
}

/// Smallest 2 MiB-aligned address at or above `a`.
pub fn align_up_2m(a: u64) -> (r: u64)
    requires
        a + 0x20_0000 < u64::MAX,
    ensures
        r == spec_align_up_2m(a as int),
        r % 0x20_0000 == 0,
        a <= r < a + 0x20_0000,
{
    proof {
        lemma_align_up_2m_props(a as int);
    }
    ((a + (SIZE_2M - 1)) / SIZE_2M) * SIZE_2M
}

proof fn lemma_align_up_2m_props(a: int)
    requires
        a >= 0,
    ensures
        spec_align_up_2m(a) % 0x20_0000 == 0,
        a <= spec_align_up_2m(a) < a + 0x20_0000,
        spec_align_up_2m(a) == 0x20_0000 * ((a + 0x20_0000 - 1) / 0x20_0000),
{
    let m = 0x20_0000int;
    let b = a + m - 1;
    vstd::arithmetic::div_mod::lemma_fundamental_div_mod(b, m);
    vstd::arithmetic::div_mod::lemma_mod_bound(b, m);
    vstd::arithmetic::div_mod::lemma_mod_multiples_basic(b / m, m);
}

/// An unaligned, 4 KiB-aligned start leaves at least one whole small
/// frame before the next 2 MiB boundary.
proof fn lemma_align_up_2m_gap(a: int)
    requires
        a >= 0,
        a % 4096 == 0,
        a % 0x20_0000 != 0,
    ensures
        a + 4096 <= spec_align_up_2m(a),
{
    let m = 0x20_0000int;
    lemma_align_up_2m_props(a);
    let r = spec_align_up_2m(a);
    let q = a / m;
    let s = a % m;
    vstd::arithmetic::div_mod::lemma_fundamental_div_mod(a, m);
    vstd::arithmetic::div_mod::lemma_mod_bound(a, m);
    // a + m - 1 = m * (q + 1) + (s - 1), so rounding up lands at m * (q + 1)
    vstd::arithmetic::div_mod::lemma_fundamental_div_mod_converse(a + m - 1, m, q + 1, s - 1);
    assert(r == m * (q + 1));
    // s is a positive multiple of 4 KiB, hence at most m - 4 KiB
    assert(s % 4096 == 0) by {
        vstd::arithmetic::div_mod::lemma_mod_mod(a, 4096, 512);
        assert(4096 * 512 == m);
    }
    let ks = s / 4096;
    vstd::arithmetic::div_mod::lemma_fundamental_div_mod(s, 4096);
    assert(s == 4096 * ks);
    assert(m - s == 4096 * (512 - ks));
    assert(ks <= 511) by {
        if ks >= 512 {
            assert(s >= 4096 * 512);
        }
    }
    assert(m - s >= 4096);
}

} // verus!
