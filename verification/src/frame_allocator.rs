//! The physical-memory frame allocator: a two-level occupancy bitmap over
//! 64 GiB of physical address space. One bit per 4 KiB frame, one summary
//! bit per 2 MiB region; a large bit is set exactly when at least one of
//! its 512 small frames is occupied. Free counters and next-free search
//! hints ride along, and the well-formedness invariant ties all of it
//! together on every mutation.

use vstd::prelude::*;
use crate::bits::{
    bit_at, lemma_bits_extensional, lemma_full_word_bits, lemma_seq_bit_clear, lemma_seq_bit_set,
    lemma_seq_zeros_at_least_word, lemma_seq_zeros_bounds, lemma_seq_zeros_update,
    lemma_seq_zeros_zero_iff_full, lemma_shift_div, lemma_shift_mul, lemma_word_zeros_full,
    lemma_word_zeros_zero, lemma_zero_word_bits, lemma_zeros_below_pos, seq_bit, seq_zeros,
    word_zeros,
};
use crate::region::{
    LOW_MEMORY_LIMIT, MemoryRegion, MemoryRegionKind, SIZE_2M, SIZE_4K,
};

verus! {

/// Words in the small-frame bitmap: 16 777 216 bits for 64 GiB of 4 KiB frames.
pub const WORDS_4K: usize = 0x4_0000;

/// Words in the large-frame bitmap: 32 768 bits for 64 GiB of 2 MiB regions.
pub const WORDS_2M: usize = 512;

/// Small frames below the DMA boundary (16 MiB / 4 KiB).
pub const DMA_FRAMES_4K: u64 = 4096;

/// Large regions below the DMA boundary (16 MiB / 2 MiB).
pub const DMA_FRAMES_2M: u64 = 8;

/// At least one of the 512 small frames of large region `j` is occupied.
pub open spec fn region_used(s: Seq<u64>, j: int) -> bool {
    exists|i: int| 512 * j <= i < 512 * j + 512 && seq_bit(s, i)
}

/// `fi` is the lowest free frame of the bitmap.
pub open spec fn first_free(s: Seq<u64>, fi: int) -> bool {
    &&& 0 <= fi < 64 * s.len()
    &&& !seq_bit(s, fi)
    &&& forall|i: int| 0 <= i < fi ==> seq_bit(s, i)
}

/// A frame allocator that allocates according to a usage bitmap of the
/// memory; it tracks at most 64 GiB of physical memory. Its two bitmap
/// arrays need one 2 MiB and one 4 KiB block of backing storage, placed
/// by `crate::placement` before the allocator exists.
pub struct BitmapFrameAllocator {
    pub total_usable_memory: u64,
    pub low_memory_usable_size: u64,
    pub next_free_2m_frame_guess: usize,
    pub next_free_4k_frame_guess: usize,
    pub free_2m_frames: u64,
    pub free_4k_frames: u64,
    pub two_megabyte_frames_bitflag: Vec<u64>,
    pub four_kilobytes_frames_bitflag: Vec<u64>,
}

impl BitmapFrameAllocator {
    /// The small-frame bitmap as a sequence of words.
    pub open spec fn small(&self) -> Seq<u64> {
        self.four_kilobytes_frames_bitflag@
    }

    /// The large-frame bitmap as a sequence of words.
    pub open spec fn large(&self) -> Seq<u64> {
        self.two_megabyte_frames_bitflag@
    }

    /// Occupancy bit of small frame `i`.
    pub open spec fn small_bit(&self, i: int) -> bool {
        seq_bit(self.small(), i)
    }

    /// Occupancy bit of large region `j`.
    pub open spec fn large_bit(&self, j: int) -> bool {
        seq_bit(self.large(), j)
    }

    /// Well-formedness: the bitmap sizes, the summary relation between the
    /// two levels, the counters as zero-bit counts, the hints as true lower
    /// bounds, and the reserved DMA band all held at once.
    pub open spec fn wf(&self) -> bool {
        &&& self.small().len() == 0x4_0000
        &&& self.large().len() == 512
        &&& self.free_4k_frames == seq_zeros(self.small())
        &&& self.free_2m_frames == seq_zeros(self.large())
        &&& forall|j: int|
            0 <= j < 0x8000 ==> (#[trigger] seq_bit(self.large(), j) <==> region_used(
                self.small(),
                j,
            ))
        &&& self.next_free_4k_frame_guess <= 0x4_0000
        &&& self.next_free_2m_frame_guess <= 512
        &&& forall|w: int|
            0 <= w < self.next_free_4k_frame_guess ==> self.small()[w] == u64::MAX
        &&& forall|w: int|
            0 <= w < self.next_free_2m_frame_guess ==> self.large()[w] == u64::MAX
        &&& forall|i: int| 0 <= i < 4096 ==> seq_bit(self.small(), i)
    }

    /// The boot-time totals are not touched by any mutation.
    pub open spec fn same_totals(&self, other: &Self) -> bool {
        &&& self.total_usable_memory == other.total_usable_memory
        &&& self.low_memory_usable_size == other.low_memory_usable_size
    }
}

/// Marking small frame `fi` used: its bit and its region's summary bit are
/// set, nothing else changes, and the counters move accordingly.
pub open spec fn mark_used_4k(
    pre: BitmapFrameAllocator,
    post: BitmapFrameAllocator,
    fi: int,
) -> bool {
    &&& 0 <= fi < 0x100_0000
    &&& !seq_bit(pre.small(), fi)
    &&& forall|i: int|
        0 <= i < 0x100_0000 ==> (#[trigger] seq_bit(post.small(), i) <==> (seq_bit(pre.small(), i)
            || i == fi))
    &&& forall|j: int|
        0 <= j < 0x8000 ==> (#[trigger] seq_bit(post.large(), j) <==> (seq_bit(pre.large(), j)
            || j == fi / 512))
    &&& post.free_4k_frames == pre.free_4k_frames - 1
    &&& post.free_2m_frames == pre.free_2m_frames - (if seq_bit(pre.large(), fi / 512) {
        0int
    } else {
        1int
    })
    &&& post.same_totals(&pre)
}

/// Marking large region `bj` used wholesale: its summary bit and all 512
/// small bits are set, and both counters drop.
pub open spec fn mark_used_2m(
    pre: BitmapFrameAllocator,
    post: BitmapFrameAllocator,
    bj: int,
) -> bool {
    &&& 0 <= bj < 0x8000
    &&& !seq_bit(pre.large(), bj)
    &&& forall|i: int|
        0 <= i < 0x100_0000 ==> (#[trigger] seq_bit(post.small(), i) <==> (seq_bit(pre.small(), i)
            || (512 * bj <= i < 512 * bj + 512)))
    &&& forall|j: int|
        0 <= j < 0x8000 ==> (#[trigger] seq_bit(post.large(), j) <==> (seq_bit(pre.large(), j) || j
            == bj))
    &&& post.free_4k_frames == pre.free_4k_frames - 512
    &&& post.free_2m_frames == pre.free_2m_frames - 1
    &&& post.same_totals(&pre)
}

/// Marking small frame `fi` unused: its bit is cleared, the region's
/// summary bit follows the remaining occupancy, the counters move, and
/// the hints are pulled down to at most the freed words.
pub open spec fn mark_unused_4k(
    pre: BitmapFrameAllocator,
    post: BitmapFrameAllocator,
    fi: int,
) -> bool {
    &&& 4096 <= fi < 0x100_0000
    &&& seq_bit(pre.small(), fi)
    &&& forall|i: int|
        0 <= i < 0x100_0000 ==> (#[trigger] seq_bit(post.small(), i) <==> (seq_bit(pre.small(), i)
            && i != fi))
    &&& forall|j: int|
        0 <= j < 0x8000 && j != fi / 512 ==> (#[trigger] seq_bit(post.large(), j) <==> seq_bit(
            pre.large(),
            j,
        ))
    &&& (seq_bit(post.large(), fi / 512) <==> region_used(post.small(), fi / 512))
    &&& post.free_4k_frames == pre.free_4k_frames + 1
    &&& post.free_2m_frames == pre.free_2m_frames + (if region_used(post.small(), fi / 512) {
        0int
    } else {
        1int
    })
    &&& post.next_free_4k_frame_guess == (if pre.next_free_4k_frame_guess > fi / 64 {
        fi / 64
    } else {
        pre.next_free_4k_frame_guess as int
    })
    &&& post.next_free_2m_frame_guess == (if !region_used(post.small(), fi / 512)
        && pre.next_free_2m_frame_guess > (fi / 512) / 64 {
        (fi / 512) / 64
    } else {
        pre.next_free_2m_frame_guess as int
    })
    &&& post.same_totals(&pre)
}

/// Marking large region `bj` unused: all 512 small bits and the summary
/// bit are cleared, both counters rise, and the hints are pulled down to
/// at most the freed words.
pub open spec fn mark_unused_2m(
    pre: BitmapFrameAllocator,
    post: BitmapFrameAllocator,
    bj: int,
) -> bool {
    &&& 8 <= bj < 0x8000
    &&& forall|i: int| 512 * bj <= i < 512 * bj + 512 ==> #[trigger] seq_bit(pre.small(), i)
    &&& forall|i: int|
        0 <= i < 0x100_0000 ==> (#[trigger] seq_bit(post.small(), i) <==> (seq_bit(pre.small(), i)
            && !(512 * bj <= i < 512 * bj + 512)))
    &&& forall|j: int|
        0 <= j < 0x8000 ==> (#[trigger] seq_bit(post.large(), j) <==> (seq_bit(pre.large(), j) && j
            != bj))
    &&& post.free_4k_frames == pre.free_4k_frames + 512
    &&& post.free_2m_frames == pre.free_2m_frames + 1
    &&& post.next_free_2m_frame_guess == (if pre.next_free_2m_frame_guess > bj / 64 {
        bj / 64
    } else {
        pre.next_free_2m_frame_guess as int
    })
    &&& post.next_free_4k_frame_guess == (if pre.next_free_4k_frame_guess > 8 * bj {
        8 * bj
    } else {
        pre.next_free_4k_frame_guess as int
    })
    &&& post.same_totals(&pre)
}

/// A small frame index, its word and its large region: the arithmetic
/// facts relating the three granularities.
pub proof fn lemma_frame_indices(fi: int)
    requires
        0 <= fi < 0x100_0000,
    ensures
        0 <= fi / 64 < 0x4_0000,
        0 <= fi % 64 < 64,
        fi == 64 * (fi / 64) + fi % 64,
        0 <= fi / 512 < 0x8000,
        512 * (fi / 512) <= fi < 512 * (fi / 512) + 512,
        fi / 512 == (fi / 64) / 8,
{
    vstd::arithmetic::div_mod::lemma_fundamental_div_mod(fi, 64);
    vstd::arithmetic::div_mod::lemma_mod_bound(fi, 64);
    vstd::arithmetic::div_mod::lemma_fundamental_div_mod(fi, 512);
    vstd::arithmetic::div_mod::lemma_mod_bound(fi, 512);
    vstd::arithmetic::div_mod::lemma_div_denominator(fi, 64, 8);
}

/// Two bitmaps that agree on a whole region agree on its summary.
pub proof fn lemma_region_used_congruence(s1: Seq<u64>, s2: Seq<u64>, j: int)
    requires
        forall|i: int| 512 * j <= i < 512 * j + 512 ==> (seq_bit(s1, i) <==> seq_bit(s2, i)),
    ensures
        region_used(s1, j) == region_used(s2, j),
{
    if region_used(s1, j) {
        let i = choose|i: int| 512 * j <= i < 512 * j + 512 && seq_bit(s1, i);
        assert(seq_bit(s2, i));
    }
    if region_used(s2, j) {
        let i = choose|i: int| 512 * j <= i < 512 * j + 512 && seq_bit(s2, i);
        assert(seq_bit(s1, i));
    }
}

/// The words of large region `bj` hold exactly its 512 small-frame bits.
pub proof fn lemma_region_words(s: Seq<u64>, bj: int)
    requires
        s.len() == 0x4_0000,
        0 <= bj < 0x8000,
    ensures
        forall|i: int|
            512 * bj <= i < 512 * bj + 512 ==> 8 * bj <= #[trigger] (i / 64) < 8 * bj + 8,
        forall|w: int, k: int|
            8 * bj <= w < 8 * bj + 8 && 0 <= k < 64 ==> 512 * bj <= #[trigger] (64 * w + k) < 512
                * bj + 512,
{
    assert forall|i: int| 512 * bj <= i < 512 * bj + 512 implies 8 * bj <= #[trigger] (i / 64) < 8
        * bj + 8 by {
        vstd::arithmetic::div_mod::lemma_fundamental_div_mod(i, 64);
        vstd::arithmetic::div_mod::lemma_mod_bound(i, 64);
    }
}

/// If a whole region's words are zero, no bit of the region is set; if
/// the region has no set bit, its words are zero.
pub proof fn lemma_region_zero_words(s: Seq<u64>, bj: int)
    requires
        s.len() == 0x4_0000,
        0 <= bj < 0x8000,
    ensures
        (forall|w: int| 8 * bj <= w < 8 * bj + 8 ==> s[w] == 0) <==> !region_used(s, bj),
{
    lemma_region_words(s, bj);
    if forall|w: int| 8 * bj <= w < 8 * bj + 8 ==> s[w] == 0 {
        if region_used(s, bj) {
            let i = choose|i: int| 512 * bj <= i < 512 * bj + 512 && seq_bit(s, i);
            vstd::arithmetic::div_mod::lemma_fundamental_div_mod(i, 64);
            vstd::arithmetic::div_mod::lemma_mod_bound(i, 64);
            assert(s[i / 64] == 0);
            lemma_zero_word_bits(s[i / 64]);
            assert(!bit_at(s[i / 64], i % 64)) by {
                assert((s[i / 64] >> ((i % 64) as u64)) & 1u64 == 0u64);
            }
        }
    }
    if !region_used(s, bj) {
        assert forall|w: int| 8 * bj <= w < 8 * bj + 8 implies s[w] == 0 by {
            if s[w] != 0 {
                lemma_zero_word_bits(s[w]);
                let j = choose|j: u64| j < 64 && (s[w] >> j) & 1u64 == 1u64;
                let i = 64 * w + j as int;
                assert(512 * bj <= i < 512 * bj + 512);
                vstd::arithmetic::div_mod::lemma_fundamental_div_mod_converse(
                    i,
                    64,
                    w,
                    j as int,
                );
                assert(seq_bit(s, i));
            }
        }
    }
}

impl BitmapFrameAllocator {
    /// Zero bits of one bitmap word, counted at run time.
    fn word_zero_count(w: u64) -> (r: u64)
        ensures
            r == word_zeros(w),
    {
        let mut count: u64 = 0;
        let mut k: u64 = 0;
        while k < 64
            invariant
                k <= 64,
                count == crate::bits::zeros_below(w, k as int),
            decreases 64 - k,
        {
            proof {
                crate::bits::lemma_zeros_below_bounds(w, k as int);
            }
            if (w >> k) & 1u64 != 1u64 {
                count = count + 1;
            }
            k = k + 1;
        }
        count
    }

    /// Recounts the free small frames by walking the bitmap, the
    /// cross-check the incremental counter is verified against.
    pub fn count_free_4k_frames(&self) -> (r: u64)
        requires
            self.wf(),
        ensures
            r == self.free_4k_frames,
    {
        let mut total: u64 = 0;
        let mut w: usize = 0;
        let n = self.four_kilobytes_frames_bitflag.len();
        proof {
            lemma_seq_zeros_bounds(self.small());
        }
        while w < n
            invariant
                w <= n,
                n == self.small().len(),
                self.small().len() == 0x4_0000,
                total == seq_zeros(self.small().take(w as int)),
                total <= 64 * w,
            decreases n - w,
        {
            proof {
                assert(self.small().take(w as int + 1).drop_last() =~= self.small().take(
                    w as int,
                ));
                lemma_seq_zeros_bounds(self.small().take(w as int));
                lemma_word_zeros_full(self.small()[w as int]);
            }
            total = total + Self::word_zero_count(self.four_kilobytes_frames_bitflag[w]);
            w = w + 1;
        }
        proof {
            assert(self.small().take(n as int) =~= self.small());
        }
        total
    }

    /// Recounts the free large regions by walking the summary bitmap.
    pub fn count_free_2m_frames(&self) -> (r: u64)
        requires
            self.wf(),
        ensures
            r == self.free_2m_frames,
    {
        let mut total: u64 = 0;
        let mut w: usize = 0;
        let n = self.two_megabyte_frames_bitflag.len();
        proof {
            lemma_seq_zeros_bounds(self.large());
        }
        while w < n
            invariant
                w <= n,
                n == self.large().len(),
                self.large().len() == 512,
                total == seq_zeros(self.large().take(w as int)),
                total <= 64 * w,
            decreases n - w,
        {
            proof {
                assert(self.large().take(w as int + 1).drop_last() =~= self.large().take(
                    w as int,
                ));
                lemma_seq_zeros_bounds(self.large().take(w as int));
                lemma_word_zeros_full(self.large()[w as int]);
            }
            total = total + Self::word_zero_count(self.two_megabyte_frames_bitflag[w]);
            w = w + 1;
        }
        proof {
            assert(self.large().take(n as int) =~= self.large());
        }
        total
    }
}

impl BitmapFrameAllocator {
    /// Marks the frame at `start_address` as used, at either granularity.
    /// An address beyond the tracked 64 GiB is rejected as a no-op; marking
    /// a frame that is already used is a caller error and ruled out.
    #[verifier::rlimit(80)]
    pub fn set_used_lock(&mut self, start_address: u64, size: u64) -> (r: Option<()>)
        requires
            old(self).wf(),
            size == 4096 || size == 0x20_0000,
            size == 4096 ==> (start_address / 4096 < 0x100_0000 ==> !old(self).small_bit(
                start_address as int / 4096,
            )),
            size == 0x20_0000 ==> (start_address / 0x20_0000 < 0x8000 ==> !old(self).large_bit(
                start_address as int / 0x20_0000,
            )),
        ensures
            final(self).wf(),
            final(self).same_totals(old(self)),
            size == 4096 ==> (if start_address / 4096 < 0x100_0000 {
                r == Some(()) && mark_used_4k(
                    *old(self),
                    *final(self),
                    start_address as int / 4096,
                )
            } else {
                r == None::<()> && *final(self) == *old(self)
            }),
            size == 0x20_0000 ==> (if start_address / 0x20_0000 < 0x8000 {
                r == Some(()) && mark_used_2m(
                    *old(self),
                    *final(self),
                    start_address as int / 0x20_0000,
                )
            } else {
                r == None::<()> && *final(self) == *old(self)
            }),
    {
        let ghost pre = *old(self);
        if size == SIZE_2M {
            // Align to 2M frame.
            let two_mega = start_address >> 21;
            proof {
                lemma_shift_div(start_address);
            }
            // The index in the bitflags
            let index64 = two_mega >> 6;
            proof {
                lemma_shift_div(two_mega);
                vstd::arithmetic::div_mod::lemma_fundamental_div_mod(two_mega as int, 64);
                vstd::arithmetic::div_mod::lemma_mod_bound(two_mega as int, 64);
            }
            if index64 >= 512 {
                return None;
            }
            let index = index64 as usize;
            let bit = two_mega & 63;
            let ghost bj = two_mega as int;

            // We set the flag for the frame to 1
            let value = self.two_megabyte_frames_bitflag[index];
            let new_value = value | (1u64 << bit);
            proof {
                lemma_frame_indices_2m(bj);
                lemma_seq_bit_set(pre.large(), bj);
                lemma_seq_zeros_at_least_word(pre.large(), bj / 64);
                lemma_zeros_below_pos(value, bj % 64, 64);
            }
            self.two_megabyte_frames_bitflag.set(index, new_value);
            let ghost large_post = self.large();
            proof {
                assert(seq_bit(large_post, bj));
                assert(seq_zeros(large_post) == seq_zeros(pre.large()) - 1);
                lemma_region_zero_words(pre.small(), bj);
                assert(!region_used(pre.small(), bj));
                lemma_region_words(pre.small(), bj);
            }

            // Now we need to set all the 4K frames in this 2M frame as used.
            let four_kilo_index = (two_mega << 3) as usize;
            proof {
                lemma_shift_mul(two_mega);
            }
            let mut t: usize = 0;
            while t < 8
                invariant
                    t <= 8,
                    0 <= bj < 0x8000,
                    four_kilo_index == 8 * bj,
                    self.four_kilobytes_frames_bitflag@.len() == 0x4_0000,
                    forall|w: int|
                        8 * bj <= w < 8 * bj + t ==> self.small()[w] == u64::MAX,
                    forall|w: int|
                        0 <= w < 0x4_0000 && !(8 * bj <= w < 8 * bj + t)
                            ==> self.small()[w] == pre.small()[w],
                    forall|w: int| 8 * bj <= w < 8 * bj + 8 ==> pre.small()[w] == 0,
                    seq_zeros(self.small()) == seq_zeros(pre.small()) - 64 * t,
                    self.two_megabyte_frames_bitflag@ == large_post,
                    self.free_2m_frames == pre.free_2m_frames,
                    self.free_4k_frames == pre.free_4k_frames,
                    self.next_free_2m_frame_guess == pre.next_free_2m_frame_guess,
                    self.next_free_4k_frame_guess == pre.next_free_4k_frame_guess,
                    self.same_totals(&pre),
                decreases 8 - t,
            {
                let ghost before = self.small();
                proof {
                    assert(before[8 * bj + t] == pre.small()[8 * bj + t]);
                    assert(before[8 * bj + t] == 0);
                    lemma_word_zeros_zero(before[8 * bj + t]);
                    assert(word_zeros(before[8 * bj + t]) == 64);
                    lemma_word_zeros_full(u64::MAX);
                    assert(word_zeros(u64::MAX) == 0);
                    lemma_seq_zeros_update(before, 8 * bj + t, u64::MAX);
                }
                self.four_kilobytes_frames_bitflag.set(four_kilo_index + t, u64::MAX);
                proof {
                    assert(self.small() == before.update(8 * bj + t, u64::MAX));
                    assert(seq_zeros(self.small()) == seq_zeros(before) - 64);
                }
                t = t + 1;
            }

            proof {
                lemma_seq_zeros_bounds(self.small());
            }
            self.free_2m_frames = self.free_2m_frames - 1;
            self.free_4k_frames = self.free_4k_frames - 512;

            if self.two_megabyte_frames_bitflag[index] == u64::MAX
                && self.next_free_2m_frame_guess == index {
                self.next_free_2m_frame_guess = index + 1;
            }
            if four_kilo_index <= self.next_free_4k_frame_guess
                && self.next_free_4k_frame_guess < four_kilo_index + 8 {
                self.next_free_4k_frame_guess = four_kilo_index + 8;
            }

            proof {
                lemma_mark_used_2m_post(pre, *self, bj, large_post);
            }
            Some(())
        } else {
            // Align to 4K frame.
            let fi = start_address >> 12;
            proof {
                lemma_shift_div(start_address);
            }
            // The index in the bitflags
            let index64 = fi >> 6;
            proof {
                lemma_shift_div(fi);
                vstd::arithmetic::div_mod::lemma_fundamental_div_mod(fi as int, 64);
                vstd::arithmetic::div_mod::lemma_mod_bound(fi as int, 64);
            }
            if index64 >= 0x4_0000 {
                return None;
            }
            let index = index64 as usize;
            let bit = fi & 63;

            // We set the flag for the frame to 1
            let value = self.four_kilobytes_frames_bitflag[index];
            let new_value = value | (1u64 << bit);
            proof {
                lemma_frame_indices(fi as int);
                lemma_seq_bit_set(pre.small(), fi as int);
                lemma_seq_zeros_at_least_word(pre.small(), fi as int / 64);
                lemma_zeros_below_pos(value, fi as int % 64, 64);
            }
            self.four_kilobytes_frames_bitflag.set(index, new_value);
            let ghost small_post = self.small();

            // Now we need to set the 2M frame as used
            let two_mega = fi >> 9;
            proof {
                lemma_shift_div(fi);
                lemma_shift_div(two_mega);
                vstd::arithmetic::div_mod::lemma_fundamental_div_mod(two_mega as int, 64);
                vstd::arithmetic::div_mod::lemma_mod_bound(two_mega as int, 64);
            }
            let ghost bj = fi as int / 512;
            let two_mega_index = (two_mega >> 6) as usize;
            let two_bit = two_mega & 63;
            let bvalue = self.two_megabyte_frames_bitflag[two_mega_index];
            let bnew = bvalue | (1u64 << two_bit);
            proof {
                lemma_seq_bit_set(pre.large(), bj);
                if seq_bit(pre.large(), bj) {
                    crate::bits::lemma_set_bit(bvalue, bnew, (bj % 64) as u64);
                    lemma_bits_extensional(bnew, bvalue);
                } else {
                    lemma_seq_zeros_at_least_word(pre.large(), bj / 64);
                    lemma_zeros_below_pos(bvalue, bj % 64, 64);
                }
            }
            if bvalue != bnew {
                self.free_2m_frames = self.free_2m_frames - 1;
            }
            self.two_megabyte_frames_bitflag.set(two_mega_index, bnew);

            self.free_4k_frames = self.free_4k_frames - 1;

            if self.four_kilobytes_frames_bitflag[index] == u64::MAX
                && self.next_free_4k_frame_guess == index {
                self.next_free_4k_frame_guess = index + 1;
            }

            proof {
                lemma_mark_used_4k_post(pre, *self, fi as int, small_post);
            }
            Some(())
        }
    }
}

impl BitmapFrameAllocator {
    /// Marks the frame at `start_address` as unused again. An address
    /// beyond the tracked 64 GiB is rejected as a no-op; freeing a frame
    /// that is already free, or one inside the reserved DMA band, is a
    /// caller error and ruled out.
    #[verifier::rlimit(80)]
    pub fn set_unused_lock(&mut self, start_address: u64, size: u64) -> (r: Option<()>)
        requires
            old(self).wf(),
            size == 4096 || size == 0x20_0000,
            size == 4096 ==> (start_address / 4096 < 0x100_0000 ==> (old(self).small_bit(
                start_address as int / 4096,
            ) && start_address / 4096 >= 4096)),
            size == 0x20_0000 ==> (start_address / 0x20_0000 < 0x8000 ==> ((forall|i: int|
                512 * (start_address as int / 0x20_0000) <= i < 512 * (start_address as int
                    / 0x20_0000) + 512 ==> old(self).small_bit(i)) && start_address / 0x20_0000
                >= 8)),
        ensures
            final(self).wf(),
            final(self).same_totals(old(self)),
            size == 4096 ==> (if start_address / 4096 < 0x100_0000 {
                r == Some(()) && mark_unused_4k(
                    *old(self),
                    *final(self),
                    start_address as int / 4096,
                )
            } else {
                r == None::<()> && *final(self) == *old(self)
            }),
            size == 0x20_0000 ==> (if start_address / 0x20_0000 < 0x8000 {
                r == Some(()) && mark_unused_2m(
                    *old(self),
                    *final(self),
                    start_address as int / 0x20_0000,
                )
            } else {
                r == None::<()> && *final(self) == *old(self)
            }),
    {
        let ghost pre = *old(self);
        if size == SIZE_2M {
            // Align to 2M frame.
            let two_mega = start_address >> 21;
            proof {
                lemma_shift_div(start_address);
            }
            // The index in the bitflags
            let index64 = two_mega >> 6;
            proof {
                lemma_shift_div(two_mega);
                vstd::arithmetic::div_mod::lemma_fundamental_div_mod(two_mega as int, 64);
                vstd::arithmetic::div_mod::lemma_mod_bound(two_mega as int, 64);
            }
            if index64 >= 512 {
                return None;
            }
            let index = index64 as usize;
            let bit = two_mega & 63;
            let ghost bj = two_mega as int;

            // We clear the flag for the frame
            let value = self.two_megabyte_frames_bitflag[index];
            let new_value = value & !(1u64 << bit);
            proof {
                lemma_frame_indices_2m(bj);
                lemma_seq_bit_clear(pre.large(), bj);
                // the region is fully occupied, so its summary bit is set
                assert forall|i: int| 512 * bj <= i < 512 * bj + 512 implies seq_bit(
                    pre.small(),
                    i,
                ) by {
                    assert(pre.small_bit(i));
                }
                assert(region_used(pre.small(), bj)) by {
                    assert(seq_bit(pre.small(), 512 * bj));
                }
                assert(seq_bit(pre.large(), bj));
                lemma_region_words_max(pre.small(), bj);
            }
            self.two_megabyte_frames_bitflag.set(index, new_value);
            let ghost large_post = self.large();

            // Now we need to set all the 4K frames in this 2M frame as unused.
            let four_kilo_index = (two_mega << 3) as usize;
            proof {
                lemma_shift_mul(two_mega);
            }
            let mut t: usize = 0;
            while t < 8
                invariant
                    t <= 8,
                    0 <= bj < 0x8000,
                    four_kilo_index == 8 * bj,
                    self.four_kilobytes_frames_bitflag@.len() == 0x4_0000,
                    forall|w: int| 8 * bj <= w < 8 * bj + t ==> self.small()[w] == 0,
                    forall|w: int|
                        0 <= w < 0x4_0000 && !(8 * bj <= w < 8 * bj + t)
                            ==> self.small()[w] == pre.small()[w],
                    forall|w: int| 8 * bj <= w < 8 * bj + 8 ==> pre.small()[w] == u64::MAX,
                    seq_zeros(self.small()) == seq_zeros(pre.small()) + 64 * t,
                    self.two_megabyte_frames_bitflag@ == large_post,
                    self.free_2m_frames == pre.free_2m_frames,
                    self.free_4k_frames == pre.free_4k_frames,
                    self.next_free_2m_frame_guess == pre.next_free_2m_frame_guess,
                    self.next_free_4k_frame_guess == pre.next_free_4k_frame_guess,
                    self.same_totals(&pre),
                decreases 8 - t,
            {
                let ghost before = self.small();
                proof {
                    assert(before[8 * bj + t] == pre.small()[8 * bj + t]);
                    lemma_word_zeros_full(before[8 * bj + t]);
                    lemma_word_zeros_zero(0u64);
                    lemma_seq_zeros_update(before, 8 * bj + t, 0u64);
                }
                self.four_kilobytes_frames_bitflag.set(four_kilo_index + t, 0u64);
                proof {
                    assert(self.small() == before.update(8 * bj + t, 0u64));
                    assert(seq_zeros(self.small()) == seq_zeros(before) + 64);
                }
                t = t + 1;
            }

            if self.next_free_2m_frame_guess > index {
                self.next_free_2m_frame_guess = index;
            }
            if self.next_free_4k_frame_guess > four_kilo_index {
                self.next_free_4k_frame_guess = four_kilo_index;
            }
            proof {
                lemma_seq_zeros_bounds(pre.small());
                lemma_seq_zeros_bounds(pre.large());
            }
            self.free_2m_frames = self.free_2m_frames + 1;
            self.free_4k_frames = self.free_4k_frames + 512;

            proof {
                lemma_mark_unused_2m_post(pre, *self, bj, large_post);
            }
            Some(())
        } else {
            // Align to 4K frame.
            let fi = start_address >> 12;
            proof {
                lemma_shift_div(start_address);
            }
            // The index in the bitflags
            let index64 = fi >> 6;
            proof {
                lemma_shift_div(fi);
                vstd::arithmetic::div_mod::lemma_fundamental_div_mod(fi as int, 64);
                vstd::arithmetic::div_mod::lemma_mod_bound(fi as int, 64);
            }
            if index64 >= 0x4_0000 {
                return None;
            }
            let index = index64 as usize;
            let bit = fi & 63;

            // We clear the flag for the frame
            let value = self.four_kilobytes_frames_bitflag[index];
            let new_value = value & !(1u64 << bit);
            proof {
                lemma_frame_indices(fi as int);
                lemma_seq_bit_clear(pre.small(), fi as int);
            }
            self.four_kilobytes_frames_bitflag.set(index, new_value);
            let ghost small_post = self.small();

            // If all the 4K frames in the 2M frame are unused, we need to
            // clear the 2M frame's summary bit as well
            let two_mega = fi >> 9;
            proof {
                lemma_shift_div(fi);
                lemma_shift_div(two_mega);
                vstd::arithmetic::div_mod::lemma_fundamental_div_mod(two_mega as int, 64);
                vstd::arithmetic::div_mod::lemma_mod_bound(two_mega as int, 64);
                lemma_shift_mul(two_mega);
            }
            let ghost bj = fi as int / 512;
            let four_kilo_region = (two_mega << 3) as usize;
            let mut all_zero = true;
            let mut t: usize = 0;
            while t < 8
                invariant
                    t <= 8,
                    0 <= bj < 0x8000,
                    four_kilo_region == 8 * bj,
                    self.four_kilobytes_frames_bitflag@ == small_post,
                    small_post.len() == 0x4_0000,
                    all_zero <==> (forall|w: int| 8 * bj <= w < 8 * bj + t ==> small_post[w] == 0),
                decreases 8 - t,
            {
                if self.four_kilobytes_frames_bitflag[four_kilo_region + t] != 0u64 {
                    all_zero = false;
                }
                t = t + 1;
            }
            proof {
                lemma_region_zero_words(small_post, bj);
            }
            if all_zero {
                let two_mega_index = (two_mega >> 6) as usize;
                let two_bit = two_mega & 63;
                let bvalue = self.two_megabyte_frames_bitflag[two_mega_index];
                let bnew = bvalue & !(1u64 << two_bit);
                proof {
                    lemma_seq_bit_clear(pre.large(), bj);
                    assert(region_used(pre.small(), bj)) by {
                        assert(seq_bit(pre.small(), fi as int));
                        assert(512 * bj <= (fi as int) < 512 * bj + 512);
                    }
                    assert(seq_bit(pre.large(), bj));
                    lemma_seq_zeros_bounds(pre.large());
                }
                self.two_megabyte_frames_bitflag.set(two_mega_index, bnew);
                if self.next_free_2m_frame_guess > two_mega_index {
                    self.next_free_2m_frame_guess = two_mega_index;
                }
                if bvalue != bnew {
                    self.free_2m_frames = self.free_2m_frames + 1;
                }
            }
            if self.next_free_4k_frame_guess > index {
                self.next_free_4k_frame_guess = index;
            }
            proof {
                lemma_seq_zeros_bounds(pre.small());
            }
            self.free_4k_frames = self.free_4k_frames + 1;

            proof {
                lemma_mark_unused_4k_post(pre, *self, fi as int, small_post);
            }
            Some(())
        }
    }
}

impl BitmapFrameAllocator {
    /// Returns the next usable frame of the requested size: first-fit by
    /// bit order, never from the DMA band, or nothing exactly when no
    /// frame of that size is free. Only the 4 KiB and 2 MiB sizes exist.
    #[verifier::rlimit(80)]
    pub fn allocate_frame(&mut self, size: u64) -> (r: Option<u64>)
        requires
            old(self).wf(),
            size == 4096 || size == 0x20_0000,
        ensures
            final(self).wf(),
            final(self).same_totals(old(self)),
            size == 4096 ==> match r {
                Some(address) => {
                    &&& old(self).free_4k_frames > 0
                    &&& first_free(old(self).small(), address as int / 4096)
                    &&& address % 4096 == 0
                    &&& 0x100_0000 <= address < 0x10_0000_0000
                    &&& mark_used_4k(*old(self), *final(self), address as int / 4096)
                },
                None => {
                    &&& old(self).free_4k_frames == 0
                    &&& *final(self) == *old(self)
                },
            },
            size == 0x20_0000 ==> match r {
                Some(address) => {
                    &&& old(self).free_2m_frames > 0
                    &&& first_free(old(self).large(), address as int / 0x20_0000)
                    &&& address % 0x20_0000 == 0
                    &&& 0x100_0000 <= address < 0x10_0000_0000
                    &&& mark_used_2m(*old(self), *final(self), address as int / 0x20_0000)
                },
                None => {
                    &&& old(self).free_2m_frames == 0
                    &&& *final(self) == *old(self)
                },
            },
    {
        if size == SIZE_2M {
            // We go through the 2M frame flags and find the first one with
            // a free slot
            let mut w: usize = self.next_free_2m_frame_guess;
            while w < 512 && self.two_megabyte_frames_bitflag[w] == u64::MAX
                invariant
                    w <= 512,
                    *self == *old(self),
                    self.wf(),
                    forall|w2: int| 0 <= w2 < w ==> self.large()[w2] == u64::MAX,
                decreases 512 - w,
            {
                w = w + 1;
            }
            if w >= 512 {
                proof {
                    lemma_seq_zeros_zero_iff_full(self.large());
                }
                return None;
            }
            // We get the position of the free 2M frame
            let flag = self.two_megabyte_frames_bitflag[w];
            let t = flag.trailing_ones() as usize;
            proof {
                vstd::std_specs::bits::axiom_u64_trailing_ones(flag);
                lemma_seq_zeros_at_least_word(self.large(), w as int);
                lemma_zeros_below_pos(flag, flag.trailing_ones() as int, 64);
            }
            proof {
                lemma_shift_mul(w as u64);
            }
            let free_2m_frame: u64 = (t as u64) + ((w as u64) << 6);
            let ghost bj = free_2m_frame as int;
            proof {
                vstd::arithmetic::div_mod::lemma_fundamental_div_mod_converse(
                    bj,
                    64,
                    w as int,
                    t as int,
                );
                // everything below is occupied, so this is the first free
                // region, and it lies above the DMA band
                assert forall|j: int| 0 <= j < bj implies seq_bit(self.large(), j) by {
                    vstd::arithmetic::div_mod::lemma_fundamental_div_mod(j, 64);
                    vstd::arithmetic::div_mod::lemma_mod_bound(j, 64);
                    if j / 64 < w {
                        lemma_full_word_bits(self.large()[j / 64]);
                        assert((self.large()[j / 64] >> ((j % 64) as u64)) & 1u64 == 1u64);
                    } else {
                        assert(j / 64 == w && j % 64 < t);
                        assert((flag >> ((j % 64) as u64)) & 1u64 == 1u64);
                    }
                }
                assert(!seq_bit(self.large(), bj)) by {
                    assert((flag >> (t as u64)) & 1u64 == 0u64);
                }
                assert(bj >= 8) by {
                    if bj < 8 {
                        assert(seq_bit(self.small(), 512 * bj));
                        assert(region_used(self.small(), bj));
                    }
                }
            }
            // We pull the hint up to the word we stopped at
            self.next_free_2m_frame_guess = w;
            // We calculate the 2M frame address and mark it used
            let frame_address = free_2m_frame << 21;
            proof {
                lemma_shift_mul(free_2m_frame);
                vstd::arithmetic::div_mod::lemma_fundamental_div_mod_converse(
                    frame_address as int,
                    0x20_0000,
                    bj,
                    0,
                );
            }
            self.set_used_lock(frame_address, SIZE_2M)?;
            Some(frame_address)
        } else {
            // We go through all the 4K frames and find the first free one
            let mut w: usize = self.next_free_4k_frame_guess;
            while w < 0x4_0000 && self.four_kilobytes_frames_bitflag[w] == u64::MAX
                invariant
                    w <= 0x4_0000,
                    *self == *old(self),
                    self.wf(),
                    forall|w2: int| 0 <= w2 < w ==> self.small()[w2] == u64::MAX,
                decreases 0x4_0000 - w,
            {
                w = w + 1;
            }
            if w >= 0x4_0000 {
                proof {
                    lemma_seq_zeros_zero_iff_full(self.small());
                }
                return None;
            }
            // We get the position of the free 4K frame
            let flag = self.four_kilobytes_frames_bitflag[w];
            let t = flag.trailing_ones() as usize;
            proof {
                vstd::std_specs::bits::axiom_u64_trailing_ones(flag);
                lemma_seq_zeros_at_least_word(self.small(), w as int);
                lemma_zeros_below_pos(flag, flag.trailing_ones() as int, 64);
            }
            proof {
                lemma_shift_mul(w as u64);
            }
            let free_4k_frame: u64 = (t as u64) + ((w as u64) << 6);
            let ghost fi = free_4k_frame as int;
            proof {
                vstd::arithmetic::div_mod::lemma_fundamental_div_mod_converse(
                    fi,
                    64,
                    w as int,
                    t as int,
                );
                // everything below is occupied, so this is the first free
                // frame, and it lies above the DMA band
                assert forall|i: int| 0 <= i < fi implies seq_bit(self.small(), i) by {
                    vstd::arithmetic::div_mod::lemma_fundamental_div_mod(i, 64);
                    vstd::arithmetic::div_mod::lemma_mod_bound(i, 64);
                    if i / 64 < w {
                        lemma_full_word_bits(self.small()[i / 64]);
                        assert((self.small()[i / 64] >> ((i % 64) as u64)) & 1u64 == 1u64);
                    } else {
                        assert(i / 64 == w && i % 64 < t);
                        assert((flag >> ((i % 64) as u64)) & 1u64 == 1u64);
                    }
                }
                assert(!seq_bit(self.small(), fi)) by {
                    assert((flag >> (t as u64)) & 1u64 == 0u64);
                }
                assert(fi >= 4096);
            }
            // We pull the hint up to the word we stopped at
            self.next_free_4k_frame_guess = w;
            // We calculate the 4K frame address and mark it used
            let frame_address = free_4k_frame << 12;
            proof {
                lemma_shift_mul(free_4k_frame);
                vstd::arithmetic::div_mod::lemma_fundamental_div_mod_converse(
                    frame_address as int,
                    4096,
                    fi,
                    0,
                );
            }
            self.set_used_lock(frame_address, SIZE_4K)?;
            Some(frame_address)
        }
    }

    /// Releases the frame at `address` again. The caller hands back a
    /// frame as obtained from `allocate_frame`: a whole frame above the
    /// DMA band, currently marked used. An address beyond the tracked
    /// 64 GiB is accepted and ignored.
    pub fn deallocate_frame(&mut self, address: u64, size: u64)
        requires
            old(self).wf(),
            size == 4096 || size == 0x20_0000,
            size == 4096 ==> (address / 4096 < 0x100_0000 ==> (old(self).small_bit(
                address as int / 4096,
            ) && address / 4096 >= 4096)),
            size == 0x20_0000 ==> (address / 0x20_0000 < 0x8000 ==> ((forall|i: int|
                512 * (address as int / 0x20_0000) <= i < 512 * (address as int / 0x20_0000) + 512
                    ==> old(self).small_bit(i)) && address / 0x20_0000 >= 8)),
        ensures
            final(self).wf(),
            final(self).same_totals(old(self)),
            size == 4096 ==> (if address / 4096 < 0x100_0000 {
                mark_unused_4k(*old(self), *final(self), address as int / 4096)
            } else {
                *final(self) == *old(self)
            }),
            size == 0x20_0000 ==> (if address / 0x20_0000 < 0x8000 {
                mark_unused_2m(*old(self), *final(self), address as int / 0x20_0000)
            } else {
                *final(self) == *old(self)
            }),
    {
        let _ = self.set_unused_lock(address, size);
    }
}

/// A region whose 512 small bits are all set consists of all-ones words.
pub proof fn lemma_region_words_max(s: Seq<u64>, bj: int)
    requires
        s.len() == 0x4_0000,
        0 <= bj < 0x8000,
        forall|i: int| 512 * bj <= i < 512 * bj + 512 ==> seq_bit(s, i),
    ensures
        forall|w: int| 8 * bj <= w < 8 * bj + 8 ==> s[w] == u64::MAX,
{
    lemma_region_words(s, bj);
    assert forall|w: int| 8 * bj <= w < 8 * bj + 8 implies s[w] == u64::MAX by {
        assert forall|j: u64| j < 64 implies (s[w] >> j) & 1u64 == 1u64 by {
            let i = 64 * w + j as int;
            assert(512 * bj <= i < 512 * bj + 512);
            assert(seq_bit(s, i));
            vstd::arithmetic::div_mod::lemma_fundamental_div_mod_converse(i, 64, w, j as int);
        }
        lemma_full_word_bits(u64::MAX);
        lemma_bits_extensional(s[w], u64::MAX);
    }
}

/// Re-establishes well-formedness and the transition relation after a
/// 4 KiB mark-unused, given the word-level updates already in place.
proof fn lemma_mark_unused_4k_post(
    pre: BitmapFrameAllocator,
    post: BitmapFrameAllocator,
    fi: int,
    small_post: Seq<u64>,
)
    requires
        pre.wf(),
        4096 <= fi < 0x100_0000,
        seq_bit(pre.small(), fi),
        post.small() == small_post,
        small_post == pre.small().update(
            fi / 64,
            pre.small()[fi / 64] & !(1u64 << ((fi % 64) as u64)),
        ),
        !region_used(small_post, fi / 512) ==> {
            &&& post.large() == pre.large().update(
                (fi / 512) / 64,
                pre.large()[(fi / 512) / 64] & !(1u64 << (((fi / 512) % 64) as u64)),
            )
            &&& post.free_2m_frames == pre.free_2m_frames + 1
            &&& post.next_free_2m_frame_guess == (if pre.next_free_2m_frame_guess > (fi / 512)
                / 64 {
                (fi / 512) / 64
            } else {
                pre.next_free_2m_frame_guess as int
            })
        },
        region_used(small_post, fi / 512) ==> {
            &&& post.large() == pre.large()
            &&& post.free_2m_frames == pre.free_2m_frames
            &&& post.next_free_2m_frame_guess == pre.next_free_2m_frame_guess
        },
        post.free_4k_frames == pre.free_4k_frames + 1,
        post.next_free_4k_frame_guess == (if pre.next_free_4k_frame_guess > fi / 64 {
            fi / 64
        } else {
            pre.next_free_4k_frame_guess as int
        }),
        post.same_totals(&pre),
    ensures
        post.wf(),
        mark_unused_4k(pre, post, fi),
{
    lemma_frame_indices(fi);
    let bj = fi / 512;
    lemma_frame_indices_2m(bj);
    lemma_seq_bit_clear(pre.small(), fi);
    assert(seq_zeros(post.small()) == seq_zeros(pre.small()) + 1);
    assert(region_used(pre.small(), bj)) by {
        assert(512 * bj <= fi < 512 * bj + 512);
    }
    assert(seq_bit(pre.large(), bj));
    if !region_used(small_post, bj) {
        lemma_seq_bit_clear(pre.large(), bj);
    }
    // regions other than the freed one keep their bits and their summary
    assert forall|j: int| 0 <= j < 0x8000 && j != bj implies (#[trigger] seq_bit(post.large(), j)
        <==> seq_bit(pre.large(), j)) by {
        if !region_used(small_post, bj) {
            lemma_seq_bit_clear(pre.large(), bj);
        }
    }
    assert forall|j: int| 0 <= j < 0x8000 implies (#[trigger] seq_bit(post.large(), j)
        <==> region_used(post.small(), j)) by {
        if j == bj {
            if !region_used(small_post, bj) {
                lemma_seq_bit_clear(pre.large(), bj);
                assert(!seq_bit(post.large(), bj));
            } else {
                assert(seq_bit(post.large(), bj) <==> seq_bit(pre.large(), bj));
            }
        } else {
            assert forall|i: int| 512 * j <= i < 512 * j + 512 implies (seq_bit(post.small(), i)
                <==> seq_bit(pre.small(), i)) by {
                if i == fi {
                    vstd::arithmetic::div_mod::lemma_fundamental_div_mod_converse(
                        fi,
                        512,
                        j,
                        fi - 512 * j,
                    );
                }
            }
            lemma_region_used_congruence(post.small(), pre.small(), j);
        }
    }
    // the hints only ever move down here, onto words whose state they
    // already bounded
    assert forall|w: int| 0 <= w < post.next_free_4k_frame_guess implies post.small()[w]
        == u64::MAX by {
        assert(w < pre.next_free_4k_frame_guess);
        assert(w < fi / 64);
        assert(post.small()[w] == pre.small()[w]);
    }
    assert forall|w: int| 0 <= w < post.next_free_2m_frame_guess implies post.large()[w]
        == u64::MAX by {
        if !region_used(small_post, bj) {
            assert(w < pre.next_free_2m_frame_guess);
            assert(w < bj / 64);
            assert(post.large()[w] == pre.large()[w]);
        }
    }
    // the DMA band lies below any frame this call may free
    assert forall|i: int| 0 <= i < 4096 implies seq_bit(post.small(), i) by {
        assert(seq_bit(pre.small(), i));
    }
}

/// Re-establishes well-formedness and the transition relation after a
/// 2 MiB mark-unused, given the word-level updates already in place.
proof fn lemma_mark_unused_2m_post(
    pre: BitmapFrameAllocator,
    post: BitmapFrameAllocator,
    bj: int,
    large_post: Seq<u64>,
)
    requires
        pre.wf(),
        8 <= bj < 0x8000,
        forall|i: int| 512 * bj <= i < 512 * bj + 512 ==> seq_bit(pre.small(), i),
        post.large() == large_post,
        large_post == pre.large().update(
            bj / 64,
            pre.large()[bj / 64] & !(1u64 << ((bj % 64) as u64)),
        ),
        post.small().len() == 0x4_0000,
        forall|w: int| 8 * bj <= w < 8 * bj + 8 ==> post.small()[w] == 0,
        forall|w: int|
            0 <= w < 0x4_0000 && !(8 * bj <= w < 8 * bj + 8) ==> post.small()[w] == pre.small()[w],
        post.free_4k_frames == pre.free_4k_frames + 512,
        post.free_2m_frames == pre.free_2m_frames + 1,
        seq_zeros(post.small()) == seq_zeros(pre.small()) + 512,
        post.next_free_2m_frame_guess == (if pre.next_free_2m_frame_guess > bj / 64 {
            bj / 64
        } else {
            pre.next_free_2m_frame_guess as int
        }),
        post.next_free_4k_frame_guess == (if pre.next_free_4k_frame_guess > 8 * bj {
            8 * bj
        } else {
            pre.next_free_4k_frame_guess as int
        }),
        post.same_totals(&pre),
    ensures
        post.wf(),
        mark_unused_2m(pre, post, bj),
{
    lemma_frame_indices_2m(bj);
    lemma_seq_bit_clear(pre.large(), bj);
    assert(region_used(pre.small(), bj)) by {
        assert(seq_bit(pre.small(), 512 * bj));
    }
    assert(seq_bit(pre.large(), bj));
    lemma_region_words(pre.small(), bj);
    // every small bit: cleared inside the region, untouched outside
    assert forall|i: int| 0 <= i < 0x100_0000 implies (#[trigger] seq_bit(post.small(), i)
        <==> (seq_bit(pre.small(), i) && !(512 * bj <= i < 512 * bj + 512))) by {
        vstd::arithmetic::div_mod::lemma_fundamental_div_mod(i, 64);
        vstd::arithmetic::div_mod::lemma_mod_bound(i, 64);
        if 512 * bj <= i < 512 * bj + 512 {
            assert(8 * bj <= i / 64 < 8 * bj + 8);
            assert(post.small()[i / 64] == 0);
            lemma_zero_word_bits(post.small()[i / 64]);
            assert((post.small()[i / 64] >> ((i % 64) as u64)) & 1u64 == 0u64);
        } else {
            assert(!(8 * bj <= i / 64 < 8 * bj + 8)) by {
                if 8 * bj <= i / 64 < 8 * bj + 8 {
                    assert(512 * bj <= 64 * (i / 64) + i % 64 < 512 * bj + 512);
                }
            }
            assert(post.small()[i / 64] == pre.small()[i / 64]);
        }
    }
    // the summary relation at every region
    assert forall|j: int| 0 <= j < 0x8000 implies (#[trigger] seq_bit(post.large(), j)
        <==> region_used(post.small(), j)) by {
        if j == bj {
            assert(!seq_bit(post.large(), bj));
            if region_used(post.small(), bj) {
                let i = choose|i: int|
                    512 * bj <= i < 512 * bj + 512 && seq_bit(post.small(), i);
                assert(false);
            }
        } else {
            assert forall|i: int| 512 * j <= i < 512 * j + 512 implies (seq_bit(post.small(), i)
                <==> seq_bit(pre.small(), i)) by {
                if 512 * bj <= i < 512 * bj + 512 {
                    vstd::arithmetic::div_mod::lemma_fundamental_div_mod_converse(
                        i,
                        512,
                        j,
                        i - 512 * j,
                    );
                    vstd::arithmetic::div_mod::lemma_fundamental_div_mod_converse(
                        i,
                        512,
                        bj,
                        i - 512 * bj,
                    );
                }
            }
            lemma_region_used_congruence(post.small(), pre.small(), j);
        }
    }
    // the hints only move down
    assert forall|w: int| 0 <= w < post.next_free_2m_frame_guess implies post.large()[w]
        == u64::MAX by {
        assert(w < pre.next_free_2m_frame_guess);
        assert(w < bj / 64);
        assert(post.large()[w] == pre.large()[w]);
    }
    assert forall|w: int| 0 <= w < post.next_free_4k_frame_guess implies post.small()[w]
        == u64::MAX by {
        assert(w < pre.next_free_4k_frame_guess);
        assert(w < 8 * bj);
        assert(post.small()[w] == pre.small()[w]);
    }
    // the DMA band lies below any region this call may free
    assert forall|i: int| 0 <= i < 4096 implies seq_bit(post.small(), i) by {
        assert(seq_bit(pre.small(), i));
        assert(!(512 * bj <= i < 512 * bj + 512));
    }
}

/// First 4 KiB frame at or after the start of a region.
pub open spec fn region_first_frame(reg: MemoryRegion) -> int {
    (reg.start + 4095) / 4096
}

/// One past the last 4 KiB frame that lies wholly inside a region.
pub open spec fn region_end_frame(reg: MemoryRegion) -> int {
    reg.end as int / 4096
}

/// Frame `i` lies in the walked range of a usable region.
pub open spec fn region_covers_frame(reg: MemoryRegion, i: int) -> bool {
    &&& reg.kind == MemoryRegionKind::Usable
    &&& region_first_frame(reg) <= i < region_end_frame(reg)
}

/// Frame `i` is freed by the boot walk over the first `n` regions: it lies
/// above the DMA band and inside some usable region's range.
pub open spec fn frame_freed_by_map(regions: Seq<MemoryRegion>, n: int, i: int) -> bool {
    &&& 4096 <= i
    &&& exists|r: int| 0 <= r < n && #[trigger] region_covers_frame(regions[r], i)
}

/// After clamping its start up to the DMA boundary, the region still holds
/// both bitmap blocks.
pub open spec fn boot_region_fits(reg: MemoryRegion) -> bool {
    let start = if reg.start < 0x100_0000 {
        0x100_0000int
    } else {
        reg.start as int
    };
    let end = if (reg.end as int) < start {
        start
    } else {
        reg.end as int
    };
    end - start >= 0x20_1000
}

/// `r` is the first usable region large enough to host both bitmaps.
pub open spec fn is_boot_region(regions: Seq<MemoryRegion>, r: int) -> bool {
    &&& 0 <= r < regions.len()
    &&& regions[r].kind == MemoryRegionKind::Usable
    &&& boot_region_fits(regions[r])
    &&& forall|q: int|
        0 <= q < r ==> !((#[trigger] regions[q]).kind == MemoryRegionKind::Usable
            && boot_region_fits(regions[q]))
}

/// The index of the bootstrap region.
pub open spec fn boot_region_choice(regions: Seq<MemoryRegion>) -> int {
    choose|r: int| is_boot_region(regions, r)
}

/// Where allocation for the bitmap blocks starts inside the bootstrap
/// region: its start, clamped up to the DMA boundary.
pub open spec fn boot_alloc_start(regions: Seq<MemoryRegion>) -> int {
    let reg = regions[boot_region_choice(regions)];
    if reg.start < 0x100_0000 {
        0x100_0000int
    } else {
        reg.start as int
    }
}

/// Frame `i` backs one of the two bitmap arrays.
pub open spec fn backing_frame(regions: Seq<MemoryRegion>, i: int) -> bool {
    let s = boot_alloc_start(regions);
    let big = crate::placement::spec_big_block(s);
    let small = crate::placement::spec_small_block(s);
    (big / 4096 <= i < big / 4096 + 512) || i == small / 4096
}

/// The memory map supports bootstrapping: some usable region can host the
/// two bitmap blocks, starting on a frame boundary, with both blocks
/// inside the region.
pub open spec fn boot_map_ok(regions: Seq<MemoryRegion>) -> bool {
    &&& exists|r: int| is_boot_region(regions, r)
    &&& boot_alloc_start(regions) % 4096 == 0
    &&& crate::placement::spec_placement_fits(
        boot_alloc_start(regions),
        regions[boot_region_choice(regions)].end as int,
    )
}

/// The frame ranges walked for two usable regions never overlap.
pub proof fn lemma_region_frames_disjoint(regions: Seq<MemoryRegion>, q: int, r: int)
    requires
        crate::region::regions_wf(regions),
        0 <= q < r < regions.len(),
        regions[q].kind == MemoryRegionKind::Usable,
        regions[r].kind == MemoryRegionKind::Usable,
    ensures
        region_end_frame(regions[q]) <= region_first_frame(regions[r]),
{
    let eq = regions[q].end as int;
    let sr = regions[r].start as int;
    assert(eq <= sr);
    vstd::arithmetic::div_mod::lemma_div_is_ordered(eq, sr, 4096);
    vstd::arithmetic::div_mod::lemma_div_is_ordered(sr, sr + 4095, 4096);
}

impl BitmapFrameAllocator {
    /// A fresh allocator with everything marked occupied: the conservative
    /// starting state before the usable regions are walked.
    fn new_all_used(total_usable_memory: u64, low_memory_usable_size: u64) -> (a: Self)
        ensures
            a.wf(),
            a.total_usable_memory == total_usable_memory,
            a.low_memory_usable_size == low_memory_usable_size,
            forall|i: int| 0 <= i < 0x100_0000 ==> a.small_bit(i),
    {
        let mut four_kilo_frame: Vec<u64> = Vec::new();
        while four_kilo_frame.len() < 0x4_0000
            invariant
                four_kilo_frame@.len() <= 0x4_0000,
                forall|k: int| 0 <= k < four_kilo_frame@.len() ==> four_kilo_frame@[k] == u64::MAX,
            decreases 0x4_0000 - four_kilo_frame@.len(),
        {
            four_kilo_frame.push(u64::MAX);
        }
        let mut two_mega_frame: Vec<u64> = Vec::new();
        while two_mega_frame.len() < 512
            invariant
                two_mega_frame@.len() <= 512,
                forall|k: int| 0 <= k < two_mega_frame@.len() ==> two_mega_frame@[k] == u64::MAX,
            decreases 512 - two_mega_frame@.len(),
        {
            two_mega_frame.push(u64::MAX);
        }
        let a = BitmapFrameAllocator {
            total_usable_memory,
            low_memory_usable_size,
            next_free_2m_frame_guess: 512,
            next_free_4k_frame_guess: 0x4_0000,
            free_2m_frames: 0,
            free_4k_frames: 0,
            four_kilobytes_frames_bitflag: four_kilo_frame,
            two_megabyte_frames_bitflag: two_mega_frame,
        };
        proof {
            lemma_seq_zeros_zero_iff_full(a.small());
            lemma_seq_zeros_zero_iff_full(a.large());
            lemma_full_word_bits(u64::MAX);
            assert forall|i: int| 0 <= i < 0x100_0000 implies seq_bit(a.small(), i) by {
                vstd::arithmetic::div_mod::lemma_fundamental_div_mod(i, 64);
                vstd::arithmetic::div_mod::lemma_mod_bound(i, 64);
                assert(a.small()[i / 64] == u64::MAX);
                assert((a.small()[i / 64] >> ((i % 64) as u64)) & 1u64 == 1u64);
            }
            assert forall|j: int| 0 <= j < 0x8000 implies seq_bit(a.large(), j) by {
                vstd::arithmetic::div_mod::lemma_fundamental_div_mod(j, 64);
                vstd::arithmetic::div_mod::lemma_mod_bound(j, 64);
                assert(a.large()[j / 64] == u64::MAX);
                assert((a.large()[j / 64] >> ((j % 64) as u64)) & 1u64 == 1u64);
            }
            assert forall|j: int| 0 <= j < 0x8000 implies region_used(a.small(), j) by {
                assert(seq_bit(a.small(), 512 * j));
            }
        }
        a
    }

    /// Walks the usable regions and frees every whole frame at or above
    /// the DMA boundary, as the boot initialization does.
    #[verifier::rlimit(100)]
    fn free_usable_region_frames(&mut self, memory_map: &Vec<MemoryRegion>)
        requires
            old(self).wf(),
            crate::region::regions_wf(memory_map@),
            forall|i: int| 0 <= i < 0x100_0000 ==> old(self).small_bit(i),
        ensures
            final(self).wf(),
            final(self).same_totals(old(self)),
            forall|i: int|
                0 <= i < 0x100_0000 ==> (final(self).small_bit(i) <==> !frame_freed_by_map(
                    memory_map@,
                    memory_map@.len() as int,
                    i,
                )),
    {
        let ghost regions = memory_map@;
        let mut r: usize = 0;
        while r < memory_map.len()
            invariant
                r <= memory_map@.len(),
                memory_map@ == regions,
                crate::region::regions_wf(regions),
                self.wf(),
                self.same_totals(old(self)),
                forall|i: int|
                    0 <= i < 0x100_0000 ==> (self.small_bit(i) <==> !frame_freed_by_map(
                        regions,
                        r as int,
                        i,
                    )),
            decreases memory_map@.len() - r,
        {
            let region = memory_map[r];
            if region.kind == MemoryRegionKind::Usable {
                let first = (region.start + 4095) >> 12;
                let end_frame = region.end >> 12;
                proof {
                    lemma_shift_div((region.start + 4095) as u64);
                    lemma_shift_div(region.end);
                    vstd::arithmetic::div_mod::lemma_div_is_ordered(
                        region.start as int + 4095,
                        0x10_0000_0000int + 4095,
                        4096,
                    );
                    vstd::arithmetic::div_mod::lemma_div_is_ordered(
                        region.end as int,
                        0x10_0000_0000int,
                        4096,
                    );
                }
                let mut f = first;
                while f < end_frame
                    invariant
                        crate::region::regions_wf(regions),
                        memory_map@ == regions,
                        r < regions.len(),
                        regions[r as int] == region,
                        region.kind == MemoryRegionKind::Usable,
                        first == region_first_frame(region),
                        first <= f,
                        f <= end_frame || f == first,
                        end_frame as int == region_end_frame(region),
                        end_frame <= 0x100_0000,
                        self.wf(),
                        self.same_totals(old(self)),
                        forall|i: int|
                            0 <= i < 0x100_0000 ==> (self.small_bit(i) <==> !(frame_freed_by_map(
                                regions,
                                r as int,
                                i,
                            ) || (4096 <= i && first <= i < f))),
                    decreases end_frame - f,
                {
                    let address = f << 12;
                    proof {
                        lemma_shift_mul(f);
                        vstd::arithmetic::div_mod::lemma_fundamental_div_mod_converse(
                            address as int,
                            4096,
                            f as int,
                            0,
                        );
                    }
                    if address >= LOW_MEMORY_LIMIT {
                        proof {
                            assert(f >= 4096);
                            assert(!frame_freed_by_map(regions, r as int, f as int)) by {
                                if frame_freed_by_map(regions, r as int, f as int) {
                                    let q = choose|q: int|
                                        0 <= q < r && #[trigger] region_covers_frame(
                                            regions[q],
                                            f as int,
                                        );
                                    lemma_region_frames_disjoint(regions, q, r as int);
                                }
                            }
                            assert(self.small_bit(f as int));
                        }
                        let ghost mid = *self;
                        let _ = self.set_unused_lock(address, SIZE_4K);
                        proof {
                            assert(mark_unused_4k(mid, *self, f as int));
                            assert forall|i: int| 0 <= i < 0x100_0000 implies (self.small_bit(i)
                                <==> !(frame_freed_by_map(regions, r as int, i) || (4096 <= i
                                && first <= i < f + 1))) by {
                                assert(seq_bit(self.small(), i) <==> (seq_bit(mid.small(), i) && i
                                    != f));
                            }
                        }
                    } else {
                        proof {
                            assert(f < 4096);
                        }
                    }
                    f = f + 1;
                }
                proof {
                    assert forall|i: int| 0 <= i < 0x100_0000 implies (self.small_bit(i)
                        <==> !frame_freed_by_map(regions, r as int + 1, i)) by {
                        if frame_freed_by_map(regions, r as int + 1, i) {
                            let q = choose|q: int|
                                0 <= q < r + 1 && #[trigger] region_covers_frame(regions[q], i);
                            if q == r {
                                assert(first <= i < region_end_frame(region));
                            } else {
                                assert(frame_freed_by_map(regions, r as int, i));
                            }
                        }
                        if 4096 <= i && first <= i < region_end_frame(region) {
                            assert(region_covers_frame(regions[r as int], i));
                            assert(frame_freed_by_map(regions, r as int + 1, i));
                        }
                        if frame_freed_by_map(regions, r as int, i) {
                            let q = choose|q: int|
                                0 <= q < r && #[trigger] region_covers_frame(regions[q], i);
                            assert(frame_freed_by_map(regions, r as int + 1, i));
                        }
                    }
                }
            } else {
                proof {
                    assert forall|i: int| 0 <= i < 0x100_0000 implies (frame_freed_by_map(
                        regions,
                        r as int + 1,
                        i,
                    ) <==> frame_freed_by_map(regions, r as int, i)) by {
                        if frame_freed_by_map(regions, r as int + 1, i) {
                            let q = choose|q: int|
                                0 <= q < r + 1 && #[trigger] region_covers_frame(regions[q], i);
                            assert(q != r);
                        }
                        if frame_freed_by_map(regions, r as int, i) {
                            let q = choose|q: int|
                                0 <= q < r && #[trigger] region_covers_frame(regions[q], i);
                        }
                    }
                }
            }
            r = r + 1;
        }
    }
}

impl BitmapFrameAllocator {
    /// Creates a frame allocator from the passed memory map. It computes
    /// the usable totals, finds the first usable region that can host its
    /// own bitmap storage, conservatively marks all 64 GiB occupied, frees
    /// every whole usable frame above the DMA band, and finally re-claims
    /// the two blocks now backing the bitmaps themselves.
    #[verifier::rlimit(100)]
    pub fn init(memory_map: &Vec<MemoryRegion>) -> (allocator: Self)
        requires
            crate::region::regions_wf(memory_map@),
            boot_map_ok(memory_map@),
        ensures
            allocator.wf(),
            allocator.total_usable_memory == crate::region::usable_bytes(
                memory_map@,
                memory_map@.len() as int,
            ),
            allocator.low_memory_usable_size == crate::region::usable_low_bytes(
                memory_map@,
                memory_map@.len() as int,
            ),
            forall|i: int|
                0 <= i < 0x100_0000 ==> (allocator.small_bit(i) <==> (!frame_freed_by_map(
                    memory_map@,
                    memory_map@.len() as int,
                    i,
                ) || backing_frame(memory_map@, i))),
    {
        let ghost regions = memory_map@;
        // Total usable memory, and the usable slice of the DMA band
        let mut total_usable_memory: u64 = 0;
        let mut low_memory_usable_size: u64 = 0;
        let mut r: usize = 0;
        while r < memory_map.len()
            invariant
                r <= regions.len(),
                memory_map@ == regions,
                crate::region::regions_wf(regions),
                total_usable_memory == crate::region::usable_bytes(regions, r as int),
                low_memory_usable_size == crate::region::usable_low_bytes(regions, r as int),
            decreases regions.len() - r,
        {
            proof {
                crate::region::lemma_usable_bytes_bounds(regions, r as int);
                crate::region::lemma_usable_bytes_bounds(regions, r as int + 1);
                crate::region::lemma_usable_bytes_ceiling(regions, r as int + 1);
            }
            let region = memory_map[r];
            if region.kind == MemoryRegionKind::Usable {
                total_usable_memory = total_usable_memory + (region.end - region.start);
                // We skip regions below the lower limit
                let end = if region.end < LOW_MEMORY_LIMIT {
                    region.end
                } else {
                    LOW_MEMORY_LIMIT
                };
                let start = if region.start < end {
                    region.start
                } else {
                    end
                };
                low_memory_usable_size = low_memory_usable_size + (end - start);
            }
            r = r + 1;
        }

        // We first need to take a 2M frame and a 4K frame from the memory
        // map for the bitflags: find the first usable region that fits
        // them, skipping the band below the lower limit.
        let ghost rc = boot_region_choice(regions);
        proof {
            assert(is_boot_region(regions, rc));
        }
        let n = memory_map.len();
        let mut br: usize = 0;
        loop
            invariant
                memory_map@ == regions,
                n == regions.len(),
                rc < n,
                br <= rc,
                rc == boot_region_choice(regions),
                0 <= rc < regions.len(),
                is_boot_region(regions, rc),
                forall|q: int|
                    0 <= q < br ==> !((#[trigger] regions[q]).kind == MemoryRegionKind::Usable
                        && boot_region_fits(regions[q])),
            ensures
                br as int == rc,
                memory_map@ == regions,
            decreases rc - br,
        {
            let region = memory_map[br];
            let cstart = if region.start < LOW_MEMORY_LIMIT {
                LOW_MEMORY_LIMIT
            } else {
                region.start
            };
            let cend = if region.end < cstart {
                cstart
            } else {
                region.end
            };
            if region.kind == MemoryRegionKind::Usable && cend - cstart >= SIZE_2M + SIZE_4K {
                proof {
                    assert(is_boot_region(regions, br as int));
                    if br as int != rc {
                        assert(false);
                    }
                }
                break ;
            }
            proof {
                if br as int == rc {
                    assert(boot_region_fits(regions[rc]));
                    assert(false);
                }
            }
            br = br + 1;
        }

        let region = memory_map[br];
        let allocation_start = if region.start < LOW_MEMORY_LIMIT {
            LOW_MEMORY_LIMIT
        } else {
            region.start
        };
        let ghost s = allocation_start as int;
        proof {
            assert(s == boot_alloc_start(regions));
            assert(boot_region_fits(region));
            assert(s + 0x20_1000 <= region.end);
        }

        let (four_kilobytes_frames_bitflag, two_megabyte_frames_bitflag) =
            crate::placement::get_bitflag_frames(allocation_start);
        let ghost big = four_kilobytes_frames_bitflag as int;
        let ghost smb = two_megabyte_frames_bitflag as int;

        // We set everything as used because the boot loader may return
        // holes in the memory map, then free the usable regions.
        let mut allocator = Self::new_all_used(total_usable_memory, low_memory_usable_size);
        allocator.free_usable_region_frames(memory_map);
        let ghost post_free = allocator;

        // We set the regions where we placed the frame allocator as taken
        proof {
            lemma_backing_blocks_are_free(regions, post_free, br as int, s, big, smb);
        }
        let ghost bjb = big / 0x20_0000;
        let _ = allocator.set_used_lock(four_kilobytes_frames_bitflag, SIZE_2M);
        let ghost post_big = allocator;
        proof {
            assert(mark_used_2m(post_free, post_big, bjb));
            assert(big / 4096 == 512 * bjb && (big + 0x20_0000) / 4096 == 512 * bjb + 512) by {
                vstd::arithmetic::div_mod::lemma_fundamental_div_mod(big, 0x20_0000);
                vstd::arithmetic::div_mod::lemma_fundamental_div_mod_converse(
                    big,
                    4096,
                    512 * bjb,
                    0,
                );
                vstd::arithmetic::div_mod::lemma_fundamental_div_mod_converse(
                    big + 0x20_0000,
                    4096,
                    512 * bjb + 512,
                    0,
                );
            }
            // the 4 KiB block lies outside the 2 MiB block's region
            assert(!(512 * bjb <= smb / 4096 < 512 * bjb + 512)) by {
                if smb + 4096 <= big {
                    vstd::arithmetic::div_mod::lemma_fundamental_div_mod(smb, 4096);
                    vstd::arithmetic::div_mod::lemma_fundamental_div_mod_converse(
                        smb + 4096,
                        4096,
                        smb / 4096 + 1,
                        0,
                    );
                    vstd::arithmetic::div_mod::lemma_div_is_ordered(smb + 4096, big, 4096);
                } else {
                    vstd::arithmetic::div_mod::lemma_div_is_ordered(big + 0x20_0000, smb, 4096);
                }
            }
            assert(!post_big.small_bit(smb / 4096));
            assert(smb / 4096 >= 4096 && smb / 4096 < 0x100_0000);
        }
        let _ = allocator.set_used_lock(two_megabyte_frames_bitflag, SIZE_4K);
        proof {
            assert(mark_used_4k(post_big, allocator, smb / 4096));
            assert forall|i: int| 0 <= i < 0x100_0000 implies (allocator.small_bit(i)
                <==> (!frame_freed_by_map(regions, regions.len() as int, i) || backing_frame(
                regions,
                i,
            ))) by {
                assert(seq_bit(allocator.small(), i) <==> (seq_bit(post_big.small(), i) || i
                    == smb / 4096));
                assert(seq_bit(post_big.small(), i) <==> (seq_bit(post_free.small(), i) || (512
                    * bjb <= i < 512 * bjb + 512)));
                assert(post_free.small_bit(i) == seq_bit(post_free.small(), i));
                assert(allocator.small_bit(i) == seq_bit(allocator.small(), i));
            }
        }
        allocator
    }
}

/// After the boot walk, the frames that will back the two bitmap arrays
/// all sit freed inside the bootstrap region, so they can be re-claimed.
proof fn lemma_backing_blocks_are_free(
    regions: Seq<MemoryRegion>,
    post_free: BitmapFrameAllocator,
    br: int,
    s: int,
    big: int,
    smb: int,
)
    requires
        crate::region::regions_wf(regions),
        post_free.wf(),
        0 <= br < regions.len(),
        regions[br].kind == MemoryRegionKind::Usable,
        s == (if regions[br].start < 0x100_0000 {
            0x100_0000int
        } else {
            regions[br].start as int
        }),
        s % 4096 == 0,
        s <= big,
        s <= smb,
        big % 0x20_0000 == 0,
        smb % 4096 == 0,
        big + 0x20_0000 <= regions[br].end,
        smb + 4096 <= regions[br].end,
        forall|i: int|
            0 <= i < 0x100_0000 ==> (post_free.small_bit(i) <==> !frame_freed_by_map(
                regions,
                regions.len() as int,
                i,
            )),
    ensures
        forall|i: int|
            big / 4096 <= i < big / 4096 + 512 ==> frame_freed_by_map(
                regions,
                regions.len() as int,
                i,
            ),
        frame_freed_by_map(regions, regions.len() as int, smb / 4096),
        !seq_bit(post_free.large(), big / 0x20_0000),
        0 <= big / 0x20_0000 < 0x8000,
        big / 4096 == 512 * (big / 0x20_0000),
        big / 0x20_0000 >= 8,
        !post_free.small_bit(smb / 4096),
        4096 <= smb / 4096 < 0x100_0000,
{
    let reg = regions[br];
    let e = reg.end as int;
    assert(e <= 0x10_0000_0000);
    let bigf = big / 4096;
    let bjb = big / 0x20_0000;
    let smf = smb / 4096;
    // the region's walked frame range contains every backing frame
    vstd::arithmetic::div_mod::lemma_fundamental_div_mod(big, 0x20_0000);
    vstd::arithmetic::div_mod::lemma_mod_bound(big, 0x20_0000);
    assert(big == 0x20_0000 * bjb);
    vstd::arithmetic::div_mod::lemma_fundamental_div_mod_converse(big, 4096, 512 * bjb, 0);
    assert(bigf == 512 * bjb);
    vstd::arithmetic::div_mod::lemma_fundamental_div_mod_converse(
        big + 0x20_0000,
        4096,
        512 * bjb + 512,
        0,
    );
    vstd::arithmetic::div_mod::lemma_fundamental_div_mod(smb, 4096);
    vstd::arithmetic::div_mod::lemma_mod_bound(smb, 4096);
    assert(smb == 4096 * smf);
    vstd::arithmetic::div_mod::lemma_fundamental_div_mod(s, 4096);
    assert(s == 4096 * (s / 4096));
    // frame-range bounds of the bootstrap region
    assert(region_first_frame(reg) <= s / 4096) by {
        vstd::arithmetic::div_mod::lemma_div_is_ordered(reg.start as int + 4095, s + 4095, 4096);
        vstd::arithmetic::div_mod::lemma_fundamental_div_mod_converse(
            s + 4095,
            4096,
            s / 4096,
            4095,
        );
    }
    assert(e / 4096 == region_end_frame(reg));
    assert(4096 <= s / 4096) by {
        vstd::arithmetic::div_mod::lemma_div_is_ordered(0x100_0000, s, 4096);
    }
    // the 2 MiB block's 512 frames
    assert forall|i: int| bigf <= i < bigf + 512 implies frame_freed_by_map(
        regions,
        regions.len() as int,
        i,
    ) by {
        assert(s / 4096 <= bigf) by {
            vstd::arithmetic::div_mod::lemma_div_is_ordered(s, big, 4096);
        }
        assert(i < (big + 0x20_0000) / 4096);
        assert((big + 0x20_0000) / 4096 <= e / 4096) by {
            vstd::arithmetic::div_mod::lemma_div_is_ordered(big + 0x20_0000, e, 4096);
        }
        assert(region_covers_frame(reg, i));
        assert(4096 <= i);
    }
    // the 4 KiB block's frame
    assert(frame_freed_by_map(regions, regions.len() as int, smf)) by {
        assert(s / 4096 <= smf) by {
            vstd::arithmetic::div_mod::lemma_div_is_ordered(s, smb, 4096);
        }
        assert(smf + 1 <= e / 4096) by {
            vstd::arithmetic::div_mod::lemma_fundamental_div_mod_converse(
                smb + 4096,
                4096,
                smf + 1,
                0,
            );
            vstd::arithmetic::div_mod::lemma_div_is_ordered(smb + 4096, e, 4096);
        }
        assert(region_covers_frame(reg, smf));
    }
    // hence the whole 2 MiB region sits free, and its summary bit is clear
    assert(bjb < 0x8000) by {
        vstd::arithmetic::div_mod::lemma_div_is_ordered(big, 0x10_0000_0000 - 1, 0x20_0000);
    }
    assert(!region_used(post_free.small(), bjb)) by {
        if region_used(post_free.small(), bjb) {
            let i = choose|i: int|
                512 * bjb <= i < 512 * bjb + 512 && seq_bit(post_free.small(), i);
            assert(!post_free.small_bit(i));
        }
    }
    assert(bjb >= 8) by {
        vstd::arithmetic::div_mod::lemma_div_is_ordered(0x100_0000, big, 0x20_0000);
    }
    assert(smf < 0x100_0000) by {
        vstd::arithmetic::div_mod::lemma_div_is_ordered(smb, 0x10_0000_0000 - 1, 4096);
    }
}

/// Index arithmetic for a large region index.
pub proof fn lemma_frame_indices_2m(bj: int)
    requires
        0 <= bj < 0x8000,
    ensures
        0 <= bj / 64 < 512,
        0 <= bj % 64 < 64,
        bj == 64 * (bj / 64) + bj % 64,
{
    vstd::arithmetic::div_mod::lemma_fundamental_div_mod(bj, 64);
    vstd::arithmetic::div_mod::lemma_mod_bound(bj, 64);
}

/// Re-establishes well-formedness and the transition relation after a
/// 4 KiB mark-used, given the word-level updates already in place.
proof fn lemma_mark_used_4k_post(
    pre: BitmapFrameAllocator,
    post: BitmapFrameAllocator,
    fi: int,
    small_post: Seq<u64>,
)
    requires
        pre.wf(),
        0 <= fi < 0x100_0000,
        !seq_bit(pre.small(), fi),
        post.small() == small_post,
        small_post == pre.small().update(
            fi / 64,
            pre.small()[fi / 64] | (1u64 << ((fi % 64) as u64)),
        ),
        post.large() == pre.large().update(
            (fi / 512) / 64,
            pre.large()[(fi / 512) / 64] | (1u64 << (((fi / 512) % 64) as u64)),
        ),
        post.free_4k_frames == pre.free_4k_frames - 1,
        post.free_2m_frames == pre.free_2m_frames - (if seq_bit(pre.large(), fi / 512) {
            0int
        } else {
            1int
        }),
        post.next_free_4k_frame_guess == (if post.small()[fi / 64] == u64::MAX
            && pre.next_free_4k_frame_guess == fi / 64 {
            fi / 64 + 1
        } else {
            pre.next_free_4k_frame_guess as int
        }),
        post.next_free_2m_frame_guess == pre.next_free_2m_frame_guess,
        post.same_totals(&pre),
    ensures
        post.wf(),
        mark_used_4k(pre, post, fi),
{
    lemma_frame_indices(fi);
    let bj = fi / 512;
    lemma_frame_indices_2m(bj);
    lemma_seq_bit_set(pre.small(), fi);
    lemma_seq_bit_set(pre.large(), bj);
    assert(seq_zeros(post.small()) == seq_zeros(pre.small()) - 1);
    // the summary relation at every region
    assert forall|j: int| 0 <= j < 0x8000 implies (#[trigger] seq_bit(post.large(), j)
        <==> region_used(post.small(), j)) by {
        if j == bj {
            assert(seq_bit(post.large(), j));
            assert(seq_bit(post.small(), fi));
            assert(512 * j <= fi < 512 * j + 512);
            assert(region_used(post.small(), j));
        } else {
            assert forall|i: int| 512 * j <= i < 512 * j + 512 implies (seq_bit(post.small(), i)
                <==> seq_bit(pre.small(), i)) by {
                if i == fi {
                    vstd::arithmetic::div_mod::lemma_fundamental_div_mod_converse(
                        fi,
                        512,
                        j,
                        fi - 512 * j,
                    );
                }
            }
            lemma_region_used_congruence(post.small(), pre.small(), j);
        }
    }
    // the small hint still bounds the free words
    assert forall|w: int| 0 <= w < post.next_free_4k_frame_guess implies post.small()[w]
        == u64::MAX by {
        if post.small()[fi / 64] == u64::MAX && pre.next_free_4k_frame_guess == fi / 64 {
            if w < fi / 64 {
                assert(post.small()[w] == pre.small()[w]);
            }
        } else {
            assert(w < pre.next_free_4k_frame_guess);
            assert(pre.small()[w] == u64::MAX);
            if w == fi / 64 {
                lemma_full_word_bits(pre.small()[w]);
                assert(bit_at(pre.small()[w], fi % 64)) by {
                    assert((pre.small()[w] >> ((fi % 64) as u64)) & 1u64 == 1u64);
                }
                assert(false);
            }
        }
    }
    // the large hint: the touched word only gained a bit, and if it sat
    // below the hint it was already full and stays unchanged
    assert forall|w: int| 0 <= w < post.next_free_2m_frame_guess implies post.large()[w]
        == u64::MAX by {
        assert(pre.large()[w] == u64::MAX);
        if w == bj / 64 {
            lemma_full_word_bits(pre.large()[w]);
            assert(bit_at(pre.large()[w], bj % 64)) by {
                assert((pre.large()[w] >> ((bj % 64) as u64)) & 1u64 == 1u64);
            }
            assert(seq_bit(pre.large(), bj));
            crate::bits::lemma_set_bit(
                pre.large()[w],
                pre.large()[w] | (1u64 << ((bj % 64) as u64)),
                (bj % 64) as u64,
            );
            lemma_bits_extensional(
                pre.large()[w] | (1u64 << ((bj % 64) as u64)),
                pre.large()[w],
            );
        }
    }
}

/// Re-establishes well-formedness and the transition relation after a
/// 2 MiB mark-used, given the word-level updates already in place.
proof fn lemma_mark_used_2m_post(
    pre: BitmapFrameAllocator,
    post: BitmapFrameAllocator,
    bj: int,
    large_post: Seq<u64>,
)
    requires
        pre.wf(),
        0 <= bj < 0x8000,
        !seq_bit(pre.large(), bj),
        post.large() == large_post,
        large_post == pre.large().update(
            bj / 64,
            pre.large()[bj / 64] | (1u64 << ((bj % 64) as u64)),
        ),
        post.small().len() == 0x4_0000,
        forall|w: int| 8 * bj <= w < 8 * bj + 8 ==> post.small()[w] == u64::MAX,
        forall|w: int|
            0 <= w < 0x4_0000 && !(8 * bj <= w < 8 * bj + 8) ==> post.small()[w] == pre.small()[w],
        forall|w: int| 8 * bj <= w < 8 * bj + 8 ==> pre.small()[w] == 0,
        post.free_4k_frames == pre.free_4k_frames - 512,
        post.free_2m_frames == pre.free_2m_frames - 1,
        seq_zeros(post.small()) == seq_zeros(pre.small()) - 512,
        post.next_free_2m_frame_guess == (if post.large()[bj / 64] == u64::MAX
            && pre.next_free_2m_frame_guess == bj / 64 {
            bj / 64 + 1
        } else {
            pre.next_free_2m_frame_guess as int
        }),
        post.next_free_4k_frame_guess == (if 8 * bj <= pre.next_free_4k_frame_guess < 8 * bj + 8 {
            8 * bj + 8
        } else {
            pre.next_free_4k_frame_guess as int
        }),
        post.same_totals(&pre),
    ensures
        post.wf(),
        mark_used_2m(pre, post, bj),
{
    lemma_frame_indices_2m(bj);
    lemma_seq_bit_set(pre.large(), bj);
    lemma_region_words(pre.small(), bj);
    // every small bit: set inside the region, untouched outside
    assert forall|i: int| 0 <= i < 0x100_0000 implies (#[trigger] seq_bit(post.small(), i)
        <==> (seq_bit(pre.small(), i) || (512 * bj <= i < 512 * bj + 512))) by {
        vstd::arithmetic::div_mod::lemma_fundamental_div_mod(i, 64);
        vstd::arithmetic::div_mod::lemma_mod_bound(i, 64);
        if 512 * bj <= i < 512 * bj + 512 {
            assert(8 * bj <= i / 64 < 8 * bj + 8);
            assert(post.small()[i / 64] == u64::MAX);
            lemma_full_word_bits(post.small()[i / 64]);
            assert(bit_at(post.small()[i / 64], i % 64)) by {
                assert((post.small()[i / 64] >> ((i % 64) as u64)) & 1u64 == 1u64);
            }
        } else {
            assert(!(8 * bj <= i / 64 < 8 * bj + 8)) by {
                if 8 * bj <= i / 64 < 8 * bj + 8 {
                    assert(512 * bj <= 64 * (i / 64) + i % 64 < 512 * bj + 512);
                }
            }
            assert(post.small()[i / 64] == pre.small()[i / 64]);
        }
    }
    // the 512 region bits were all clear before
    assert forall|i: int| 512 * bj <= i < 512 * bj + 512 implies !seq_bit(pre.small(), i) by {
        vstd::arithmetic::div_mod::lemma_fundamental_div_mod(i, 64);
        vstd::arithmetic::div_mod::lemma_mod_bound(i, 64);
        assert(pre.small()[i / 64] == 0);
        lemma_zero_word_bits(pre.small()[i / 64]);
        assert((pre.small()[i / 64] >> ((i % 64) as u64)) & 1u64 == 0u64);
    }
    // the summary relation at every region
    assert forall|j: int| 0 <= j < 0x8000 implies (#[trigger] seq_bit(post.large(), j)
        <==> region_used(post.small(), j)) by {
        if j == bj {
            assert(seq_bit(post.large(), j));
            assert(seq_bit(post.small(), 512 * j));
            assert(region_used(post.small(), j));
        } else {
            assert forall|i: int| 512 * j <= i < 512 * j + 512 implies (seq_bit(post.small(), i)
                <==> seq_bit(pre.small(), i)) by {
                if 512 * bj <= i < 512 * bj + 512 {
                    vstd::arithmetic::div_mod::lemma_fundamental_div_mod_converse(
                        i,
                        512,
                        j,
                        i - 512 * j,
                    );
                    vstd::arithmetic::div_mod::lemma_fundamental_div_mod_converse(
                        i,
                        512,
                        bj,
                        i - 512 * bj,
                    );
                }
            }
            lemma_region_used_congruence(post.small(), pre.small(), j);
        }
    }
    // the large hint
    assert forall|w: int| 0 <= w < post.next_free_2m_frame_guess implies post.large()[w]
        == u64::MAX by {
        if post.large()[bj / 64] == u64::MAX && pre.next_free_2m_frame_guess == bj / 64 {
            if w < bj / 64 {
                assert(post.large()[w] == pre.large()[w]);
            }
        } else {
            assert(w < pre.next_free_2m_frame_guess);
            assert(pre.large()[w] == u64::MAX);
            if w == bj / 64 {
                lemma_full_word_bits(pre.large()[w]);
                assert(bit_at(pre.large()[w], bj % 64)) by {
                    assert((pre.large()[w] >> ((bj % 64) as u64)) & 1u64 == 1u64);
                }
                assert(false);
            }
        }
    }
    // the small hint: the region words sat at zero, so the old hint was at
    // or below the region unless the branch moved it past it
    assert forall|w: int| 0 <= w < post.next_free_4k_frame_guess implies post.small()[w]
        == u64::MAX by {
        if 8 * bj <= pre.next_free_4k_frame_guess < 8 * bj + 8 {
            if w < 8 * bj {
                assert(post.small()[w] == pre.small()[w]);
                assert(w < pre.next_free_4k_frame_guess);
            }
        } else {
            assert(w < pre.next_free_4k_frame_guess);
            assert(pre.small()[w] == u64::MAX);
            if 8 * bj <= w < 8 * bj + 8 {
                assert(pre.small()[w] == 0);
                assert(false);
            }
        }
    }
    // DMA band: marking used only adds occupied bits
    assert forall|i: int| 0 <= i < 4096 implies seq_bit(post.small(), i) by {
        assert(seq_bit(pre.small(), i));
    }
}

/// Invariant preservation: in every well-formed state — and every
/// mutation of the allocator ensures well-formedness — the large-bitmap
/// bit for region `j` equals the OR-reduction of its 512 small bits.
pub proof fn lemma_summary_bit_is_or_of_region(a: BitmapFrameAllocator, j: int)
    requires
        a.wf(),
        0 <= j < 0x8000,
    ensures
        a.large_bit(j) <==> region_used(a.small(), j),
{
}

/// Counter correctness: in every well-formed state the free counters
/// equal the number of zero bits of their bitmaps.
pub proof fn lemma_counters_count_zero_bits(a: BitmapFrameAllocator)
    requires
        a.wf(),
    ensures
        a.free_4k_frames == seq_zeros(a.small()),
        a.free_2m_frames == seq_zeros(a.large()),
{
}

/// No double allocation: two 4 KiB allocations with no deallocation in
/// between never return the same address.
pub proof fn lemma_no_double_allocation(
    s0: BitmapFrameAllocator,
    s1: BitmapFrameAllocator,
    s2: BitmapFrameAllocator,
    a: u64,
    b: u64,
)
    requires
        s0.wf(),
        a % 4096 == 0,
        b % 4096 == 0,
        first_free(s0.small(), a as int / 4096),
        mark_used_4k(s0, s1, a as int / 4096),
        first_free(s1.small(), b as int / 4096),
        mark_used_4k(s1, s2, b as int / 4096),
    ensures
        a != b,
{
    let fa = a as int / 4096;
    let fb = b as int / 4096;
    assert(seq_bit(s1.small(), fa));
    assert(!seq_bit(s1.small(), fb));
    assert(fa != fb);
    vstd::arithmetic::div_mod::lemma_fundamental_div_mod(a as int, 4096);
    vstd::arithmetic::div_mod::lemma_fundamental_div_mod(b as int, 4096);
}

/// Round trip: allocating a 4 KiB frame and immediately deallocating it
/// restores the exact bitmaps and counters of the starting state.
pub proof fn lemma_allocate_deallocate_round_trip(
    s0: BitmapFrameAllocator,
    s1: BitmapFrameAllocator,
    s2: BitmapFrameAllocator,
    a: u64,
)
    requires
        s0.wf(),
        s1.wf(),
        s2.wf(),
        first_free(s0.small(), a as int / 4096),
        mark_used_4k(s0, s1, a as int / 4096),
        mark_unused_4k(s1, s2, a as int / 4096),
    ensures
        s2.small() == s0.small(),
        s2.large() == s0.large(),
        s2.free_4k_frames == s0.free_4k_frames,
        s2.free_2m_frames == s0.free_2m_frames,
{
    let fi = a as int / 4096;
    assert forall|i: int| 0 <= i < 0x100_0000 implies (seq_bit(s2.small(), i) <==> seq_bit(
        s0.small(),
        i,
    )) by {
        assert(seq_bit(s2.small(), i) <==> (seq_bit(s1.small(), i) && i != fi));
        assert(seq_bit(s1.small(), i) <==> (seq_bit(s0.small(), i) || i == fi));
    }
    assert forall|w: int| 0 <= w < 0x4_0000 implies s2.small()[w] == s0.small()[w] by {
        assert forall|k: u64| k < 64 implies (((s2.small()[w] >> k) & 1u64 == 1u64) <==> ((
        s0.small()[w] >> k) & 1u64 == 1u64)) by {
            let i = 64 * w + k as int;
            vstd::arithmetic::div_mod::lemma_fundamental_div_mod_converse(i, 64, w, k as int);
            assert(seq_bit(s2.small(), i) <==> seq_bit(s0.small(), i));
        }
        lemma_bits_extensional(s2.small()[w], s0.small()[w]);
    }
    assert(s2.small() =~= s0.small());
    assert forall|j: int| 0 <= j < 0x8000 implies (seq_bit(s2.large(), j) <==> seq_bit(
        s0.large(),
        j,
    )) by {
        if j == fi / 512 {
            assert(seq_bit(s2.large(), j) <==> region_used(s2.small(), j));
            assert(seq_bit(s0.large(), j) <==> region_used(s0.small(), j));
        } else {
            assert(seq_bit(s2.large(), j) <==> seq_bit(s1.large(), j));
            assert(seq_bit(s1.large(), j) <==> (seq_bit(s0.large(), j) || j == fi / 512));
        }
    }
    assert forall|w: int| 0 <= w < 512 implies s2.large()[w] == s0.large()[w] by {
        assert forall|k: u64| k < 64 implies (((s2.large()[w] >> k) & 1u64 == 1u64) <==> ((
        s0.large()[w] >> k) & 1u64 == 1u64)) by {
            let j = 64 * w + k as int;
            vstd::arithmetic::div_mod::lemma_fundamental_div_mod_converse(j, 64, w, k as int);
            assert(seq_bit(s2.large(), j) <==> seq_bit(s0.large(), j));
        }
        lemma_bits_extensional(s2.large()[w], s0.large()[w]);
    }
    assert(s2.large() =~= s0.large());
}

/// Large-frame atomicity: after allocating a 2 MiB frame, a 4 KiB
/// allocation never lands inside it while it stays allocated.
pub proof fn lemma_large_frame_atomicity(
    s0: BitmapFrameAllocator,
    s1: BitmapFrameAllocator,
    s2: BitmapFrameAllocator,
    a: u64,
    b: u64,
)
    requires
        s0.wf(),
        a % 0x20_0000 == 0,
        b % 4096 == 0,
        first_free(s0.large(), a as int / 0x20_0000),
        mark_used_2m(s0, s1, a as int / 0x20_0000),
        first_free(s1.small(), b as int / 4096),
        mark_used_4k(s1, s2, b as int / 4096),
    ensures
        !(a <= b < a + 0x20_0000),
{
    let bj = a as int / 0x20_0000;
    let fb = b as int / 4096;
    vstd::arithmetic::div_mod::lemma_fundamental_div_mod(a as int, 0x20_0000);
    vstd::arithmetic::div_mod::lemma_fundamental_div_mod(b as int, 4096);
    if a <= b < a + 0x20_0000 {
        assert(512 * bj <= fb < 512 * bj + 512) by {
            vstd::arithmetic::div_mod::lemma_div_is_ordered(a as int, b as int, 4096);
            vstd::arithmetic::div_mod::lemma_fundamental_div_mod_converse(
                a as int,
                4096,
                512 * bj,
                0,
            );
            vstd::arithmetic::div_mod::lemma_div_is_ordered(
                b as int,
                a as int + 0x20_0000 - 1,
                4096,
            );
            vstd::arithmetic::div_mod::lemma_fundamental_div_mod_converse(
                a as int + 0x20_0000 - 1,
                4096,
                512 * bj + 511,
                4095,
            );
        }
        assert(seq_bit(s1.small(), fb));
        assert(!seq_bit(s1.small(), fb));
    }
}

/// Aggregate capacity reporting, the read-only view the rest of the
/// kernel consumes.
pub trait FullFrameAllocator {
    /// The invariant under which the reports are meaningful.
    spec fn report_inv(&self) -> bool;

    /// Total usable physical memory in bytes.
    spec fn spec_total_memory(&self) -> u64;

    /// Free memory in bytes.
    spec fn spec_free_memory(&self) -> int;

    /// Free small frames.
    spec fn spec_free_4k_frames(&self) -> u64;

    /// Free large regions.
    spec fn spec_free_2m_frames(&self) -> u64;

    /// Usable memory reserved for DMA below the low-memory boundary.
    spec fn spec_free_dma_memory(&self) -> u64;

    /// Returns total memory available in the system.
    fn get_total_memory_size(&self) -> (r: u64)
        requires
            self.report_inv(),
        ensures
            r == self.spec_total_memory(),
    ;

    /// Returns the amount of memory free to use.
    fn get_free_memory_size(&self) -> (r: u64)
        requires
            self.report_inv(),
        ensures
            r == self.spec_free_memory(),
    ;

    /// Returns the number of free 4K frames.
    fn get_free_4k_frames(&self) -> (r: u64)
        requires
            self.report_inv(),
        ensures
            r == self.spec_free_4k_frames(),
    ;

    /// Returns the number of free 2M frames.
    fn get_free_2m_frames(&self) -> (r: u64)
        requires
            self.report_inv(),
        ensures
            r == self.spec_free_2m_frames(),
    ;

    /// Returns the usable memory held back for DMA devices.
    fn get_free_dma_memory(&self) -> (r: u64)
        requires
            self.report_inv(),
        ensures
            r == self.spec_free_dma_memory(),
    ;
}

impl FullFrameAllocator for BitmapFrameAllocator {
    open spec fn report_inv(&self) -> bool {
        self.wf()
    }

    open spec fn spec_total_memory(&self) -> u64 {
        self.total_usable_memory
    }

    open spec fn spec_free_memory(&self) -> int {
        seq_zeros(self.small()) * 4096
    }

    open spec fn spec_free_4k_frames(&self) -> u64 {
        self.free_4k_frames
    }

    open spec fn spec_free_2m_frames(&self) -> u64 {
        self.free_2m_frames
    }

    open spec fn spec_free_dma_memory(&self) -> u64 {
        self.low_memory_usable_size
    }

    fn get_total_memory_size(&self) -> (r: u64) {
        self.total_usable_memory
    }

    fn get_free_memory_size(&self) -> (r: u64) {
        proof {
            lemma_seq_zeros_bounds(self.small());
            lemma_shift_mul(self.free_4k_frames);
        }
        self.free_4k_frames << 12
    }

    fn get_free_4k_frames(&self) -> (r: u64) {
        self.free_4k_frames
    }

    fn get_free_2m_frames(&self) -> (r: u64) {
        self.free_2m_frames
    }

    fn get_free_dma_memory(&self) -> (r: u64) {
        self.low_memory_usable_size
    }
}

} // verus!
