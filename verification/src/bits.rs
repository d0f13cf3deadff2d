//! Bit-level model of the occupancy bitmaps: a bitmap is a sequence of
//! 64-bit words, and frame `i` is tracked by bit `i % 64` of word `i / 64`.
//! This module defines what a bit is, counts zero (free) bits, and proves
//! the word-level facts the allocator needs.

use vstd::prelude::*;

verus! {

/// Bit `k` of word `w`, for `0 <= k < 64`.
pub open spec fn bit_at(w: u64, k: int) -> bool {
    (w >> (k as u64)) & 1u64 == 1u64
}

/// Bit `i` of a bitmap laid out as 64-bit words.
pub open spec fn seq_bit(s: Seq<u64>, i: int) -> bool {
    bit_at(s[i / 64], i % 64)
}

/// Number of zero bits of `w` among positions `[0, n)`.
pub open spec fn zeros_below(w: u64, n: int) -> int
    decreases n,
{
    if n <= 0 {
        0
    } else {
        zeros_below(w, n - 1) + if bit_at(w, n - 1) {
            0int
        } else {
            1int
        }
    }
}

/// Number of zero bits of a whole word.
pub open spec fn word_zeros(w: u64) -> int {
    zeros_below(w, 64)
}

/// Number of zero bits of a whole bitmap.
pub open spec fn seq_zeros(s: Seq<u64>) -> int
    decreases s.len(),
{
    if s.len() == 0 {
        0
    } else {
        seq_zeros(s.drop_last()) + word_zeros(s.last())
    }
}

pub proof fn lemma_zeros_below_bounds(w: u64, n: int)
    ensures
        0 <= zeros_below(w, n),
        n >= 0 ==> zeros_below(w, n) <= n,
    decreases n,
{
    if n > 0 {
        lemma_zeros_below_bounds(w, n - 1);
    }
}

/// Words that agree on the bits below `n` have the same count there.
pub proof fn lemma_zeros_below_agree(w1: u64, w2: u64, n: int)
    requires
        forall|k: int| 0 <= k < n ==> bit_at(w1, k) == bit_at(w2, k),
    ensures
        zeros_below(w1, n) == zeros_below(w2, n),
    decreases n,
{
    if n > 0 {
        lemma_zeros_below_agree(w1, w2, n - 1);
    }
}

/// Setting one bit: how every bit of the new word reads.
pub proof fn lemma_set_bit(w: u64, v: u64, k: u64)
    by (bit_vector)
    requires
        k < 64,
        v == w | (1u64 << k),
    ensures
        forall|j: u64|
            j < 64 ==> (((#[trigger] (v >> j)) & 1u64 == 1u64) <==> ((w >> j) & 1u64 == 1u64 || j
                == k)),
{
}

/// Clearing one bit: how every bit of the new word reads.
pub proof fn lemma_clear_bit(w: u64, v: u64, k: u64)
    by (bit_vector)
    requires
        k < 64,
        v == w & !(1u64 << k),
    ensures
        forall|j: u64|
            j < 64 ==> (((#[trigger] (v >> j)) & 1u64 == 1u64) <==> ((w >> j) & 1u64 == 1u64 && j
                != k)),
{
}

/// A full word has every bit set; a non-full word has a clear bit.
pub proof fn lemma_full_word_bits(w: u64)
    ensures
        w == u64::MAX ==> forall|j: u64| j < 64 ==> (w >> j) & 1u64 == 1u64,
        w != u64::MAX ==> exists|j: u64| j < 64 && (w >> j) & 1u64 == 0u64,
{
    vstd::std_specs::bits::axiom_u64_trailing_ones(w);
    let t = vstd::std_specs::bits::u64_trailing_ones(w);
    if w == u64::MAX {
        assert(t == 64);
    } else {
        assert(t < 64);
        assert((w >> (t as u64)) & 1u64 == 0u64);
    }
}

/// The zero word has every bit clear; a non-zero word has a set bit.
pub proof fn lemma_zero_word_bits(w: u64)
    ensures
        w == 0u64 ==> forall|j: u64| j < 64 ==> (w >> j) & 1u64 == 0u64,
        w != 0u64 ==> exists|j: u64| j < 64 && (w >> j) & 1u64 == 1u64,
{
    vstd::std_specs::bits::axiom_u64_trailing_zeros(w);
    let t = vstd::std_specs::bits::u64_trailing_zeros(w);
    if w == 0u64 {
        assert(t == 64);
    } else {
        assert(t < 64);
        assert((w >> (t as u64)) & 1u64 == 1u64);
    }
}

/// A bit is either set or clear.
pub proof fn lemma_bit_dichotomy(w: u64, j: u64)
    by (bit_vector)
    ensures
        (w >> j) & 1u64 == 1u64 || (w >> j) & 1u64 == 0u64,
{
}

/// If all bits below `n` are set, no zero bit is counted there.
pub proof fn lemma_zeros_below_all_set(w: u64, n: int)
    requires
        forall|k: int| 0 <= k < n ==> bit_at(w, k),
    ensures
        zeros_below(w, n) == 0,
    decreases n,
{
    if n > 0 {
        lemma_zeros_below_all_set(w, n - 1);
    }
}

/// A clear bit below `n` makes the count positive.
pub proof fn lemma_zeros_below_pos(w: u64, k: int, n: int)
    requires
        0 <= k < n,
        !bit_at(w, k),
    ensures
        zeros_below(w, n) >= 1,
    decreases n,
{
    lemma_zeros_below_bounds(w, n - 1);
    if k < n - 1 {
        lemma_zeros_below_pos(w, k, n - 1);
        assert(zeros_below(w, n) >= zeros_below(w, n - 1));
    }
}

/// A full word has no zero bits; a non-full word has at least one.
pub proof fn lemma_word_zeros_full(w: u64)
    ensures
        w == u64::MAX ==> word_zeros(w) == 0,
        w != u64::MAX ==> word_zeros(w) >= 1,
        0 <= word_zeros(w) <= 64,
{
    lemma_zeros_below_bounds(w, 64);
    lemma_full_word_bits(w);
    if w == u64::MAX {
        assert forall|k: int| 0 <= k < 64 implies bit_at(w, k) by {
            assert((w >> (k as u64)) & 1u64 == 1u64);
        }
        lemma_zeros_below_all_set(w, 64);
    } else {
        let j = choose|j: u64| j < 64 && (w >> j) & 1u64 == 0u64;
        assert(!bit_at(w, j as int));
        lemma_zeros_below_pos(w, j as int, 64);
    }
}

/// The zero word has 64 zero bits.
pub proof fn lemma_word_zeros_zero(w: u64)
    ensures
        w == 0 ==> word_zeros(w) == 64,
        w != 0 ==> word_zeros(w) <= 63,
{
    lemma_zero_word_bits(w);
    if w == 0 {
        assert forall|k: int| 0 <= k < 64 implies !bit_at(w, k) by {
            assert((w >> (k as u64)) & 1u64 == 0u64);
            lemma_bit_dichotomy(w, k as u64);
        }
        lemma_zeros_all_clear(w, 64);
    } else {
        let j = choose|j: u64| j < 64 && (w >> j) & 1u64 == 1u64;
        assert(bit_at(w, j as int));
        lemma_zeros_below_set_bound(w, j as int, 64);
    }
}

/// If all bits below `n` are clear, all of them are counted.
pub proof fn lemma_zeros_all_clear(w: u64, n: int)
    requires
        forall|k: int| 0 <= k < n ==> !bit_at(w, k),
    ensures
        zeros_below(w, n) == n || n < 0,
    decreases n,
{
    if n > 0 {
        lemma_zeros_all_clear(w, n - 1);
    }
}

/// A set bit below `n` keeps the count under `n`.
pub proof fn lemma_zeros_below_set_bound(w: u64, k: int, n: int)
    requires
        0 <= k < n,
        bit_at(w, k),
    ensures
        zeros_below(w, n) <= n - 1,
    decreases n,
{
    lemma_zeros_below_bounds(w, n - 1);
    if k < n - 1 {
        lemma_zeros_below_set_bound(w, k, n - 1);
    }
}

/// Flipping one bit from clear to set drops the zero count by one.
pub proof fn lemma_word_zeros_set(w: u64, v: u64, k: int)
    requires
        0 <= k < 64,
        !bit_at(w, k),
        forall|j: int| 0 <= j < 64 ==> (bit_at(v, j) <==> (bit_at(w, j) || j == k)),
    ensures
        word_zeros(v) == word_zeros(w) - 1,
{
    lemma_zeros_below_flip_set(w, v, k, 64);
}

proof fn lemma_zeros_below_flip_set(w: u64, v: u64, k: int, n: int)
    requires
        0 <= k < 64,
        !bit_at(w, k),
        forall|j: int| 0 <= j < 64 ==> (bit_at(v, j) <==> (bit_at(w, j) || j == k)),
        n <= 64,
    ensures
        zeros_below(v, n) == zeros_below(w, n) - if k < n {
            1int
        } else {
            0int
        },
    decreases n,
{
    if n > 0 {
        lemma_zeros_below_flip_set(w, v, k, n - 1);
    }
}

/// Flipping one bit from set to clear raises the zero count by one.
pub proof fn lemma_word_zeros_clear(w: u64, v: u64, k: int)
    requires
        0 <= k < 64,
        bit_at(w, k),
        forall|j: int| 0 <= j < 64 ==> (bit_at(v, j) <==> (bit_at(w, j) && j != k)),
    ensures
        word_zeros(v) == word_zeros(w) + 1,
{
    lemma_zeros_below_flip_clear(w, v, k, 64);
}

proof fn lemma_zeros_below_flip_clear(w: u64, v: u64, k: int, n: int)
    requires
        0 <= k < 64,
        bit_at(w, k),
        forall|j: int| 0 <= j < 64 ==> (bit_at(v, j) <==> (bit_at(w, j) && j != k)),
        n <= 64,
    ensures
        zeros_below(v, n) == zeros_below(w, n) + if k < n {
            1int
        } else {
            0int
        },
    decreases n,
{
    if n > 0 {
        lemma_zeros_below_flip_clear(w, v, k, n - 1);
    }
}

/// Two words with the same bits are the same word.
pub proof fn lemma_bits_extensional(w1: u64, w2: u64)
    requires
        forall|j: u64| j < 64 ==> (((w1 >> j) & 1u64 == 1u64) <==> ((w2 >> j) & 1u64 == 1u64)),
    ensures
        w1 == w2,
{
    if w1 != w2 {
        let x = w1 ^ w2;
        assert(x != 0) by (bit_vector)
            requires
                x == w1 ^ w2,
                w1 != w2,
        ;
        vstd::std_specs::bits::axiom_u64_trailing_zeros(x);
        let t = vstd::std_specs::bits::u64_trailing_zeros(x) as u64;
        assert(t < 64);
        assert((x >> t) & 1u64 == 1u64);
        assert(!(((w1 >> t) & 1u64 == 1u64) <==> ((w2 >> t) & 1u64 == 1u64))) by (bit_vector)
            requires
                x == w1 ^ w2,
                t < 64,
                (x >> t) & 1u64 == 1u64,
        ;
    }
}

/// The zero count of a bitmap is the sum over a prefix and the rest.
pub proof fn lemma_seq_zeros_bounds(s: Seq<u64>)
    ensures
        0 <= seq_zeros(s) <= 64 * s.len(),
    decreases s.len(),
{
    if s.len() > 0 {
        lemma_seq_zeros_bounds(s.drop_last());
        lemma_word_zeros_full(s.last());
        lemma_zeros_below_bounds(s.last(), 64);
    }
}

/// Updating one word moves the zero count by the words' difference.
pub proof fn lemma_seq_zeros_update(s: Seq<u64>, i: int, v: u64)
    requires
        0 <= i < s.len(),
    ensures
        seq_zeros(s.update(i, v)) == seq_zeros(s) + word_zeros(v) - word_zeros(s[i]),
    decreases s.len(),
{
    let t = s.update(i, v);
    if i == s.len() - 1 {
        assert(t.drop_last() =~= s.drop_last());
    } else {
        lemma_seq_zeros_update(s.drop_last(), i, v);
        assert(t.drop_last() =~= s.drop_last().update(i, v));
        assert(t.last() == s.last());
    }
}

/// The whole count is at least any one word's count.
pub proof fn lemma_seq_zeros_at_least_word(s: Seq<u64>, i: int)
    requires
        0 <= i < s.len(),
    ensures
        seq_zeros(s) >= word_zeros(s[i]),
    decreases s.len(),
{
    lemma_word_zeros_full(s.last());
    if i == s.len() - 1 {
        lemma_seq_zeros_bounds(s.drop_last());
    } else {
        lemma_seq_zeros_at_least_word(s.drop_last(), i);
    }
}

/// Replacing word `wi` touches exactly the bits of that word.
pub proof fn lemma_seq_bit_update_word(s: Seq<u64>, wi: int, v: u64)
    requires
        0 <= wi < s.len(),
    ensures
        forall|i: int|
            0 <= i < 64 * s.len() && i / 64 != wi ==> (seq_bit(s.update(wi, v), i) <==> seq_bit(
                s,
                i,
            )),
        forall|i: int|
            0 <= i < 64 * s.len() && i / 64 == wi ==> (seq_bit(s.update(wi, v), i) <==> bit_at(
                v,
                i % 64,
            )),
{
    assert forall|i: int| 0 <= i < 64 * s.len() implies 0 <= #[trigger] (i / 64) < s.len() by {
        vstd::arithmetic::div_mod::lemma_fundamental_div_mod(i, 64);
        vstd::arithmetic::div_mod::lemma_mod_bound(i, 64);
    }
}

/// Setting bit `fi` of a bitmap: every bit of the result, and the new
/// count of zero bits.
pub proof fn lemma_seq_bit_set(s: Seq<u64>, fi: int)
    requires
        0 <= fi < 64 * s.len(),
    ensures
        ({
            let wi = fi / 64;
            let v = s[wi] | (1u64 << ((fi % 64) as u64));
            let t = s.update(wi, v);
            &&& forall|i: int|
                0 <= i < 64 * s.len() ==> (seq_bit(t, i) <==> (seq_bit(s, i) || i == fi))
            &&& seq_zeros(t) == seq_zeros(s) - (if seq_bit(s, fi) {
                0int
            } else {
                1int
            })
        }),
{
    let wi = fi / 64;
    let k = fi % 64;
    vstd::arithmetic::div_mod::lemma_fundamental_div_mod(fi, 64);
    vstd::arithmetic::div_mod::lemma_mod_bound(fi, 64);
    let w = s[wi];
    let v = w | (1u64 << (k as u64));
    let t = s.update(wi, v);
    lemma_set_bit(w, v, k as u64);
    lemma_seq_bit_update_word(s, wi, v);
    assert forall|i: int| 0 <= i < 64 * s.len() implies (seq_bit(t, i) <==> (seq_bit(s, i) || i
        == fi)) by {
        vstd::arithmetic::div_mod::lemma_fundamental_div_mod(i, 64);
        vstd::arithmetic::div_mod::lemma_mod_bound(i, 64);
        if i / 64 == wi {
            let j64 = (i % 64) as u64;
            assert((v >> j64) & 1u64 == 1u64 <==> ((w >> j64) & 1u64 == 1u64 || j64 == k as u64));
            assert(bit_at(v, i % 64) <==> (bit_at(w, i % 64) || i % 64 == k));
        }
    }
    assert(bit_at(v, k)) by {
        let j64 = k as u64;
        assert((v >> j64) & 1u64 == 1u64 <==> ((w >> j64) & 1u64 == 1u64 || j64 == k as u64));
    }
    assert(forall|j: int| 0 <= j < 64 ==> (bit_at(v, j) <==> (bit_at(w, j) || j == k)));
    lemma_seq_zeros_update(s, wi, v);
    if seq_bit(s, fi) {
        lemma_zeros_below_agree(w, v, 64);
    } else {
        lemma_word_zeros_set(w, v, k);
    }
}

/// Clearing bit `fi` of a bitmap: every bit of the result, and the new
/// count of zero bits.
pub proof fn lemma_seq_bit_clear(s: Seq<u64>, fi: int)
    requires
        0 <= fi < 64 * s.len(),
    ensures
        ({
            let wi = fi / 64;
            let v = s[wi] & !(1u64 << ((fi % 64) as u64));
            let t = s.update(wi, v);
            &&& forall|i: int|
                0 <= i < 64 * s.len() ==> (seq_bit(t, i) <==> (seq_bit(s, i) && i != fi))
            &&& seq_zeros(t) == seq_zeros(s) + (if seq_bit(s, fi) {
                1int
            } else {
                0int
            })
        }),
{
    let wi = fi / 64;
    let k = fi % 64;
    vstd::arithmetic::div_mod::lemma_fundamental_div_mod(fi, 64);
    vstd::arithmetic::div_mod::lemma_mod_bound(fi, 64);
    let w = s[wi];
    let v = w & !(1u64 << (k as u64));
    let t = s.update(wi, v);
    lemma_clear_bit(w, v, k as u64);
    lemma_seq_bit_update_word(s, wi, v);
    assert forall|i: int| 0 <= i < 64 * s.len() implies (seq_bit(t, i) <==> (seq_bit(s, i) && i
        != fi)) by {
        vstd::arithmetic::div_mod::lemma_fundamental_div_mod(i, 64);
        vstd::arithmetic::div_mod::lemma_mod_bound(i, 64);
        if i / 64 == wi {
            let j64 = (i % 64) as u64;
            assert((v >> j64) & 1u64 == 1u64 <==> ((w >> j64) & 1u64 == 1u64 && j64 != k as u64));
            assert(bit_at(v, i % 64) <==> (bit_at(w, i % 64) && i % 64 != k));
        }
    }
    assert(!bit_at(v, k)) by {
        let j64 = k as u64;
        assert((v >> j64) & 1u64 == 1u64 <==> ((w >> j64) & 1u64 == 1u64 && j64 != k as u64));
    }
    assert(forall|j: int| 0 <= j < 64 ==> (bit_at(v, j) <==> (bit_at(w, j) && j != k)));
    lemma_seq_zeros_update(s, wi, v);
    if seq_bit(s, fi) {
        lemma_word_zeros_clear(w, v, k);
    } else {
        lemma_zeros_below_agree(w, v, 64);
    }
}

/// The shift and mask forms the code uses agree with division and
/// remainder by the frame-size constants.
pub proof fn lemma_shift_div(x: u64)
    by (bit_vector)
    ensures
        x >> 6 == x / 64,
        x >> 9 == x / 512,
        x >> 12 == x / 4096,
        x >> 21 == x / 0x20_0000,
        x & 63 == x % 64,
{
}

/// Small left shifts on small values agree with multiplication.
pub proof fn lemma_shift_mul(x: u64)
    by (bit_vector)
    requires
        x <= 0x100_0000,
    ensures
        (x << 3) == x * 8,
        (x << 6) == x * 64,
        (x << 12) == x * 4096,
        (x << 21) == x * 0x20_0000,
{
}

/// A bitmap of all-ones words has no zero bit, and conversely.
pub proof fn lemma_seq_zeros_zero_iff_full(s: Seq<u64>)
    ensures
        (seq_zeros(s) == 0) <==> (forall|i: int| 0 <= i < s.len() ==> s[i] == u64::MAX),
    decreases s.len(),
{
    if s.len() > 0 {
        lemma_seq_zeros_zero_iff_full(s.drop_last());
        lemma_word_zeros_full(s.last());
        lemma_seq_zeros_bounds(s.drop_last());
        if seq_zeros(s) == 0 {
            assert forall|i: int| 0 <= i < s.len() implies s[i] == u64::MAX by {
                if i < s.len() - 1 {
                    assert(s.drop_last()[i] == s[i]);
                }
            }
        } else {
            if forall|i: int| 0 <= i < s.len() ==> s[i] == u64::MAX {
                assert forall|i: int| 0 <= i < s.drop_last().len() implies s.drop_last()[i]
                    == u64::MAX by {
                    assert(s.drop_last()[i] == s[i]);
                }
                assert(seq_zeros(s) == 0);
            }
        }
    }
}

} // verus!
