//! Human-readable rendering of sizes and addresses: byte counts scaled to
//! the right unit, and 64-bit values as grouped hexadecimal. The rendered
//! strings are pinned down character by character.

use vstd::prelude::*;

verus! {

pub const KIB: u64 = 1024;

pub const MIB: u64 = 1048576;

pub const GIB: u64 = 1073741824;

/// The decimal digit character for `d`.
pub open spec fn digit_char(d: int) -> char {
    if d == 0 {
        '0'
    } else if d == 1 {
        '1'
    } else if d == 2 {
        '2'
    } else if d == 3 {
        '3'
    } else if d == 4 {
        '4'
    } else if d == 5 {
        '5'
    } else if d == 6 {
        '6'
    } else if d == 7 {
        '7'
    } else if d == 8 {
        '8'
    } else {
        '9'
    }
}

/// The decimal rendering of a non-negative number, most significant
/// digit first.
pub open spec fn dec_digits(n: int) -> Seq<char>
    decreases n,
{
    if n < 10 {
        seq![digit_char(n)]
    } else {
        dec_digits(n / 10) + seq![digit_char(n % 10)]
    }
}

/// One decimal digit as a string slice.
fn digit_str(d: u64) -> (r: &'static str)
    requires
        d < 10,
    ensures
        r@ =~= seq![digit_char(d as int)],
{
    let r = if d == 0 {
        "0"
    } else if d == 1 {
        "1"
    } else if d == 2 {
        "2"
    } else if d == 3 {
        "3"
    } else if d == 4 {
        "4"
    } else if d == 5 {
        "5"
    } else if d == 6 {
        "6"
    } else if d == 7 {
        "7"
    } else if d == 8 {
        "8"
    } else {
        "9"
    };
    proof {
        reveal_strlit("0");
        reveal_strlit("1");
        reveal_strlit("2");
        reveal_strlit("3");
        reveal_strlit("4");
        reveal_strlit("5");
        reveal_strlit("6");
        reveal_strlit("7");
        reveal_strlit("8");
        reveal_strlit("9");
    }
    r
}

/// Appends the decimal rendering of `n`.
pub(crate) fn push_dec(n: u64, out: &mut String)
    ensures
        final(out)@ == old(out)@ + dec_digits(n as int),
    decreases n,
{
    if n >= 10 {
        proof {
            vstd::arithmetic::div_mod::lemma_fundamental_div_mod(n as int, 10);
            vstd::arithmetic::div_mod::lemma_mod_bound(n as int, 10);
        }
        push_dec(n / 10, out);
        out.append(digit_str(n % 10));
        proof {
            assert(final(out)@ =~= old(out)@ + dec_digits(n as int));
        }
    } else {
        out.append(digit_str(n));
        proof {
            assert(final(out)@ =~= old(out)@ + dec_digits(n as int));
        }
    }
}

/// How many characters the decimal rendering has, per decade.
pub proof fn lemma_dec_digits_len(n: int)
    requires
        0 <= n,
    ensures
        dec_digits(n).len() >= 1,
        n < 10 ==> dec_digits(n).len() == 1,
        10 <= n < 100 ==> dec_digits(n).len() == 2,
        100 <= n < 1000 ==> dec_digits(n).len() == 3,
        1000 <= n < 10000 ==> dec_digits(n).len() == 4,
        10000 <= n ==> dec_digits(n).len() >= 5,
    decreases n,
{
    if n >= 10 {
        vstd::arithmetic::div_mod::lemma_fundamental_div_mod(n, 10);
        vstd::arithmetic::div_mod::lemma_mod_bound(n, 10);
        lemma_dec_digits_len(n / 10);
    }
}

/// `s` filled up to `w` characters with leading zeros.
pub open spec fn zero_pad(s: Seq<char>, w: int) -> Seq<char> {
    if s.len() >= w {
        s
    } else {
        Seq::new((w - s.len()) as nat, |i: int| '0') + s
    }
}

/// Appends the decimal rendering of `n`, zero-padded to at least
/// `min_width` characters.
pub(crate) fn push_dec_padded(n: u64, min_width: usize, out: &mut String)
    requires
        min_width <= 4,
    ensures
        final(out)@ == old(out)@ + zero_pad(dec_digits(n as int), min_width as int),
{
    proof {
        lemma_dec_digits_len(n as int);
        reveal_strlit("0");
    }
    if min_width >= 4 && n < 1000 {
        out.append("0");
    }
    if min_width >= 3 && n < 100 {
        out.append("0");
    }
    if min_width >= 2 && n < 10 {
        out.append("0");
    }
    push_dec(n, out);
    proof {
        assert(final(out)@ =~= old(out)@ + zero_pad(dec_digits(n as int), min_width as int));
    }
}

/// What `format_size` renders: the byte count scaled to the largest unit
/// that keeps the number at or above a readable size.
pub open spec fn spec_format_size(b: int) -> Seq<char> {
    if b < 4 * 1024 {
        dec_digits(b) + " B"@
    } else if b < 4 * 1048576 {
        dec_digits(b / 1024) + " KiB"@
    } else if b < 4 * 1073741824 {
        dec_digits(b / 1048576) + " MiB"@
    } else {
        dec_digits(b / 1073741824) + " GiB"@
    }
}

/// Formats the size in bytes to a human readable string.
pub fn format_size(bytes: u64) -> (r: String)
    ensures
        r@ == spec_format_size(bytes as int),
{
    let mut r = String::new();
    if bytes < 4 * KIB {
        push_dec(bytes, &mut r);
        r.append(" B");
    } else if bytes < 4 * MIB {
        push_dec(bytes / KIB, &mut r);
        r.append(" KiB");
    } else if bytes < 4 * GIB {
        push_dec(bytes / MIB, &mut r);
        r.append(" MiB");
    } else {
        push_dec(bytes / GIB, &mut r);
        r.append(" GiB");
    }
    r
}

/// The unit and the scaled number the memory report prints for a byte
/// count: the largest unit that leaves at least two of it, as a pair.
pub open spec fn spec_scale_size(b: int) -> (int, Seq<char>) {
    if b < 2 * 1024 {
        (b, "B"@)
    } else if b < 2 * 1048576 {
        (b / 1024, "KiB"@)
    } else if b < 2 * 1073741824 {
        (b / 1048576, "MiB"@)
    } else {
        (b / 1073741824, "GiB"@)
    }
}

/// Scales a byte count to the unit the memory report prints it in.
pub fn scale_size(size: u64) -> (r: (u64, &'static str))
    ensures
        r.0 == spec_scale_size(size as int).0,
        r.1@ == spec_scale_size(size as int).1,
{
    let mut size = size;
    let mut size_format = "B";
    if size >= 2 * KIB {
        if size < 2 * MIB {
            size = size / KIB;
            size_format = "KiB";
        } else if size < 2 * GIB {
            size = size / MIB;
            size_format = "MiB";
        } else {
            size = size / GIB;
            size_format = "GiB";
        }
    }
    (size, size_format)
}

/// The hexadecimal digit character for `d`, upper case.
pub open spec fn hex_digit_char(d: int) -> char {
    if d < 10 {
        digit_char(d)
    } else if d == 10 {
        'A'
    } else if d == 11 {
        'B'
    } else if d == 12 {
        'C'
    } else if d == 13 {
        'D'
    } else if d == 14 {
        'E'
    } else {
        'F'
    }
}

/// Four hex digits for a 16-bit group.
pub open spec fn hex_group(g: int) -> Seq<char> {
    seq![
        hex_digit_char((g / 4096) % 16),
        hex_digit_char((g / 256) % 16),
        hex_digit_char((g / 16) % 16),
        hex_digit_char(g % 16),
    ]
}

/// A 64-bit value as four underscore-separated groups of hex digits.
pub open spec fn spec_separated_hex(v: int) -> Seq<char> {
    "0x"@ + hex_group(v / 0x1_0000_0000_0000) + "_"@ + hex_group((v / 0x1_0000_0000) % 0x1_0000)
        + "_"@ + hex_group((v / 0x1_0000) % 0x1_0000) + "_"@ + hex_group(v % 0x1_0000)
}

/// Values that render themselves as grouped hexadecimal.
pub trait HexNumber {
    /// The characters `to_separated_hex` promises.
    spec fn separated_hex(self) -> Seq<char>;

    /// Renders the value as grouped hexadecimal.
    fn to_separated_hex(self) -> (r: String)
        ensures
            r@ == self.separated_hex(),
    ;
}

/// One hexadecimal digit as a string slice.
fn hex_digit_str(d: u64) -> (r: &'static str)
    requires
        d < 16,
    ensures
        r@ =~= seq![hex_digit_char(d as int)],
{
    if d < 10 {
        digit_str(d)
    } else {
        let r = if d == 10 {
            "A"
        } else if d == 11 {
            "B"
        } else if d == 12 {
            "C"
        } else if d == 13 {
            "D"
        } else if d == 14 {
            "E"
        } else {
            "F"
        };
        proof {
            reveal_strlit("A");
            reveal_strlit("B");
            reveal_strlit("C");
            reveal_strlit("D");
            reveal_strlit("E");
            reveal_strlit("F");
        }
        r
    }
}

/// Appends the four hex digits of a 16-bit group.
fn push_hex_group(g: u64, out: &mut String)
    requires
        g < 0x1_0000,
    ensures
        final(out)@ == old(out)@ + hex_group(g as int),
{
    proof {
        lemma_hex_group_shifts(g);
    }
    out.append(hex_digit_str((g >> 12) & 15));
    out.append(hex_digit_str((g >> 8) & 15));
    out.append(hex_digit_str((g >> 4) & 15));
    out.append(hex_digit_str(g & 15));
    proof {
        assert(final(out)@ =~= old(out)@ + hex_group(g as int));
    }
}

proof fn lemma_hex_group_shifts(g: u64)
    by (bit_vector)
    ensures
        (g >> 12) & 15 == (g / 4096) % 16,
        (g >> 8) & 15 == (g / 256) % 16,
        (g >> 4) & 15 == (g / 16) % 16,
        g & 15 == g % 16,
        (g >> 12) & 15 < 16,
        (g >> 8) & 15 < 16,
        (g >> 4) & 15 < 16,
        g & 15 < 16,
{
}

proof fn lemma_hex_value_groups(v: u64)
    by (bit_vector)
    ensures
        (v >> 48) & 0xFFFF == v / 0x1_0000_0000_0000,
        (v >> 32) & 0xFFFF == (v / 0x1_0000_0000) % 0x1_0000,
        (v >> 16) & 0xFFFF == (v / 0x1_0000) % 0x1_0000,
        v & 0xFFFF == v % 0x1_0000,
        (v >> 48) & 0xFFFF < 0x1_0000,
        (v >> 32) & 0xFFFF < 0x1_0000,
        (v >> 16) & 0xFFFF < 0x1_0000,
        v & 0xFFFF < 0x1_0000,
{
}

impl HexNumber for u64 {
    open spec fn separated_hex(self) -> Seq<char> {
        spec_separated_hex(self as int)
    }

    fn to_separated_hex(self) -> (r: String) {
        proof {
            lemma_hex_value_groups(self);
        }
        let mut r = String::new();
        r.append("0x");
        push_hex_group((self >> 48) & 0xFFFF, &mut r);
        r.append("_");
        push_hex_group((self >> 32) & 0xFFFF, &mut r);
        r.append("_");
        push_hex_group((self >> 16) & 0xFFFF, &mut r);
        r.append("_");
        push_hex_group(self & 0xFFFF, &mut r);
        proof {
            assert(r@ =~= spec_separated_hex(self as int));
        }
        r
    }
}

} // verus!
