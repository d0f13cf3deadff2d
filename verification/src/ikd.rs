//! The in-kernel debugger's command language: which command a line of
//! input selects, and how a hexadecimal address-range argument reads.
//! Receiving input over the wire and acting on a command are I/O and stay
//! with the caller; this module only decides.

use vstd::prelude::*;

verus! {

/// The commands the debugger understands.
#[derive(Clone, Copy, Debug, PartialEq, Eq, Structural)]
pub enum IkdCommand {
    Help,
    Memory,
    Exit,
    Kernel,
    Clocks,
    Ip,
    Panic,
}

/// `p` is a prefix of `s`.
pub open spec fn is_prefix(p: Seq<char>, s: Seq<char>) -> bool {
    p.len() <= s.len() && p == s.subrange(0, p.len() as int)
}

/// Whether `s` starts with `p`, decided character by character.
pub fn str_starts_with(s: &str, p: &str) -> (r: bool)
    ensures
        r == is_prefix(p@, s@),
{
    let n = p.unicode_len();
    if n > s.unicode_len() {
        return false;
    }
    let mut i: usize = 0;
    while i < n
        invariant
            i <= n,
            n == p@.len(),
            n <= s@.len(),
            forall|k: int| 0 <= k < i ==> p@[k] == s@[k],
        decreases n - i,
    {
        if s.get_char(i) != p.get_char(i) {
            proof {
                assert(!is_prefix(p@, s@)) by {
                    if p@ == s@.subrange(0, p@.len() as int) {
                        assert(p@[i as int] == s@.subrange(0, p@.len() as int)[i as int]);
                    }
                }
            }
            return false;
        }
        i = i + 1;
    }
    proof {
        assert(p@ =~= s@.subrange(0, p@.len() as int));
    }
    true
}

/// The command an input line selects: the first command whose name the
/// line starts with, tried in the debugger's fixed order.
pub open spec fn spec_match_command(s: Seq<char>) -> Option<IkdCommand> {
    if is_prefix("help"@, s) {
        Some(IkdCommand::Help)
    } else if is_prefix("memory"@, s) {
        Some(IkdCommand::Memory)
    } else if is_prefix("exit"@, s) {
        Some(IkdCommand::Exit)
    } else if is_prefix("kernel"@, s) {
        Some(IkdCommand::Kernel)
    } else if is_prefix("clocks"@, s) {
        Some(IkdCommand::Clocks)
    } else if is_prefix("ip"@, s) {
        Some(IkdCommand::Ip)
    } else if is_prefix("panic"@, s) {
        Some(IkdCommand::Panic)
    } else {
        None
    }
}

/// Selects the command a trimmed input line asks for, or nothing for an
/// invalid command.
pub fn match_command(command: &str) -> (r: Option<IkdCommand>)
    ensures
        r == spec_match_command(command@),
{
    if str_starts_with(command, "help") {
        Some(IkdCommand::Help)
    } else if str_starts_with(command, "memory") {
        Some(IkdCommand::Memory)
    } else if str_starts_with(command, "exit") {
        Some(IkdCommand::Exit)
    } else if str_starts_with(command, "kernel") {
        Some(IkdCommand::Kernel)
    } else if str_starts_with(command, "clocks") {
        Some(IkdCommand::Clocks)
    } else if str_starts_with(command, "ip") {
        Some(IkdCommand::Ip)
    } else if str_starts_with(command, "panic") {
        Some(IkdCommand::Panic)
    } else {
        None
    }
}

/// Whether two strings read the same, decided as a prefix test between
/// strings of equal length.
pub fn str_equal(s: &str, p: &str) -> (r: bool)
    ensures
        r == (s@ == p@),
{
    let r = s.unicode_len() == p.unicode_len() && str_starts_with(s, p);
    proof {
        assert(s@.subrange(0, s@.len() as int) =~= s@);
    }
    r
}

/// Whether an `exit` subcommand closes the debugger: only `exit ikd`
/// does; `exit qemu` asks the emulator to close instead.
pub fn exit_closes_ikd(subcommand: &str) -> (r: bool)
    ensures
        r == (subcommand@ == "ikd"@),
{
    str_equal(subcommand, "ikd")
}

/// `c` is a hexadecimal digit.
pub open spec fn is_hex_digit(c: char) -> bool {
    (48 <= c as u32 <= 57) || (97 <= c as u32 <= 102) || (65 <= c as u32 <= 70)
}

/// The value of a hexadecimal digit.
pub open spec fn hex_digit_value(c: char) -> int {
    if 48 <= c as u32 <= 57 {
        c as u32 - 48
    } else if 97 <= c as u32 <= 102 {
        c as u32 - 87
    } else {
        c as u32 - 55
    }
}

/// The number a sequence of hexadecimal digits denotes.
pub open spec fn hex_value(s: Seq<char>) -> int
    decreases s.len(),
{
    if s.len() == 0 {
        0
    } else {
        16 * hex_value(s.drop_last()) + hex_digit_value(s.last())
    }
}

/// The digits of a number without its optional leading plus sign.
pub open spec fn spec_hex_body(s: Seq<char>) -> Seq<char> {
    if s.len() > 0 && s[0] == '+' {
        s.subrange(1, s.len() as int)
    } else {
        s
    }
}

/// What parsing a hexadecimal number returns: its value, for a non-empty
/// all-digit string (after an optional plus sign) whose value fits.
pub open spec fn spec_parse_hex(s: Seq<char>) -> Option<usize> {
    let body = spec_hex_body(s);
    if body.len() > 0 && (forall|k: int| 0 <= k < body.len() ==> is_hex_digit(#[trigger] body[k]))
        && hex_value(body) <= usize::MAX {
        Some(hex_value(body) as usize)
    } else {
        None
    }
}

/// With valid digits the value is non-negative and only grows as digits
/// are appended.
proof fn lemma_hex_value_grows(s: Seq<char>, i: int)
    requires
        0 <= i <= s.len(),
        forall|k: int| 0 <= k < s.len() ==> is_hex_digit(#[trigger] s[k]),
    ensures
        hex_value(s) >= hex_value(s.subrange(0, i)),
        hex_value(s.subrange(0, i)) >= 0,
    decreases s.len() - i,
{
    if i == s.len() {
        assert(s.subrange(0, i) =~= s);
        lemma_hex_value_nonneg(s);
    } else {
        lemma_hex_value_grows(s, i + 1);
        lemma_hex_value_nonneg(s.subrange(0, i));
        let t = s.subrange(0, i + 1);
        assert(t.drop_last() =~= s.subrange(0, i));
        assert(hex_value(t) == 16 * hex_value(s.subrange(0, i)) + hex_digit_value(s[i]));
        assert(hex_digit_value(s[i]) >= 0);
    }
}

proof fn lemma_hex_value_nonneg(s: Seq<char>)
    requires
        forall|k: int| 0 <= k < s.len() ==> is_hex_digit(#[trigger] s[k]),
    ensures
        hex_value(s) >= 0,
    decreases s.len(),
{
    if s.len() > 0 {
        assert forall|k: int| 0 <= k < s.drop_last().len() implies is_hex_digit(
            #[trigger] s.drop_last()[k],
        ) by {
            assert(s.drop_last()[k] == s[k]);
        }
        lemma_hex_value_nonneg(s.drop_last());
    }
}

/// Parses a hexadecimal number with an optional leading plus sign, as the
/// debugger's address arguments are written. Returns nothing for an empty
/// string, a stray character, or a value beyond the machine word.
pub fn parse_hex(s: &str) -> (r: Option<usize>)
    ensures
        r == spec_parse_hex(s@),
{
    let n = s.unicode_len();
    let mut i: usize = 0;
    if n > 0 && s.get_char(0) == '+' {
        i = 1;
    }
    let ghost body = spec_hex_body(s@);
    let ghost start = i as int;
    proof {
        assert(body =~= s@.subrange(start, n as int));
    }
    if i >= n {
        proof {
            assert(body.len() == 0);
        }
        return None;
    }
    let mut value: usize = 0;
    while i < n
        invariant
            0 <= start <= i <= n,
            n == s@.len(),
            body == spec_hex_body(s@),
            body == s@.subrange(start, n as int),
            forall|k: int| 0 <= k < i - start ==> is_hex_digit(#[trigger] body[k]),
            value == hex_value(body.subrange(0, i - start)),
        decreases n - i,
    {
        let c = s.get_char(i);
        proof {
            assert(s@.subrange(start, n as int)[i - start] == s@[start + (i - start)]);
            assert(start + (i - start) == i as int);
            assert(body[i - start] == c);
        }
        let cv = c as u32;
        let d: u32 = if 48 <= cv && cv <= 57 {
            cv - 48
        } else if 97 <= cv && cv <= 102 {
            cv - 87
        } else if 65 <= cv && cv <= 70 {
            cv - 55
        } else {
            proof {
                assert(!is_hex_digit(body[i - start]));
                assert(spec_parse_hex(s@) == None::<usize>);
            }
            return None;
        };
        proof {
            assert(is_hex_digit(body[i - start]));
            assert(d == hex_digit_value(body[i - start]));
        }
        if value > (usize::MAX - (d as usize)) / 16 {
            proof {
                vstd::arithmetic::div_mod::lemma_fundamental_div_mod(
                    usize::MAX as int - d,
                    16,
                );
                vstd::arithmetic::div_mod::lemma_mod_bound(usize::MAX as int - d, 16);
                let t = body.subrange(0, i - start + 1);
                assert(t.drop_last() =~= body.subrange(0, i - start));
                assert(hex_value(t) == 16 * value + d);
                assert(hex_value(t) > usize::MAX);
                if forall|k: int| 0 <= k < body.len() ==> is_hex_digit(#[trigger] body[k]) {
                    lemma_hex_value_grows(body, i - start + 1);
                    assert(hex_value(body) >= hex_value(t));
                }
                assert(spec_parse_hex(s@) == None::<usize>);
            }
            return None;
        }
        proof {
            vstd::arithmetic::div_mod::lemma_fundamental_div_mod(usize::MAX as int - d, 16);
            vstd::arithmetic::div_mod::lemma_mod_bound(usize::MAX as int - d, 16);
            let t = body.subrange(0, i - start + 1);
            assert(t.drop_last() =~= body.subrange(0, i - start));
        }
        value = value * 16 + (d as usize);
        i = i + 1;
    }
    proof {
        assert(body.subrange(0, n - start) =~= body);
        assert(body.len() > 0);
        assert(spec_parse_hex(s@) == Some(value));
    }
    Some(value)
}

/// The index of the first colon in `s` at or after `i`, or the length.
pub open spec fn find_colon(s: Seq<char>, i: int) -> int
    decreases s.len() - i,
{
    if i < 0 || i >= s.len() {
        s.len() as int
    } else if s[i] == ':' {
        i
    } else {
        find_colon(s, i + 1)
    }
}

/// What parsing a `from:to` range argument returns: the text before the
/// first colon and the text between the first and second colons, each
/// read as a hexadecimal number.
pub open spec fn spec_get_from_to(s: Seq<char>) -> Option<(usize, usize)> {
    let c1 = find_colon(s, 0);
    if c1 == s.len() {
        None
    } else {
        let c2 = find_colon(s, c1 + 1);
        match (spec_parse_hex(s.subrange(0, c1)), spec_parse_hex(s.subrange(c1 + 1, c2))) {
            (Some(from), Some(to)) => Some((from, to)),
            _ => None,
        }
    }
}

/// Splits a `from:to` argument on its colons and parses both halves as
/// hexadecimal addresses; anything malformed yields nothing.
pub fn get_from_to(argument: &str) -> (r: Option<(usize, usize)>)
    ensures
        r == spec_get_from_to(argument@),
{
    let n = argument.unicode_len();
    let c1 = find_colon_at(argument, 0);
    if c1 == n {
        return None;
    }
    let c2 = find_colon_at(argument, c1 + 1);
    let from_str = argument.substring_char(0, c1);
    let to_str = argument.substring_char(c1 + 1, c2);
    let from = parse_hex(from_str);
    let to = parse_hex(to_str);
    match (from, to) {
        (Some(from), Some(to)) => Some((from, to)),
        _ => None,
    }
}

/// Finds the first colon at or after `start`, or the end of the string.
fn find_colon_at(s: &str, start: usize) -> (r: usize)
    ensures
        r == find_colon(s@, start as int),
        start <= s@.len() ==> start <= r <= s@.len(),
        s@.len() < start ==> r == s@.len(),
{
    let n = s.unicode_len();
    let mut i = start;
    if i > n {
        return n;
    }
    while i < n
        invariant
            start <= i <= n,
            n == s@.len(),
            find_colon(s@, start as int) == find_colon(s@, i as int),
        decreases n - i,
    {
        if s.get_char(i) == ':' {
            return i;
        }
        i = i + 1;
    }
    n
}

} // verus!
