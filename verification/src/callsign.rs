//! Call-sign shape checks used by the false-decode filters.
use vstd::prelude::*;
use vstd::utf8::encode_utf8;

use crate::text::{
    chars_of, ends_with, has_prefix, has_suffix, is_digit, is_digit_char, is_upper, is_upper_char,
    slice_range, starts_with, strip_both, strip_both_chars, trim, trim_chars, trim_end,
    trim_end_chars, trim_start, trim_start_chars, upper, upper_chars, bytes_of,
};

verus! {

/// The shapes that `callsign_q_reject` refuses: empty, a leading `Q`, `0` or
/// `/`, two leading digits, a digit then three letters, three leading
/// letters, or a digit then two letters other than the `3DA`/`3XY` prefixes.
pub open spec fn q_reject_shape(c: Seq<char>) -> bool {
    ||| c.len() == 0
    ||| c[0] == 'Q' || c[0] == '0' || c[0] == '/'
    ||| c.len() >= 2 && is_digit(c[0]) && is_digit(c[1])
    ||| c.len() >= 4 && is_digit(c[0]) && is_upper(c[1]) && is_upper(c[2]) && is_upper(c[3])
    ||| c.len() >= 3 && is_upper(c[0]) && is_upper(c[1]) && is_upper(c[2])
    ||| c.len() >= 3 && is_digit(c[0]) && is_upper(c[1]) && is_upper(c[2]) && !has_prefix(
        c,
        seq!['3', 'D', 'A'],
    ) && !has_prefix(c, seq!['3', 'X', 'Y'])
}

/// The call sign as `callsign_q_reject` reads it: trimmed, with angle
/// brackets stripped from both ends, upper-cased.
pub open spec fn q_reject_key(c: Seq<char>) -> Seq<char> {
    upper(strip_both(trim(c), '<', '>'))
}

/// Whether a call sign has a shape that cannot be a real call.
pub fn callsign_q_reject(callsign: &str) -> (r: bool)
    ensures
        r == q_reject_shape(q_reject_key(callsign@)),
{
    let v = chars_of(callsign);
    callsign_q_reject_chars(&v)
}

pub fn callsign_q_reject_chars(callsign: &[char]) -> (r: bool)
    ensures
        r == q_reject_shape(q_reject_key(callsign@)),
{
    let t = trim_chars(callsign);
    let s = strip_both_chars(&t, '<', '>');
    let c = upper_chars(&s);
    let n = c.len();
    if n == 0 {
        return true;
    }
    if c[0] == 'Q' || c[0] == '0' || c[0] == '/' {
        return true;
    }
    if n >= 2 && is_digit_char(c[0]) && is_digit_char(c[1]) {
        return true;
    }
    if n >= 4 && is_digit_char(c[0]) && is_upper_char(c[1]) && is_upper_char(c[2])
        && is_upper_char(c[3]) {
        return true;
    }
    if n >= 3 && is_upper_char(c[0]) && is_upper_char(c[1]) && is_upper_char(c[2]) {
        return true;
    }
    if n >= 3 && is_digit_char(c[0]) && is_upper_char(c[1]) && is_upper_char(c[2]) && !starts_with(
        &c,
        &['3', 'D', 'A'],
    ) && !starts_with(&c, &['3', 'X', 'Y']) {
        return true;
    }
    false
}

/// The shapes that the special-message call check refuses: empty, a leading
/// `Q` or `0`, or two leading digits.
pub open spec fn special_reject_shape(c: Seq<char>) -> bool {
    ||| c.len() == 0
    ||| c[0] == 'Q' || c[0] == '0'
    ||| c.len() >= 2 && is_digit(c[0]) && is_digit(c[1])
}

/// The call check of special (`i3 = 0`, `n3 = 1`) messages, on the trimmed,
/// upper-cased call sign.
pub fn chkspecial8_call_reject(callsign: &str) -> (r: bool)
    ensures
        r == special_reject_shape(upper(trim(callsign@))),
{
    let v = chars_of(callsign);
    let t = trim_chars(&v);
    let c = upper_chars(&t);
    if c.len() == 0 {
        return true;
    }
    if c[0] == 'Q' || c[0] == '0' {
        return true;
    }
    c.len() >= 2 && is_digit_char(c[0]) && is_digit_char(c[1])
}

/// A call sign without one trailing `/R`, or else without one trailing `/P`.
pub open spec fn without_portable(c: Seq<char>) -> Seq<char> {
    if has_suffix(c, seq!['/', 'R']) || has_suffix(c, seq!['/', 'P']) {
        c.subrange(0, c.len() - 2)
    } else {
        c
    }
}

pub fn strip_portable_suffix(call: &[char]) -> (r: Vec<char>)
    ensures
        r@ == without_portable(call@),
{
    if ends_with(call, &['/', 'R']) || ends_with(call, &['/', 'P']) {
        slice_range(call, 0, call.len() - 2)
    } else {
        slice_range(call, 0, call.len())
    }
}

pub open spec fn is_digit_byte(b: u8) -> bool {
    0x30 <= b <= 0x39
}

/// Six bytes, no `/`, a digit in the third place and none after it, and not
/// digits in both of the first two places: the digit masks `001000`,
/// `101000` and `011000`.
pub open spec fn standard6_shape(b: Seq<u8>) -> bool {
    &&& b.len() == 6
    &&& forall|i: int| 0 <= i < 6 ==> b[i] != 0x2f
    &&& is_digit_byte(b[2])
    &&& !is_digit_byte(b[3]) && !is_digit_byte(b[4]) && !is_digit_byte(b[5])
    &&& !(is_digit_byte(b[0]) && is_digit_byte(b[1]))
}

/// Whether the call sign has the common six-character shape, judged on
/// its UTF-8 bytes.
pub fn looks_like_standard_6_call(call: &[char]) -> (r: bool)
    ensures
        r == standard6_shape(encode_utf8(call@)),
{
    let b = bytes_of(call);
    if b.len() != 6 {
        return false;
    }
    let mut i: usize = 0;
    while i < 6
        invariant
            b@.len() == 6,
            b@ == encode_utf8(call@),
            i <= 6,
            forall|k: int| 0 <= k < i ==> b@[k] != 0x2f,
        decreases 6 - i,
    {
        if b[i] == 0x2f {
            assert(b@[i as int] == 0x2f);
            return false;
        }
        i = i + 1;
    }
    let d0 = 0x30 <= b[0] && b[0] <= 0x39;
    let d1 = 0x30 <= b[1] && b[1] <= 0x39;
    let d2 = 0x30 <= b[2] && b[2] <= 0x39;
    let d3 = 0x30 <= b[3] && b[3] <= 0x39;
    let d4 = 0x30 <= b[4] && b[4] <= 0x39;
    let d5 = 0x30 <= b[5] && b[5] <= 0x39;
    d2 && !d3 && !d4 && !d5 && !(d0 && d1)
}

/// Call areas whose stations may send an ARRL Field Day section: `K`, `N`,
/// `W`, `AA`..`AL`, `CF`..`CK`, `CY`, `CZ`, `VA`..`VG`, `VO`, `VX`, `VY`,
/// `XJ`..`XO`.
pub open spec fn field_day_region(c: Seq<char>) -> bool {
    c.len() >= 2 && (c[0] == 'K' || c[0] == 'N' || c[0] == 'W' || (c[0] == 'A' && 'A' <= c[1]
        <= 'L') || (c[0] == 'C' && ('F' <= c[1] <= 'K' || c[1] == 'Y' || c[1] == 'Z')) || (c[0]
        == 'V' && ('A' <= c[1] <= 'G' || c[1] == 'O' || c[1] == 'X' || c[1] == 'Y')) || (c[0]
        == 'X' && 'J' <= c[1] <= 'O'))
}

pub fn field_day_call_region_can_use_section(call: &[char]) -> (r: bool)
    ensures
        r == field_day_region(upper(trim(call@))),
{
    let t = trim_chars(call);
    let c = upper_chars(&t);
    if c.len() < 2 {
        return false;
    }
    let a = c[0];
    let b = c[1];
    a == 'K' || a == 'N' || a == 'W' || (a == 'A' && 'A' <= b && b <= 'L') || (a == 'C' && (('F'
        <= b && b <= 'K') || b == 'Y' || b == 'Z')) || (a == 'V' && (('A' <= b && b <= 'G') || b
        == 'O' || b == 'X' || b == 'Y')) || (a == 'X' && 'J' <= b && b <= 'O')
}

/// `s` with every leading copy of the non-empty `p` removed, as
/// `str::trim_start_matches` with a string pattern does.
pub open spec fn strip_prefix_rep(s: Seq<char>, p: Seq<char>) -> Seq<char>
    decreases s.len(),
{
    if p.len() > 0 && has_prefix(s, p) {
        strip_prefix_rep(s.subrange(p.len() as int, s.len() as int), p)
    } else {
        s
    }
}

pub fn strip_prefix_rep_chars(v: &[char], p: &[char]) -> (r: Vec<char>)
    ensures
        r@ == strip_prefix_rep(v@, p@),
{
    let mut cur = slice_range(v, 0, v.len());
    assert(cur@ =~= v@);
    while p.len() > 0 && starts_with(&cur, p)
        invariant
            strip_prefix_rep(v@, p@) == strip_prefix_rep(cur@, p@),
        decreases cur@.len(),
    {
        cur = slice_range(&cur, p.len(), cur.len());
    }
    cur
}

/// The call sign of a message that begins with the unresolved hash `<...>`:
/// the text after the leading hashes and whitespace, without a final
/// ` RR73`, ` RRR` or ` 73`, and without trailing whitespace.
pub open spec fn hash_leading_call(msg: Seq<char>) -> Seq<char> {
    let rest = trim_start(strip_prefix_rep(msg, seq!['<', '.', '.', '.', '>']));
    if has_suffix(rest, seq![' ', 'R', 'R', '7', '3']) {
        trim_end(rest.subrange(0, rest.len() - 5))
    } else if has_suffix(rest, seq![' ', 'R', 'R', 'R']) {
        trim_end(rest.subrange(0, rest.len() - 4))
    } else if has_suffix(rest, seq![' ', '7', '3']) {
        trim_end(rest.subrange(0, rest.len() - 3))
    } else {
        trim_end(rest)
    }
}

pub fn strip_hash_leading_call(msg: &[char]) -> (r: Vec<char>)
    ensures
        r@ == hash_leading_call(msg@),
{
    let a = strip_prefix_rep_chars(msg, &['<', '.', '.', '.', '>']);
    let rest = trim_start_chars(&a);
    if ends_with(&rest, &[' ', 'R', 'R', '7', '3']) {
        let s = slice_range(&rest, 0, rest.len() - 5);
        return trim_end_chars(&s);
    }
    if ends_with(&rest, &[' ', 'R', 'R', 'R']) {
        let s = slice_range(&rest, 0, rest.len() - 4);
        return trim_end_chars(&s);
    }
    if ends_with(&rest, &[' ', '7', '3']) {
        let s = slice_range(&rest, 0, rest.len() - 3);
        return trim_end_chars(&s);
    }
    trim_end_chars(&rest)
}

} // verus!
