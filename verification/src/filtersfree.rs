//! The text-shape filter for free-text FT8 messages.
use vstd::prelude::*;
use vstd::string::StringSliceAdditionalSpecFns;

verus! {

pub open spec fn upper_byte(b: u8) -> u8 {
    if 0x61 <= b <= 0x7a {
        (b - 32) as u8
    } else {
        b
    }
}

pub open spec fn up_b(b: u8) -> bool {
    0x41 <= b <= 0x5a
}

pub open spec fn dg_b(b: u8) -> bool {
    0x30 <= b <= 0x39
}

/// The first 22 bytes of a message, upper-cased and padded with spaces.
pub open spec fn padded22(b: Seq<u8>) -> Seq<u8> {
    Seq::new(22, |k: int| if k < b.len() { upper_byte(b[k]) } else { (' ' as u8) })
}

/// The byte at 1-based position `i`.
pub open spec fn at(d: Seq<u8>, i: int) -> u8 {
    d[i - 1]
}

/// `n` bytes starting at 1-based position `i`.
pub open spec fn window(d: Seq<u8>, i: int, n: int) -> Seq<u8> {
    d.subrange(i - 1, i - 1 + n)
}

pub open spec fn b2(a: char, b: char) -> Seq<u8> {
    seq![a as u8, b as u8]
}

pub open spec fn b3(a: char, b: char, c: char) -> Seq<u8> {
    seq![a as u8, b as u8, c as u8]
}

pub open spec fn b4(a: char, b: char, c: char, e: char) -> Seq<u8> {
    seq![a as u8, b as u8, c as u8, e as u8]
}

pub open spec fn b5(a: char, b: char, c: char, e: char, f: char) -> Seq<u8> {
    seq![a as u8, b as u8, c as u8, e as u8, f as u8]
}

/// A window at position `i` that marks an ordinary QSO or chat message,
/// which makes the filter let the free text through.
pub open spec fn friendly_token_at(d: Seq<u8>, i: int) -> bool {
    let d2 = window(d, i, 2);
    let d3 = window(d, i, 3);
    let d4 = window(d, i, 4);
    let d5 = window(d, i, 5);
    ||| d2 == b2('7', '3') || d2 == b2('T', 'U') || d2 == b2('G', 'L')
    ||| i > 4 && (d2 == b2(' ', '-') || d2 == b2(' ', '+')) && ('0' as u8) <= at(d, i + 2) < ('3' as u8)
    ||| i > 4 && (d3 == b3(' ', 'R', '-') || d3 == b3(' ', 'R', '+')) && ('0' as u8) <= at(
        d,
        i + 3,
    ) < ('3' as u8)
    ||| d3 == b3('Q', 'S', 'L') || d3 == b3('T', 'N', 'X') || d3 == b3('Q', 'S', 'O')
        || d3 == b3('C', 'F', 'M') || d3 == b3('B', 'N', 'D') || d3 == b3('Q', 'S', 'Y')
        || d3 == b3('M', 'A', 'S') || d3 == b3('H', 'N', 'Y') || d3 == b3('H', 'P', 'Y')
        || d3 == b3(' ', 'D', 'T') || d3 == b3('X', 'M', 'S')
    ||| d2 == b2('R', 'R')
    ||| d4 == b4('L', 'O', 'T', 'W') || d4 == b4('B', 'A', 'N', 'D') || d4 == b4(
        'T',
        'E',
        'S',
        'T',
    ) || d4 == b4('/', 'G', 'I', 'F') || d4 == b4('/', 'J', 'P', 'G') || d4 == b4(
        '/',
        'A',
        'V',
        'I',
    ) || d4 == b4('/', 'M', 'P', '4') || d4 == b4('/', 'C', 'M', 'D')
    ||| d5 == b5('E', 'A', 'S', 'T', 'E') || d5 == b5('P', 'I', 'R', 'A', 'T') || d5
        == b5('/', 'H', 'Y', 'B', 'R') || d5 == b5('/', 'H', 'T', 'M', 'L') || d5 == b5(
        '/',
        'P',
        'H',
        'O',
        'T',
    ) || d5 == b5('/', 'I', 'M', 'A', 'G') || d5 == b5('/', 'J', 'O', 'I', 'N') || d5
        == b5('Q', 'R', 'Z', '.', 'C')
}

/// How many of the first `n` bytes equal one of `a`, `b`, `c`.
pub open spec fn count_of(d: Seq<u8>, n: int, a: u8, b: u8, c: u8) -> nat
    decreases n,
{
    if n <= 0 {
        0
    } else {
        count_of(d, n - 1, a, b, c) + if d[n - 1] == a || d[n - 1] == b || d[n - 1] == c {
            1nat
        } else {
            0nat
        }
    }
}

/// A local pattern at position `i` (1..=12) that marks corrupted text.
pub open spec fn garbled_at(d: Seq<u8>, i: int) -> bool {
    ||| i < 12 && at(d, i) == ('?' as u8) && at(d, i + 1) != (' ' as u8)
    ||| i < 12 && at(d, i) != (' ' as u8) && at(d, i + 1) == ('+' as u8) && (at(d, i + 2) <= ('0' as u8) || at(d, i + 2)
        >= ('9' as u8))
    ||| up_b(at(d, i)) && at(d, i + 1) == ('.' as u8) && up_b(at(d, i + 2))
    ||| window(d, i + 1, 2) == b2('/', ' ') || window(d, i + 1, 2) == b2(' ', '/')
    ||| dg_b(at(d, i)) && at(d, i + 1) == ('/' as u8) && dg_b(at(d, i + 2))
    ||| at(d, i) == (' ' as u8) && up_b(at(d, i + 1)) && !(at(d, i + 1) == ('F' as u8) || at(d, i + 1) == ('G' as u8)
        || at(d, i + 1) == ('I' as u8)) && at(d, i + 2) == ('/' as u8)
    ||| at(d, i) == (' ' as u8) && up_b(at(d, i + 1)) && (at(d, i + 2) == ('.' as u8) || at(d, i + 2) == ('+' as u8)
        || at(d, i + 2) == ('-' as u8))
}

/// The checks after the token scan, in the order they are made; `true`
/// marks the text as a likely false decode.
pub open spec fn shape_verdict(d: Seq<u8>) -> bool {
    let c1 = at(d, 1);
    let c2 = at(d, 2);
    let c3 = at(d, 3);
    let c4 = at(d, 4);
    let c10 = at(d, 10);
    let c11 = at(d, 11);
    let c12 = at(d, 12);
    let c13 = at(d, 13);
    if count_of(d, 13, ('.' as u8), ('.' as u8), ('.' as u8)) >= 2 || count_of(d, 13, ('-' as u8), ('+' as u8), ('?' as u8)) >= 2 || count_of(
        d,
        13,
        ('/' as u8),
        ('/' as u8),
        ('/' as u8),
    ) + count_of(d, 13, ('?' as u8), ('?' as u8), ('?' as u8)) >= 2 {
        true
    } else if window(d, 1, 2) == b2('-', '0') {
        true
    } else if c1 != (' ' as u8) && c2 == (' ' as u8) {
        true
    } else if (up_b(c13) || dg_b(c13)) && c12 == (' ' as u8) {
        true
    } else if (c1 == ('.' as u8) || c1 == ('+' as u8) || c1 == ('?' as u8) || c1 == ('/' as u8)) || (c13 == ('.' as u8) || c13 == ('+' as u8)
        || c13 == ('-' as u8) || c13 == ('/' as u8)) || (c2 == ('-' as u8) || c2 == ('+' as u8)) || (c12 == ('.' as u8) || c12 == ('+' as u8)
        || c12 == ('-' as u8)) {
        true
    } else if dg_b(c12) && dg_b(c13) && !(window(d, 12, 2) == b2('5', '5') || window(d, 12, 2) == b2(
        '7',
        '3',
    ) || window(d, 12, 2) == b2('8', '8')) {
        true
    } else if c1 == ('0' as u8) && c2 != ('.' as u8) {
        true
    } else if exists|i: int| 1 <= i <= 12 && garbled_at(d, i) {
        true
    } else if ('1' as u8) <= c1 <= ('9' as u8) && dg_b(c2) && dg_b(c3) && c4 != ('W' as u8) {
        true
    } else if ('1' as u8) <= c1 <= ('9' as u8) && dg_b(c2) && c3 != ('W' as u8) {
        true
    } else if ('1' as u8) <= c1 <= ('9' as u8) && window(d, 2, 2) != b2('E', 'L') {
        true
    } else if c10 != ('/' as u8) && c11 != ('/' as u8) && up_b(c12) && dg_b(c13) {
        true
    } else {
        forall|k: int| 0 <= k < 13 ==> d[k] != (' ' as u8)
    }
}

/// The verdict of the free-text filter on the padded, upper-cased text.
pub open spec fn free_text_suspect(d: Seq<u8>) -> bool {
    if window(d, 11, 2) == b2('7', '3') || window(d, 12, 2) == b2('7', '3') {
        false
    } else if at(d, 1) == ('/' as u8) {
        true
    } else if exists|i: int| 1 <= i <= 13 && friendly_token_at(d, i) {
        false
    } else {
        shape_verdict(d)
    }
}

/// The first 22 bytes of `value`, upper-cased, padded with spaces.
pub fn fixed22(value: &str) -> (out: [u8; 22])
    ensures
        out@ == padded22(value.spec_bytes()),
{
    let src = value.as_bytes();
    let mut out = [(' ' as u8); 22];
    let mut idx: usize = 0;
    while idx < 22 && idx < src.len()
        invariant
            src@ == value.spec_bytes(),
            idx <= 22,
            idx <= src@.len(),
            forall|k: int| 0 <= k < idx ==> out@[k] == upper_byte(src@[k]),
            forall|k: int| idx <= k < 22 ==> out@[k] == (' ' as u8),
        decreases 22 - idx,
    {
        let b = src[idx];
        let u = if 0x61 <= b && b <= 0x7a {
            b - 32
        } else {
            b
        };
        out[idx] = u;
        idx = idx + 1;
    }
    assert(out@ =~= padded22(value.spec_bytes()));
    out
}

/// The byte at 1-based position `idx1` (position 0 reads as 1), or a space
/// past the end.
pub fn ch(bytes: &[u8; 22], idx1: usize) -> (b: u8)
    ensures
        b == ({
            let i = if idx1 == 0 {
                0
            } else {
                idx1 - 1
            };
            if i < 22 {
                bytes@[i]
            } else {
                (' ' as u8)
            }
        }),
{
    let i = if idx1 == 0 {
        0
    } else {
        idx1 - 1
    };
    if i < 22 {
        bytes[i]
    } else {
        (' ' as u8)
    }
}

/// The bytes between 1-based positions `start1` and `end1` inclusive,
/// clipped to the 22 bytes.
pub fn slice(bytes: &[u8; 22], start1: usize, end1: usize) -> (r: Vec<u8>)
    requires
        (if start1 == 0 {
            0
        } else {
            start1 - 1
        }) <= 22 && (if start1 == 0 {
            0
        } else {
            start1 - 1
        }) <= (if end1 < 22 {
            end1 as int
        } else {
            22
        }),
    ensures
        ({
            let s = if start1 == 0 {
                0
            } else {
                start1 - 1
            };
            let e = if end1 < 22 {
                end1 as int
            } else {
                22
            };
            r@ == bytes@.subrange(s, e)
        }),
{
    let start = if start1 == 0 {
        0
    } else {
        start1 - 1
    };
    let end = if end1 < 22 {
        end1
    } else {
        22
    };
    let mut r: Vec<u8> = Vec::new();
    let mut i = start;
    while i < end
        invariant
            start <= i <= end <= 22,
            r@ == bytes@.subrange(start as int, i as int),
        decreases end - i,
    {
        r.push(bytes[i]);
        i = i + 1;
    }
    r
}

fn eq2(v: &Vec<u8>, a: char, b: char) -> (r: bool)
    ensures
        r == (v@ == b2(a, b)),
{
    let r = v.len() == 2 && v[0] == a as u8 && v[1] == b as u8;
    proof {
        if v@.len() == 2 {
            if v@[0] == a as u8 && v@[1] == b as u8 {
                assert(v@ =~= b2(a, b));
            }
        }
    }
    r
}

fn eq3(v: &Vec<u8>, a: char, b: char, c: char) -> (r: bool)
    ensures
        r == (v@ == b3(a, b, c)),
{
    let r = v.len() == 3 && v[0] == a as u8 && v[1] == b as u8 && v[2] == c as u8;
    proof {
        if v@.len() == 3 && v@[0] == a as u8 && v@[1] == b as u8 && v@[2] == c as u8 {
            assert(v@ =~= b3(a, b, c));
        }
    }
    r
}

fn eq4(v: &Vec<u8>, a: char, b: char, c: char, e: char) -> (r: bool)
    ensures
        r == (v@ == b4(a, b, c, e)),
{
    let r = v.len() == 4 && v[0] == a as u8 && v[1] == b as u8 && v[2] == c as u8 && v[3] == e as u8;
    proof {
        if v@.len() == 4 && v@[0] == a as u8 && v@[1] == b as u8 && v@[2] == c as u8 && v@[3] == e as u8 {
            assert(v@ =~= b4(a, b, c, e));
        }
    }
    r
}

fn eq5(v: &Vec<u8>, a: char, b: char, c: char, e: char, f: char) -> (r: bool)
    ensures
        r == (v@ == b5(a, b, c, e, f)),
{
    let r = v.len() == 5 && v[0] == a as u8 && v[1] == b as u8 && v[2] == c as u8 && v[3] == e as u8 && v[4] == f as u8;
    proof {
        if v@.len() == 5 && v@[0] == a as u8 && v@[1] == b as u8 && v@[2] == c as u8 && v@[3] == e as u8 && v@[4] == f as u8 {
            assert(v@ =~= b5(a, b, c, e, f));
        }
    }
    r
}

fn up(b: u8) -> (r: bool)
    ensures
        r == up_b(b),
{
    0x41 <= b && b <= 0x5a
}

fn dg(b: u8) -> (r: bool)
    ensures
        r == dg_b(b),
{
    0x30 <= b && b <= 0x39
}

fn friendly_token(d: &[u8; 22], i: usize) -> (r: bool)
    requires
        1 <= i <= 13,
    ensures
        r == friendly_token_at(d@, i as int),
{
    let d2 = slice(d, i, i + 1);
    let d3 = slice(d, i, i + 2);
    let d4 = slice(d, i, i + 3);
    let d5 = slice(d, i, i + 4);
    if eq2(&d2, '7', '3') || eq2(&d2, 'T', 'U') || eq2(&d2, 'G', 'L') {
        return true;
    }
    if i > 4 {
        if (eq2(&d2, ' ', '-') || eq2(&d2, ' ', '+')) && ('0' as u8) <= ch(d, i + 2) && ch(d, i + 2)
            < ('3' as u8) {
            return true;
        }
        if (eq3(&d3, ' ', 'R', '-') || eq3(&d3, ' ', 'R', '+')) && ('0' as u8) <= ch(d, i + 3) && ch(
            d,
            i + 3,
        ) < ('3' as u8) {
            return true;
        }
    }
    eq3(&d3, 'Q', 'S', 'L') || eq3(&d3, 'T', 'N', 'X') || eq3(&d3, 'Q', 'S', 'O') || eq3(
        &d3,
        'C',
        'F',
        'M',
    ) || eq3(&d3, 'B', 'N', 'D') || eq3(&d3, 'Q', 'S', 'Y') || eq3(&d3, 'M', 'A', 'S')
        || eq3(&d3, 'H', 'N', 'Y') || eq3(&d3, 'H', 'P', 'Y') || eq3(&d3, ' ', 'D', 'T')
        || eq3(&d3, 'X', 'M', 'S') || eq2(&d2, 'R', 'R') || eq4(&d4, 'L', 'O', 'T', 'W')
        || eq4(&d4, 'B', 'A', 'N', 'D') || eq4(&d4, 'T', 'E', 'S', 'T') || eq4(
        &d4,
        '/',
        'G',
        'I',
        'F',
    ) || eq4(&d4, '/', 'J', 'P', 'G') || eq4(&d4, '/', 'A', 'V', 'I') || eq4(
        &d4,
        '/',
        'M',
        'P',
        '4',
    ) || eq4(&d4, '/', 'C', 'M', 'D') || eq5(&d5, 'E', 'A', 'S', 'T', 'E') || eq5(
        &d5,
        'P',
        'I',
        'R',
        'A',
        'T',
    ) || eq5(&d5, '/', 'H', 'Y', 'B', 'R') || eq5(&d5, '/', 'H', 'T', 'M', 'L') || eq5(
        &d5,
        '/',
        'P',
        'H',
        'O',
        'T',
    ) || eq5(&d5, '/', 'I', 'M', 'A', 'G') || eq5(&d5, '/', 'J', 'O', 'I', 'N') || eq5(
        &d5,
        'Q',
        'R',
        'Z',
        '.',
        'C',
    )
}

fn garbled(d: &[u8; 22], i: usize) -> (r: bool)
    requires
        1 <= i <= 12,
    ensures
        r == garbled_at(d@, i as int),
{
    let c0 = ch(d, i);
    let c1 = ch(d, i + 1);
    let c2 = ch(d, i + 2);
    if i < 12 && c0 == ('?' as u8) && c1 != (' ' as u8) {
        return true;
    }
    if i < 12 && c0 != (' ' as u8) && c1 == ('+' as u8) && (c2 <= ('0' as u8) || c2 >= ('9' as u8)) {
        return true;
    }
    if up(c0) && c1 == ('.' as u8) && up(c2) {
        return true;
    }
    let s = slice(d, i + 1, i + 2);
    if eq2(&s, '/', ' ') || eq2(&s, ' ', '/') {
        return true;
    }
    if dg(c0) && c1 == ('/' as u8) && dg(c2) {
        return true;
    }
    if c0 == (' ' as u8) && up(c1) && !(c1 == ('F' as u8) || c1 == ('G' as u8) || c1 == ('I' as u8)) && c2 == ('/' as u8) {
        return true;
    }
    c0 == (' ' as u8) && up(c1) && (c2 == ('.' as u8) || c2 == ('+' as u8) || c2 == ('-' as u8))
}

/// Whether a friendly token starts at one of positions 1..=13.
fn has_friendly_token(d: &[u8; 22]) -> (r: bool)
    ensures
        r == exists|i: int| 1 <= i <= 13 && friendly_token_at(d@, i),
{
    let mut i: usize = 1;
    while i <= 13
        invariant
            1 <= i <= 14,
            forall|j: int| 1 <= j < i ==> !friendly_token_at(d@, j),
        decreases 14 - i,
    {
        if friendly_token(d, i) {
            assert(friendly_token_at(d@, i as int));
            return true;
        }
        i = i + 1;
    }
    false
}

/// The counts of dots, signs and slashes-or-question-marks among the
/// first 13 bytes.
fn punctuation_counts(d: &[u8; 22]) -> (r: (usize, usize, usize))
    ensures
        r.0 == count_of(d@, 13, '.' as u8, '.' as u8, '.' as u8),
        r.1 == count_of(d@, 13, '-' as u8, '+' as u8, '?' as u8),
        r.2 == count_of(d@, 13, '/' as u8, '/' as u8, '/' as u8) + count_of(
            d@,
            13,
            '?' as u8,
            '?' as u8,
            '?' as u8,
        ),
{
    let mut ndot: usize = 0;
    let mut nsign: usize = 0;
    let mut nother: usize = 0;
    let mut i: usize = 0;
    while i < 13
        invariant
            i <= 13,
            ndot == count_of(d@, i as int, '.' as u8, '.' as u8, '.' as u8),
            nsign == count_of(d@, i as int, '-' as u8, '+' as u8, '?' as u8),
            nother == count_of(d@, i as int, '/' as u8, '/' as u8, '/' as u8) + count_of(
                d@,
                i as int,
                '?' as u8,
                '?' as u8,
                '?' as u8,
            ),
            ndot <= i,
            nsign <= i,
            nother <= 2 * i,
        decreases 13 - i,
    {
        let c = d[i];
        if c == ('.' as u8) {
            ndot = ndot + 1;
        } else if c == ('-' as u8) || c == ('+' as u8) || c == ('?' as u8) {
            nsign = nsign + 1;
        } else if c == ('/' as u8) {
            nother = nother + 1;
        }
        if c == ('?' as u8) {
            nother = nother + 1;
        }
        i = i + 1;
    }
    (ndot, nsign, nother)
}

/// Whether a garbled pattern starts at one of positions 1..=12.
fn has_garbled(d: &[u8; 22]) -> (r: bool)
    ensures
        r == exists|i: int| 1 <= i <= 12 && garbled_at(d@, i),
{
    let mut j: usize = 1;
    while j <= 12
        invariant
            1 <= j <= 13,
            forall|k: int| 1 <= k < j ==> !garbled_at(d@, k),
        decreases 13 - j,
    {
        if garbled(d, j) {
            assert(garbled_at(d@, j as int));
            return true;
        }
        j = j + 1;
    }
    false
}

/// Whether none of the first 13 bytes is a space.
fn no_space_in_head(d: &[u8; 22]) -> (r: bool)
    ensures
        r == forall|k: int| 0 <= k < 13 ==> d@[k] != (' ' as u8),
{
    let mut k: usize = 0;
    while k < 13
        invariant
            k <= 13,
            forall|m: int| 0 <= m < k ==> d@[m] != (' ' as u8),
        decreases 13 - k,
    {
        if d[k] == (' ' as u8) {
            assert(d@[k as int] == (' ' as u8));
            return false;
        }
        k = k + 1;
    }
    true
}

/// The deterministic text-shape filter for free text: `true` marks the
/// text as a likely false decode. The text is read as its first 22 bytes,
/// upper-cased and padded with spaces.
pub fn filtersfree(decoded: &str) -> (r: bool)
    ensures
        r == free_text_suspect(padded22(decoded.spec_bytes())),
{
    let d = fixed22(decoded);
    let s11 = slice(&d, 11, 12);
    let s12 = slice(&d, 12, 13);
    if eq2(&s11, '7', '3') || eq2(&s12, '7', '3') {
        return false;
    }
    if ch(&d, 1) == ('/' as u8) {
        return true;
    }
    if has_friendly_token(&d) {
        return false;
    }
    let (ndot, nsign, nother) = punctuation_counts(&d);
    if ndot >= 2 || nsign >= 2 || nother >= 2 {
        return true;
    }
    let s1 = slice(&d, 1, 2);
    if eq2(&s1, '-', '0') {
        return true;
    }
    let c1 = ch(&d, 1);
    let c2 = ch(&d, 2);
    let c3 = ch(&d, 3);
    let c4 = ch(&d, 4);
    let c10 = ch(&d, 10);
    let c11 = ch(&d, 11);
    let c12 = ch(&d, 12);
    let c13 = ch(&d, 13);
    if c1 != (' ' as u8) && c2 == (' ' as u8) {
        return true;
    }
    if (up(c13) || dg(c13)) && c12 == (' ' as u8) {
        return true;
    }
    if (c1 == ('.' as u8) || c1 == ('+' as u8) || c1 == ('?' as u8) || c1 == ('/' as u8)) || (c13
        == ('.' as u8) || c13 == ('+' as u8) || c13 == ('-' as u8) || c13 == ('/' as u8)) || (c2
        == ('-' as u8) || c2 == ('+' as u8)) || (c12 == ('.' as u8) || c12 == ('+' as u8) || c12
        == ('-' as u8)) {
        return true;
    }
    let s1213 = slice(&d, 12, 13);
    if dg(c12) && dg(c13) && !(eq2(&s1213, '5', '5') || eq2(&s1213, '7', '3') || eq2(
        &s1213,
        '8',
        '8',
    )) {
        return true;
    }
    if c1 == ('0' as u8) && c2 != ('.' as u8) {
        return true;
    }
    if has_garbled(&d) {
        return true;
    }
    if ('1' as u8) <= c1 && c1 <= ('9' as u8) && dg(c2) && dg(c3) && c4 != ('W' as u8) {
        return true;
    }
    if ('1' as u8) <= c1 && c1 <= ('9' as u8) && dg(c2) && c3 != ('W' as u8) {
        return true;
    }
    let s23 = slice(&d, 2, 3);
    if ('1' as u8) <= c1 && c1 <= ('9' as u8) && !eq2(&s23, 'E', 'L') {
        return true;
    }
    if c10 != ('/' as u8) && c11 != ('/' as u8) && up(c12) && dg(c13) {
        return true;
    }
    no_space_in_head(&d)
}

} // verus!
