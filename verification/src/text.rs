//! Character-sequence helpers shared by the message filters.
use vstd::prelude::*;
use vstd::utf8::encode_utf8;

verus! {

/// Unicode `White_Space`, the set that `str::trim` and
/// `str::split_whitespace` use.
pub open spec fn is_ws(c: char) -> bool {
    let u = c as u32;
    (0x09 <= u <= 0x0d) || u == 0x20 || u == 0x85 || u == 0xa0 || u == 0x1680 || (0x2000 <= u
        <= 0x200a) || u == 0x2028 || u == 0x2029 || u == 0x202f || u == 0x205f || u == 0x3000
}

pub fn is_ws_char(c: char) -> (r: bool)
    ensures
        r == is_ws(c),
{
    let u = c as u32;
    (0x09 <= u && u <= 0x0d) || u == 0x20 || u == 0x85 || u == 0xa0 || u == 0x1680 || (0x2000
        <= u && u <= 0x200a) || u == 0x2028 || u == 0x2029 || u == 0x202f || u == 0x205f || u
        == 0x3000
}

pub open spec fn is_digit(c: char) -> bool {
    '0' <= c && c <= '9'
}

pub open spec fn is_upper(c: char) -> bool {
    'A' <= c && c <= 'Z'
}

pub fn is_digit_char(c: char) -> (r: bool)
    ensures
        r == is_digit(c),
{
    '0' <= c && c <= '9'
}

pub fn is_upper_char(c: char) -> (r: bool)
    ensures
        r == is_upper(c),
{
    'A' <= c && c <= 'Z'
}

pub open spec fn to_upper(c: char) -> char {
    if 'a' <= c && c <= 'z' {
        ((c as u32) - 32) as char
    } else {
        c
    }
}

pub fn upper_char(c: char) -> (r: char)
    ensures
        r == to_upper(c),
{
    if 'a' <= c && c <= 'z' {
        ((c as u8) - 32) as char
    } else {
        c
    }
}

pub fn chars_of(s: &str) -> (v: Vec<char>)
    ensures
        v@ == s@,
{
    let n = s.unicode_len();
    let mut v: Vec<char> = Vec::new();
    let mut i: usize = 0;
    while i < n
        invariant
            n == s@.len(),
            i <= n,
            v@ == s@.subrange(0, i as int),
        decreases n - i,
    {
        v.push(s.get_char(i));
        i = i + 1;
    }
    v
}

/// `String::push`: appends one character.
#[verifier::external_body]
pub fn push_char(s: &mut String, c: char)
    ensures
        final(s)@ == old(s)@.push(c),
{
    s.push(c)
}

/// Builds a `String` holding exactly the given characters.
pub fn string_of(v: &[char]) -> (s: String)
    ensures
        s@ == v@,
{
    let mut s = String::new();
    let mut i: usize = 0;
    while i < v.len()
        invariant
            i <= v.len(),
            s@ == v@.subrange(0, i as int),
        decreases v.len() - i,
    {
        push_char(&mut s, v[i]);
        i = i + 1;
    }
    proof {
        assert(v@.subrange(0, v.len() as int) =~= v@);
    }
    s
}

/// Leading whitespace removed.
pub open spec fn trim_start(s: Seq<char>) -> Seq<char>
    decreases s.len(),
{
    if s.len() > 0 && is_ws(s[0]) {
        trim_start(s.drop_first())
    } else {
        s
    }
}

/// Trailing whitespace removed.
pub open spec fn trim_end(s: Seq<char>) -> Seq<char>
    decreases s.len(),
{
    if s.len() > 0 && is_ws(s.last()) {
        trim_end(s.drop_last())
    } else {
        s
    }
}

/// Leading and trailing whitespace removed, as `str::trim` does.
pub open spec fn trim(s: Seq<char>) -> Seq<char> {
    trim_end(trim_start(s))
}

pub fn trim_start_chars(v: &[char]) -> (r: Vec<char>)
    ensures
        r@ == trim_start(v@),
{
    let mut i: usize = 0;
    assert(v@.subrange(0, v.len() as int) =~= v@);
    while i < v.len() && is_ws_char(v[i])
        invariant
            i <= v.len(),
            trim_start(v@) == trim_start(v@.subrange(i as int, v.len() as int)),
        decreases v.len() - i,
    {
        proof {
            assert(v@.subrange(i as int, v.len() as int).drop_first() =~= v@.subrange(
                i + 1,
                v.len() as int,
            ));
        }
        i = i + 1;
    }
    slice_range(v, i, v.len())
}

pub fn trim_end_chars(v: &[char]) -> (r: Vec<char>)
    ensures
        r@ == trim_end(v@),
{
    let mut j: usize = v.len();
    assert(v@.subrange(0, v.len() as int) =~= v@);
    while j > 0 && is_ws_char(v[j - 1])
        invariant
            j <= v.len(),
            trim_end(v@) == trim_end(v@.subrange(0, j as int)),
        decreases j,
    {
        proof {
            assert(v@.subrange(0, j as int).drop_last() =~= v@.subrange(0, j - 1));
        }
        j = j - 1;
    }
    slice_range(v, 0, j)
}

pub fn trim_chars(v: &[char]) -> (r: Vec<char>)
    ensures
        r@ == trim(v@),
{
    let a = trim_start_chars(v);
    trim_end_chars(&a)
}

/// A copy of `v[lo..hi]`.
pub fn slice_range(v: &[char], lo: usize, hi: usize) -> (r: Vec<char>)
    requires
        lo <= hi <= v.len(),
    ensures
        r@ == v@.subrange(lo as int, hi as int),
{
    let mut r: Vec<char> = Vec::new();
    let mut i = lo;
    while i < hi
        invariant
            lo <= i <= hi <= v.len(),
            r@ == v@.subrange(lo as int, i as int),
        decreases hi - i,
    {
        r.push(v[i]);
        i = i + 1;
    }
    r
}

/// Leading characters equal to `a` or `b` removed.
pub open spec fn strip_lead(s: Seq<char>, a: char, b: char) -> Seq<char>
    decreases s.len(),
{
    if s.len() > 0 && (s[0] == a || s[0] == b) {
        strip_lead(s.drop_first(), a, b)
    } else {
        s
    }
}

/// Trailing characters equal to `a` or `b` removed.
pub open spec fn strip_trail(s: Seq<char>, a: char, b: char) -> Seq<char>
    decreases s.len(),
{
    if s.len() > 0 && (s.last() == a || s.last() == b) {
        strip_trail(s.drop_last(), a, b)
    } else {
        s
    }
}

/// `str::trim_matches` with the pattern `[a, b]`.
pub open spec fn strip_both(s: Seq<char>, a: char, b: char) -> Seq<char> {
    strip_trail(strip_lead(s, a, b), a, b)
}

pub fn strip_lead_chars(v: &[char], a: char, b: char) -> (r: Vec<char>)
    ensures
        r@ == strip_lead(v@, a, b),
{
    let mut i: usize = 0;
    assert(v@.subrange(0, v.len() as int) =~= v@);
    while i < v.len() && (v[i] == a || v[i] == b)
        invariant
            i <= v.len(),
            strip_lead(v@, a, b) == strip_lead(v@.subrange(i as int, v.len() as int), a, b),
        decreases v.len() - i,
    {
        proof {
            assert(v@.subrange(i as int, v.len() as int).drop_first() =~= v@.subrange(
                i + 1,
                v.len() as int,
            ));
        }
        i = i + 1;
    }
    slice_range(v, i, v.len())
}

pub fn strip_trail_chars(v: &[char], a: char, b: char) -> (r: Vec<char>)
    ensures
        r@ == strip_trail(v@, a, b),
{
    let mut j: usize = v.len();
    assert(v@.subrange(0, v.len() as int) =~= v@);
    while j > 0 && (v[j - 1] == a || v[j - 1] == b)
        invariant
            j <= v.len(),
            strip_trail(v@, a, b) == strip_trail(v@.subrange(0, j as int), a, b),
        decreases j,
    {
        proof {
            assert(v@.subrange(0, j as int).drop_last() =~= v@.subrange(0, j - 1));
        }
        j = j - 1;
    }
    slice_range(v, 0, j)
}

pub fn strip_both_chars(v: &[char], a: char, b: char) -> (r: Vec<char>)
    ensures
        r@ == strip_both(v@, a, b),
{
    let l = strip_lead_chars(v, a, b);
    strip_trail_chars(&l, a, b)
}

/// The number of bytes in the UTF-8 encoding, which `str::len` counts.
pub open spec fn byte_len(s: Seq<char>) -> nat {
    encode_utf8(s).len()
}

pub fn byte_len_chars(v: &[char]) -> (n: usize)
    ensures
        n == byte_len(v@),
{
    let b = bytes_of(v);
    b.len()
}

/// The UTF-8 bytes of the characters, as `str::as_bytes` gives them.
pub fn bytes_of(v: &[char]) -> (b: Vec<u8>)
    ensures
        b@ == encode_utf8(v@),
{
    let s = string_of(v);
    let bs = s.as_str().as_bytes();
    let mut out: Vec<u8> = Vec::new();
    let mut i: usize = 0;
    while i < bs.len()
        invariant
            i <= bs@.len(),
            bs@ == encode_utf8(v@),
            out@ == bs@.subrange(0, i as int),
        decreases bs@.len() - i,
    {
        out.push(bs[i]);
        i = i + 1;
    }
    proof {
        assert(bs@.subrange(0, bs@.len() as int) =~= bs@);
    }
    out
}

/// Every character upper-cased as `to_ascii_uppercase` does.
pub open spec fn upper(s: Seq<char>) -> Seq<char> {
    s.map_values(|c: char| to_upper(c))
}

pub fn upper_chars(v: &[char]) -> (r: Vec<char>)
    ensures
        r@ == upper(v@),
{
    let mut r: Vec<char> = Vec::new();
    let mut i: usize = 0;
    while i < v.len()
        invariant
            i <= v.len(),
            r@ == upper(v@.subrange(0, i as int)),
        decreases v.len() - i,
    {
        r.push(upper_char(v[i]));
        proof {
            assert(upper(v@.subrange(0, i + 1)) =~= upper(v@.subrange(0, i as int)).push(
                to_upper(v@[i as int]),
            ));
        }
        i = i + 1;
    }
    proof {
        assert(v@.subrange(0, v.len() as int) =~= v@);
    }
    r
}

/// The state of a left-to-right whitespace split after reading `s`: the
/// words completed so far and the word being read.
pub open spec fn split_state(s: Seq<char>) -> (Seq<Seq<char>>, Seq<char>)
    decreases s.len(),
{
    if s.len() == 0 {
        (seq![], seq![])
    } else {
        let (done, cur) = split_state(s.drop_last());
        let c = s.last();
        if is_ws(c) {
            if cur.len() > 0 {
                (done.push(cur), seq![])
            } else {
                (done, seq![])
            }
        } else {
            (done, cur.push(c))
        }
    }
}

/// The maximal runs of non-whitespace characters, in order, as
/// `str::split_whitespace` yields them.
pub open spec fn words(s: Seq<char>) -> Seq<Seq<char>> {
    let (done, cur) = split_state(s);
    if cur.len() > 0 {
        done.push(cur)
    } else {
        done
    }
}

/// The character sequences held by a vector of words.
pub open spec fn wv(ws: Seq<Vec<char>>) -> Seq<Seq<char>> {
    ws.map_values(|w: Vec<char>| w@)
}

pub fn split_ws(v: &[char]) -> (r: Vec<Vec<char>>)
    ensures
        wv(r@) == words(v@),
{
    let mut done: Vec<Vec<char>> = Vec::new();
    let mut cur: Vec<char> = Vec::new();
    let mut i: usize = 0;
    while i < v.len()
        invariant
            i <= v.len(),
            (wv(done@), cur@) == split_state(v@.subrange(0, i as int)),
        decreases v.len() - i,
    {
        proof {
            assert(v@.subrange(0, i + 1).drop_last() =~= v@.subrange(0, i as int));
        }
        let c = v[i];
        if is_ws_char(c) {
            if cur.len() > 0 {
                let ghost d = wv(done@);
                let w = cur;
                done.push(w);
                proof {
                    assert(wv(done@) =~= d.push(w@));
                }
                cur = Vec::new();
            }
        } else {
            cur.push(c);
        }
        i = i + 1;
    }
    proof {
        assert(v@.subrange(0, v.len() as int) =~= v@);
    }
    if cur.len() > 0 {
        let ghost d = wv(done@);
        let ghost cw = cur@;
        done.push(cur);
        proof {
            assert(wv(done@) =~= d.push(cw));
        }
    }
    done
}

/// Words joined by single spaces.
pub open spec fn join(ws: Seq<Seq<char>>) -> Seq<char>
    decreases ws.len(),
{
    if ws.len() == 0 {
        seq![]
    } else if ws.len() == 1 {
        ws[0]
    } else {
        join(ws.drop_last()) + seq![' '] + ws.last()
    }
}

pub fn join_words(ws: &Vec<Vec<char>>) -> (r: Vec<char>)
    ensures
        r@ == join(wv(ws@)),
{
    let mut r: Vec<char> = Vec::new();
    let mut i: usize = 0;
    while i < ws.len()
        invariant
            i <= ws.len(),
            r@ == join(wv(ws@).subrange(0, i as int)),
        decreases ws.len() - i,
    {
        proof {
            assert(wv(ws@).subrange(0, i + 1).drop_last() =~= wv(ws@).subrange(
                0,
                i as int,
            ));
        }
        if i > 0 {
            r.push(' ');
        }
        let mut j: usize = 0;
        let ghost base = r@;
        while j < ws[i].len()
            invariant
                i < ws.len(),
                j <= ws[i as int]@.len(),
                r@ == base + ws[i as int]@.subrange(0, j as int),
            decreases ws[i as int]@.len() - j,
        {
            r.push(ws[i][j]);
            j = j + 1;
        }
        proof {
            assert(ws[i as int]@.subrange(0, j as int) =~= ws[i as int]@);
            if i == 0 {
                assert(r@ =~= join(wv(ws@).subrange(0, 1)));
            } else {
                assert(r@ =~= join(wv(ws@).subrange(0, i + 1)));
            }
        }
        i = i + 1;
    }
    proof {
        assert(wv(ws@).subrange(0, ws.len() as int) =~= wv(ws@));
    }
    r
}

/// `v == lit`, character by character.
pub fn eq_chars(v: &[char], lit: &[char]) -> (r: bool)
    ensures
        r == (v@ == lit@),
{
    if v.len() != lit.len() {
        return false;
    }
    let mut i: usize = 0;
    while i < v.len()
        invariant
            i <= v.len() == lit.len(),
            v@.subrange(0, i as int) == lit@.subrange(0, i as int),
        decreases v.len() - i,
    {
        if v[i] != lit[i] {
            assert(v@[i as int] != lit@[i as int]);
            return false;
        }
        proof {
            assert(v@.subrange(0, i + 1) =~= v@.subrange(0, i as int).push(v@[i as int]));
            assert(lit@.subrange(0, i + 1) =~= lit@.subrange(0, i as int).push(lit@[i as int]));
        }
        i = i + 1;
    }
    proof {
        assert(v@ =~= v@.subrange(0, i as int));
        assert(lit@ =~= lit@.subrange(0, i as int));
    }
    true
}

/// `v` begins with `lit`.
pub open spec fn has_prefix(s: Seq<char>, p: Seq<char>) -> bool {
    p.len() <= s.len() && s.subrange(0, p.len() as int) == p
}

/// `v` ends with `lit`.
pub open spec fn has_suffix(s: Seq<char>, p: Seq<char>) -> bool {
    p.len() <= s.len() && s.subrange(s.len() - p.len(), s.len() as int) == p
}

pub fn starts_with(v: &[char], lit: &[char]) -> (r: bool)
    ensures
        r == has_prefix(v@, lit@),
{
    if lit.len() > v.len() {
        return false;
    }
    let head = slice_range(v, 0, lit.len());
    eq_chars(&head, lit)
}

pub fn ends_with(v: &[char], lit: &[char]) -> (r: bool)
    ensures
        r == has_suffix(v@, lit@),
{
    if lit.len() > v.len() {
        return false;
    }
    let tail = slice_range(v, v.len() - lit.len(), v.len());
    eq_chars(&tail, lit)
}

/// `lit` occurs in `s` starting at `i`.
pub open spec fn occurs_at(s: Seq<char>, p: Seq<char>, i: int) -> bool {
    0 <= i && i + p.len() <= s.len() && s.subrange(i, i + p.len()) == p
}

pub fn find_chars(v: &[char], lit: &[char]) -> (r: Option<usize>)
    ensures
        match r {
            Some(k) => occurs_at(v@, lit@, k as int) && forall|j: int|
                0 <= j < k ==> !occurs_at(v@, lit@, j),
            None => forall|j: int| !occurs_at(v@, lit@, j),
        },
{
    if lit.len() > v.len() {
        return None;
    }
    let last = v.len() - lit.len();
    let mut i: usize = 0;
    loop
        invariant
            lit.len() <= v.len(),
            last == v.len() - lit.len(),
            i <= last,
            forall|j: int| 0 <= j < i ==> !occurs_at(v@, lit@, j),
        decreases last - i,
    {
        let part = slice_range(v, i, i + lit.len());
        if eq_chars(&part, lit) {
            return Some(i);
        }
        if i == last {
            assert forall|j: int| !occurs_at(v@, lit@, j) by {
                if 0 <= j < i {
                } else if j == i {
                } else {
                }
            }
            return None;
        }
        i = i + 1;
    }
}

pub fn contains_chars(v: &[char], lit: &[char]) -> (r: bool)
    ensures
        r == exists|j: int| occurs_at(v@, lit@, j),
{
    match find_chars(v, lit) {
        Some(k) => {
            assert(occurs_at(v@, lit@, k as int));
            true
        },
        None => false,
    }
}

} // verus!
