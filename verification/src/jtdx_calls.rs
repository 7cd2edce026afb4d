//! Reading call signs out of decoded messages for the QSO memory of the
//! JTDX decoder.
use vstd::prelude::*;
use vstd::utf8::encode_utf8;
use crate::ap_subpass::{config_call, normalized_config_call};
use crate::callsign::is_digit_byte;
use crate::chkgrid::{grid4_shape, is_grid4_chars};
use crate::text::{
    byte_len, byte_len_chars, bytes_of, chars_of, eq_chars, has_prefix, is_digit, is_upper, join,
    join_words,
    occurs_at, split_ws, starts_with, string_of, strip_lead, strip_trail, trim, trim_chars, upper,
    upper_chars, words, wv,
};

verus! {

/// A message opens with `CQ `, `DE ` or `QRZ `.
pub open spec fn cq_like(msg: Seq<char>) -> bool {
    has_prefix(msg, seq!['C', 'Q', ' ']) || has_prefix(msg, seq!['D', 'E', ' ']) || has_prefix(
        msg,
        seq!['Q', 'R', 'Z', ' '],
    )
}

pub fn is_cq_like(msg: &str) -> (r: bool)
    ensures
        r == cq_like(msg@),
{
    let m = chars_of(msg);
    proof {
        assert(['C', 'Q', ' ']@ == seq!['C', 'Q', ' ']);
        assert(['D', 'E', ' ']@ == seq!['D', 'E', ' ']);
        assert(['Q', 'R', 'Z', ' ']@ == seq!['Q', 'R', 'Z', ' ']);
    }
    starts_with(&m, &['C', 'Q', ' ']) || starts_with(&m, &['D', 'E', ' ']) || starts_with(
        &m,
        &['Q', 'R', 'Z', ' '],
    )
}

/// The `k`-th word, or the empty word past the end.
pub open spec fn word_or_empty(ws: Seq<Seq<char>>, k: int) -> Seq<char> {
    if k < ws.len() {
        ws[k]
    } else {
        Seq::empty()
    }
}

/// The call a message carries for the QSO memory: after `CQ`, `DE` or
/// `QRZ` the second word, or the third when the second is a short token
/// (a two-byte word, a three-byte word that does not start with a letter
/// and a digit, a four-byte word with no digit in its second or third
/// byte); otherwise the second word of a message whose first word has 4 to
/// 12 bytes. None when that word is missing.
pub open spec fn message_call(msg: Seq<char>) -> Option<Seq<char>> {
    let ws = words(msg);
    if ws.len() == 0 {
        None
    } else {
        let p1 = ws[0];
        let p2 = word_or_empty(ws, 1);
        let p3 = word_or_empty(ws, 2);
        let b2 = encode_utf8(p2);
        let call2 = if cq_like(msg) {
            if b2.len() >= 5 {
                p2
            } else if b2.len() == 4 {
                if is_digit_byte(b2[1]) || is_digit_byte(b2[2]) {
                    p2
                } else {
                    p3
                }
            } else if b2.len() == 3 {
                if 0x41 <= b2[0] <= 0x5a && is_digit_byte(b2[1]) {
                    p2
                } else {
                    p3
                }
            } else if b2.len() == 2 {
                p3
            } else {
                Seq::empty()
            }
        } else if byte_len(p1) > 3 && byte_len(p1) < 13 {
            p2
        } else {
            Seq::empty()
        };
        if trim(call2).len() == 0 {
            None
        } else {
            Some(call2)
        }
    }
}

fn word_at(ws: &Vec<Vec<char>>, k: usize) -> (r: Vec<char>)
    ensures
        r@ == word_or_empty(wv(ws@), k as int),
{
    if k < ws.len() {
        crate::text::slice_range(&ws[k], 0, ws[k].len())
    } else {
        Vec::new()
    }
}

pub fn extract_call(msg: &str) -> (r: Option<String>)
    ensures
        match r {
            Some(s) => message_call(msg@) == Some(s@),
            None => message_call(msg@) is None,
        },
{
    let m = chars_of(msg);
    let ws = split_ws(&m);
    if ws.len() == 0 {
        return None;
    }
    let p1 = word_at(&ws, 0);
    let p2 = word_at(&ws, 1);
    let p3 = word_at(&ws, 2);
    let b2 = bytes_of(&p2);
    let call2: Vec<char> = if is_cq_like(msg) {
        if b2.len() >= 5 {
            p2
        } else if b2.len() == 4 {
            if (0x30 <= b2[1] && b2[1] <= 0x39) || (0x30 <= b2[2] && b2[2] <= 0x39) {
                p2
            } else {
                p3
            }
        } else if b2.len() == 3 {
            if 0x41 <= b2[0] && b2[0] <= 0x5a && 0x30 <= b2[1] && b2[1] <= 0x39 {
                p2
            } else {
                p3
            }
        } else if b2.len() == 2 {
            p3
        } else {
            Vec::new()
        }
    } else {
        let l1 = byte_len_chars(&p1);
        if l1 > 3 && l1 < 13 {
            p2
        } else {
            Vec::new()
        }
    };
    let t = trim_chars(&call2);
    if t.len() == 0 {
        None
    } else {
        Some(string_of(&call2))
    }
}

/// A call of the QSO context, as the AP passes normalize a configured call.
pub fn normalized_context_call(call: Option<&str>) -> (r: Option<String>)
    ensures
        match r {
            Some(s) => config_call(call) == Some(s@),
            None => config_call(call) is None,
        },
{
    normalized_config_call(call)
}

/// A standard call: no slash, at most six characters, only `A`..`Z` and
/// `0`..`9`.
pub open spec fn standard_context(call: Option<&str>) -> bool {
    match config_call(call) {
        Some(c) => c.len() <= 6 && forall|k: int| 0 <= k < c.len() ==> is_upper(#[trigger] c[k]) || is_digit(c[k]),
        None => false,
    }
}

pub fn is_standard_context_call(call: Option<&str>) -> (r: bool)
    ensures
        r == standard_context(call),
{
    match normalized_context_call(call) {
        Some(s) => {
            let c = chars_of(s.as_str());
            if c.len() > 6 {
                return false;
            }
            let mut i: usize = 0;
            while i < c.len()
                invariant
                    i <= c@.len(),
                    c@.len() <= 6,
                    config_call(call) == Some(c@),
                    forall|k: int| 0 <= k < i ==> is_upper(#[trigger] c@[k]) || is_digit(c@[k]),
                decreases c@.len() - i,
            {
                if !(crate::text::is_upper_char(c[i]) || crate::text::is_digit_char(c[i])) {
                    assert(!(is_upper(c@[i as int]) || is_digit(c@[i as int])));
                    return false;
                }
                i = i + 1;
            }
            true
        },
        None => false,
    }
}

pub open spec fn ascii_alpha(c: char) -> bool {
    ('A' <= c && c <= 'Z') || ('a' <= c && c <= 'z')
}

/// The protocol words that are never call signs.
pub open spec fn protocol_word(u: Seq<char>) -> bool {
    u == seq!['D', 'E'] || u == seq!['Q', 'R', 'Z'] || u == seq!['D', 'X'] || u == seq!['R', 'R', 'R']
        || u == seq!['R', 'R', '7', '3'] || u == seq!['7', '3'] || u == seq!['R'] || u == seq![
        'T',
        'U',
    ]
}

/// A token that can be a call sign worth hashing: at least three bytes,
/// not the hash marker, `CQ` or a protocol word, and, without `<` and `>`,
/// no grid square but letters, digits and `/` with at least one letter and
/// one digit.
pub open spec fn hashable_token(token: Seq<char>) -> bool {
    let t = trim(token);
    let u = upper(t);
    let bare = strip_trail(strip_lead(t, '<', '<'), '>', '>');
    if byte_len(t) < 3 || t == seq!['<', '.', '.', '.', '>'] || u == seq!['C', 'Q'] {
        false
    } else if protocol_word(u) {
        false
    } else {
        !grid4_shape(bare) && (forall|k: int|
            0 <= k < bare.len() ==> ascii_alpha(#[trigger] bare[k]) || is_digit(bare[k]) || bare[k]
                == '/') && (exists|k: int| 0 <= k < bare.len() && ascii_alpha(#[trigger] bare[k]))
            && (exists|k: int| 0 <= k < bare.len() && is_digit(#[trigger] bare[k]))
    }
}

fn is_protocol_word(u: &[char]) -> (r: bool)
    ensures
        r == protocol_word(u@),
{
    proof {
        assert(['D', 'E']@ == seq!['D', 'E']);
        assert(['Q', 'R', 'Z']@ == seq!['Q', 'R', 'Z']);
        assert(['D', 'X']@ == seq!['D', 'X']);
        assert(['R', 'R', 'R']@ == seq!['R', 'R', 'R']);
        assert(['R', 'R', '7', '3']@ == seq!['R', 'R', '7', '3']);
        assert(['7', '3']@ == seq!['7', '3']);
        assert(['R']@ == seq!['R']);
        assert(['T', 'U']@ == seq!['T', 'U']);
    }
    eq_chars(u, &['D', 'E']) || eq_chars(u, &['Q', 'R', 'Z']) || eq_chars(u, &['D', 'X'])
        || eq_chars(u, &['R', 'R', 'R']) || eq_chars(u, &['R', 'R', '7', '3']) || eq_chars(
        u,
        &['7', '3'],
    ) || eq_chars(u, &['R']) || eq_chars(u, &['T', 'U'])
}

pub fn is_hashable_callsign_token(token: &str) -> (r: bool)
    ensures
        r == hashable_token(token@),
{
    let cs = chars_of(token);
    let t = trim_chars(&cs);
    let u = upper_chars(&t);
    if byte_len_chars(&t) < 3 || eq_chars(&t, &['<', '.', '.', '.', '>']) || eq_chars(&u, &['C', 'Q']) {
        proof {
            assert(['<', '.', '.', '.', '>']@ == seq!['<', '.', '.', '.', '>']);
            assert(['C', 'Q']@ == seq!['C', 'Q']);
        }
        return false;
    }
    proof {
        assert(['<', '.', '.', '.', '>']@ == seq!['<', '.', '.', '.', '>']);
        assert(['C', 'Q']@ == seq!['C', 'Q']);
    }
    if is_protocol_word(&u) {
        return false;
    }
    let a = crate::text::strip_lead_chars(&t, '<', '<');
    let bare = crate::text::strip_trail_chars(&a, '>', '>');
    if is_grid4_chars(&bare) {
        return false;
    }
    let mut all_ok = true;
    let mut any_alpha = false;
    let mut any_digit = false;
    let mut i: usize = 0;
    while i < bare.len()
        invariant
            i <= bare@.len(),
            all_ok == forall|k: int| 0 <= k < i ==> ascii_alpha(#[trigger] bare@[k]) || is_digit(bare@[k])
                || bare@[k] == '/',
            any_alpha == exists|k: int| 0 <= k < i && ascii_alpha(#[trigger] bare@[k]),
            any_digit == exists|k: int| 0 <= k < i && is_digit(#[trigger] bare@[k]),
        decreases bare@.len() - i,
    {
        let c = bare[i];
        let alpha = ('A' <= c && c <= 'Z') || ('a' <= c && c <= 'z');
        let digit = crate::text::is_digit_char(c);
        if !(alpha || digit || c == '/') {
            all_ok = false;
        }
        if alpha {
            any_alpha = true;
        }
        if digit {
            any_digit = true;
        }
        proof {
            assert(ascii_alpha(bare@[i as int]) == alpha);
        }
        i = i + 1;
    }
    all_ok && any_alpha && any_digit
}

/// The form in which the call book keeps a hashable token: trimmed, without
/// its `<` and `>`, upper-cased.
pub open spec fn hash_call_form(token: Seq<char>) -> Seq<char> {
    upper(strip_trail(strip_lead(trim(token), '<', '<'), '>', '>'))
}

/// A call as the call book keeps it: letters `A` to `Z`, digits and `/`,
/// with at least one letter and one digit.
pub open spec fn call_shape(c: Seq<char>) -> bool {
    &&& forall|k: int| 0 <= k < c.len() ==> is_upper(#[trigger] c[k]) || is_digit(c[k]) || c[k] == '/'
    &&& exists|k: int| 0 <= k < c.len() && is_upper(#[trigger] c[k])
    &&& exists|k: int| 0 <= k < c.len() && is_digit(#[trigger] c[k])
}

/// What the book keeps of a hashable token has the shape of a call.
pub proof fn lemma_hash_call_shape(token: Seq<char>)
    requires
        hashable_token(token),
    ensures
        call_shape(hash_call_form(token)),
        hash_call_form(token).len() > 0,
{
    let bare = strip_trail(strip_lead(trim(token), '<', '<'), '>', '>');
    let u = upper(bare);
    assert forall|k: int| 0 <= k < u.len() implies is_upper(#[trigger] u[k]) || is_digit(u[k]) || u[k] == '/' by {
        assert(u[k] == crate::text::to_upper(bare[k]));
    }
    let ka = choose|k: int| 0 <= k < bare.len() && ascii_alpha(#[trigger] bare[k]);
    assert(u[ka] == crate::text::to_upper(bare[ka]));
    assert(is_upper(u[ka]));
    let kd = choose|k: int| 0 <= k < bare.len() && is_digit(#[trigger] bare[k]);
    assert(u[kd] == crate::text::to_upper(bare[kd]));
    assert(is_digit(u[kd]));
}

/// The call a message token files in the call book: its kept form exactly
/// when the token is hashable.
pub fn hash_call(token: &str) -> (r: Option<String>)
    ensures
        r is Some <==> hashable_token(token@),
        r matches Some(c) ==> c@ == hash_call_form(token@) && call_shape(c@),
{
    if !is_hashable_callsign_token(token) {
        return None;
    }
    let cs = chars_of(token);
    let t = trim_chars(&cs);
    let a = crate::text::strip_lead_chars(&t, '<', '<');
    let bare = crate::text::strip_trail_chars(&a, '>', '>');
    let u = upper_chars(&bare);
    proof {
        lemma_hash_call_shape(token@);
    }
    Some(string_of(&u))
}

/// The first position at or after `from` that holds `c`.
pub(crate) fn find_char(v: &[char], c: char, from: usize) -> (r: Option<usize>)
    ensures
        match r {
            Some(k) => from <= k < v@.len() && v@[k as int] == c && forall|j: int| from <= j < k ==> v@[j] != c,
            None => forall|j: int| from <= j < v@.len() ==> v@[j] != c,
        },
{
    let mut i: usize = from;
    while i < v.len()
        invariant
            from <= i,
            forall|j: int| from <= j < i ==> v@[j] != c,
        decreases v@.len() - i,
    {
        if v[i] == c {
            return Some(i);
        }
        i = i + 1;
    }
    None
}

/// The first two space-separated fields of a message (what precedes the
/// second space), trimmed; none when the message has fewer than two
/// spaces.
pub open spec fn base_two_calls(msg: Seq<char>) -> Option<Seq<char>> {
    if exists|i: int, j: int| 0 <= i < j < msg.len() && msg[i] == ' ' && msg[j] == ' ' {
        let i = choose|i: int| 0 <= i < msg.len() && msg[i] == ' ' && forall|k: int| 0 <= k < i ==> msg[k] != ' ';
        let j = choose|j: int| i < j < msg.len() && msg[j] == ' ' && forall|k: int| i < k < j ==> msg[k] != ' ';
        Some(trim(msg.subrange(0, j)))
    } else {
        None
    }
}

pub fn message_base_two_calls(msg: &str) -> (r: Option<String>)
    ensures
        match r {
            Some(s) => base_two_calls(msg@) == Some(s@),
            None => base_two_calls(msg@) is None,
        },
{
    let m = chars_of(msg);
    let first = match find_char(&m, ' ', 0) {
        Some(k) => k,
        None => {
            return None;
        },
    };
    assert(first < m.len());
    let second = match find_char(&m, ' ', first + 1) {
        Some(k) => k,
        None => {
            proof {
                assert forall|i: int, j: int| 0 <= i < j < m@.len() && m@[i] == ' ' implies m@[j] != ' ' by {
                    if i < first {
                    }
                }
            }
            return None;
        },
    };
    proof {
        assert(m@[first as int] == ' ' && m@[second as int] == ' ');
        let i = choose|i: int| 0 <= i < m@.len() && m@[i] == ' ' && forall|k: int| 0 <= k < i ==> m@[k] != ' ';
        assert(i == first) by {
            if i < first {
            } else if i > first {
            }
        }
        let j = choose|j: int| i < j < m@.len() && m@[j] == ' ' && forall|k: int| i < k < j ==> m@[k] != ' ';
        assert(j == second) by {
            if j < second {
            } else if j > second {
            }
        }
    }
    let head = crate::text::slice_range(&m, 0, second);
    let t = trim_chars(&head);
    Some(string_of(&t))
}

/// `"{mycall} {hiscall} "` from the trimmed calls, when both have at least
/// three bytes.
pub open spec fn qso_root(mycall: Option<&str>, hiscall: Option<&str>) -> Option<Seq<char>> {
    match (mycall, hiscall) {
        (Some(m), Some(h)) => {
            let mt = trim(m@);
            let ht = trim(h@);
            if byte_len(mt) < 3 || byte_len(ht) < 3 {
                None
            } else {
                Some(mt + seq![' '] + ht + seq![' '])
            }
        },
        _ => None,
    }
}

pub fn msgroot(mycall: Option<&str>, hiscall: Option<&str>) -> (r: Option<String>)
    ensures
        match r {
            Some(s) => qso_root(mycall, hiscall) == Some(s@),
            None => qso_root(mycall, hiscall) is None,
        },
{
    match (mycall, hiscall) {
        (Some(m), Some(h)) => {
            let mc = chars_of(m);
            let hc = chars_of(h);
            let mt = trim_chars(&mc);
            let ht = trim_chars(&hc);
            if byte_len_chars(&mt) < 3 || byte_len_chars(&ht) < 3 {
                return None;
            }
            let mut out: Vec<char> = Vec::new();
            crate::dx_report::push_all(&mut out, &mt);
            out.push(' ');
            crate::dx_report::push_all(&mut out, &ht);
            out.push(' ');
            proof {
                assert(out@ =~= mt@ + seq![' '] + ht@ + seq![' ']);
            }
            Some(string_of(&out))
        },
        _ => None,
    }
}

/// The configured call's text, empty when unset.
pub open spec fn call_text(call: Option<&str>) -> Seq<char> {
    match call {
        Some(c) => c@,
        None => Seq::empty(),
    }
}

/// The call set off by spaces.
pub open spec fn spaced(c: Seq<char>) -> Seq<char> {
    seq![' '] + c + seq![' ']
}

/// My call (trimmed), set off by spaces, occurs in the message and its
/// first occurrence is not at the very start; only for calls of four bytes
/// or more.
pub open spec fn mentions_late(call: Seq<char>, msg: Seq<char>) -> bool {
    byte_len(trim(call)) > 3 && (exists|k: int| occurs_at(msg, spaced(trim(call)), k)) && !occurs_at(
        msg,
        spaced(trim(call)),
        0,
    )
}

pub fn deep_message_mentions_mycall_late(mycall: Option<&str>, msg: &str) -> (r: bool)
    ensures
        r == mentions_late(call_text(mycall), msg@),
{
    let raw: Vec<char> = match mycall {
        Some(m) => chars_of(m),
        None => Vec::new(),
    };
    assert(raw@ == call_text(mycall));
    let c = trim_chars(&raw);
    if byte_len_chars(&c) <= 3 {
        return false;
    }
    let mut pat: Vec<char> = Vec::new();
    pat.push(' ');
    crate::dx_report::push_all(&mut pat, &c);
    pat.push(' ');
    assert(pat@ =~= spaced(c@));
    let m = chars_of(msg);
    match crate::text::find_chars(&m, &pat) {
        Some(k) => {
            assert(occurs_at(m@, pat@, k as int));
            if k > 0 {
                assert(!occurs_at(m@, pat@, 0));
            }
            k > 0
        },
        None => false,
    }
}

/// A word in hash brackets that is not the unresolved hash, with its
/// first `<...>` pair removed: the text between them, then the text after
/// the `>`.
pub open spec fn unbraced(w: Seq<char>) -> Option<Seq<char>> {
    if !(w.len() >= 1 && w[0] == '<') || (w.len() >= 2 && w[1] == '.') {
        None
    } else if exists|e: int| 0 <= e < w.len() && w[e] == '>' {
        let e = choose|e: int| 0 <= e < w.len() && w[e] == '>' && forall|k: int| 0 <= k < e ==> w[k] != '>';
        Some(w.subrange(1, e) + w.subrange(e + 1, w.len() as int))
    } else {
        None
    }
}

pub fn strip_non_hash_braces(word: &[char]) -> (r: Option<Vec<char>>)
    ensures
        match r {
            Some(v) => unbraced(word@) == Some(v@),
            None => unbraced(word@) is None,
        },
{
    if !(word.len() >= 1 && word[0] == '<') || (word.len() >= 2 && word[1] == '.') {
        return None;
    }
    let e = match find_char(word, '>', 0) {
        Some(e) => e,
        None => {
            return None;
        },
    };
    proof {
        let j = choose|j: int| 0 <= j < word@.len() && word@[j] == '>' && forall|k: int| 0 <= k < j ==> word@[k] != '>';
        assert(j == e) by {
            if j < e {
            } else if j > e {
            }
        }
    }
    let mut out = crate::text::slice_range(word, 1, e);
    let tail = crate::text::slice_range(word, e + 1, word.len());
    crate::dx_report::push_all(&mut out, &tail);
    Some(out)
}

/// The first of the first three words that carries a call in hash
/// brackets, with the brackets removed.
pub open spec fn first_unbraced(ws: Seq<Seq<char>>, k: int) -> Option<int>
    decreases k,
{
    if k <= 0 {
        None
    } else {
        match first_unbraced(ws, k - 1) {
            Some(i) => Some(i),
            None => if unbraced(ws[k - 1]) is Some {
                Some(k - 1)
            } else {
                None
            },
        }
    }
}

pub(crate) proof fn lemma_first_unbraced_found(ws: Seq<Seq<char>>, k: int, n: int)
    requires
        0 <= k <= n,
        first_unbraced(ws, k) is Some,
    ensures
        first_unbraced(ws, n) == first_unbraced(ws, k),
    decreases n - k,
{
    if n > k {
        lemma_first_unbraced_found(ws, k, n - 1);
    }
}

/// The message with the brackets removed from the first hashed call among
/// its first three words, its words joined by single spaces.
pub open spec fn delbraced(msg: Seq<char>) -> Seq<char> {
    let ws = words(msg);
    let n = if ws.len() < 3 {
        ws.len() as int
    } else {
        3
    };
    match first_unbraced(ws, n) {
        Some(i) => join(ws.update(i, unbraced(ws[i]).unwrap())),
        None => join(ws),
    }
}

pub fn delbraces(msg37: &str) -> (r: String)
    ensures
        r@ == delbraced(msg37@),
{
    let m = chars_of(msg37);
    let mut ws = split_ws(&m);
    let n = if ws.len() < 3 {
        ws.len()
    } else {
        3
    };
    let ghost w0 = wv(ws@);
    let mut idx: usize = 0;
    while idx < n
        invariant
            idx <= n <= ws@.len(),
            n == if w0.len() < 3 { w0.len() as int } else { 3 },
            wv(ws@) == w0,
            w0 == words(msg37@),
            first_unbraced(w0, idx as int) is None,
        decreases n - idx,
    {
        match strip_non_hash_braces(&ws[idx]) {
            Some(stripped) => {
                proof {
                    assert(first_unbraced(w0, idx + 1) == Some(idx as int));
                    lemma_first_unbraced_found(w0, idx + 1, n as int);
                }
                let ghost before = ws@;
                ws.set(idx, stripped);
                proof {
                    assert(wv(ws@) =~= w0.update(idx as int, unbraced(w0[idx as int]).unwrap()));
                }
                let j = join_words(&ws);
                return string_of(&j);
            },
            None => {},
        }
        idx = idx + 1;
    }
    let j = join_words(&ws);
    string_of(&j)
}

/// The two messages a five-word special message stands for:
/// `"{call1} {call3} RR73"` and `"{call2} {call3} {report}"`, with the
/// hash brackets taken off the third call unless it is a hash.
pub open spec fn parsed_pair(msg: Seq<char>) -> Option<(Seq<char>, Seq<char>)> {
    let ws = words(msg);
    if ws.len() < 5 {
        None
    } else {
        let call3 = if has_prefix(ws[3], seq!['<', '.']) {
            seq!['<', '.', '.', '.', '>']
        } else {
            strip_trail(strip_lead(ws[3], '<', '<'), '>', '>')
        };
        let report = join(ws.subrange(4, ws.len() as int));
        Some((ws[0] + seq![' '] + call3 + " RR73"@, ws[2] + seq![' '] + call3 + seq![' '] + report))
    }
}

pub fn msgparser(msg37: &str) -> (r: Option<(String, String)>)
    ensures
        match r {
            Some((a, b)) => parsed_pair(msg37@) == Some((a@, b@)),
            None => parsed_pair(msg37@) is None,
        },
{
    let m = chars_of(msg37);
    let ws = split_ws(&m);
    if ws.len() < 5 {
        return None;
    }
    let call3: Vec<char> = if starts_with(&ws[3], &['<', '.']) {
        proof {
            assert(['<', '.']@ == seq!['<', '.']);
        }
        let mut h: Vec<char> = Vec::new();
        crate::dx_report::push_all(&mut h, &['<', '.', '.', '.', '>']);
        proof {
            assert(h@ =~= seq!['<', '.', '.', '.', '>']);
        }
        h
    } else {
        proof {
            assert(['<', '.']@ == seq!['<', '.']);
        }
        let a = crate::text::strip_lead_chars(&ws[3], '<', '<');
        crate::text::strip_trail_chars(&a, '>', '>')
    };
    let mut rest: Vec<Vec<char>> = Vec::new();
    let mut k: usize = 4;
    while k < ws.len()
        invariant
            4 <= k <= ws@.len(),
            wv(rest@) == wv(ws@).subrange(4, k as int),
        decreases ws@.len() - k,
    {
        let w = crate::text::slice_range(&ws[k], 0, ws[k].len());
        let ghost before = wv(rest@);
        rest.push(w);
        proof {
            assert(ws@[k as int]@.subrange(0, ws@[k as int]@.len() as int) =~= ws@[k as int]@);
            assert(wv(rest@) =~= before.push(ws@[k as int]@));
            assert(wv(ws@).subrange(4, k + 1) =~= wv(ws@).subrange(4, k as int).push(wv(ws@)[k as int]));
        }
        k = k + 1;
    }
    let report = join_words(&rest);
    let mut first: Vec<char> = Vec::new();
    crate::dx_report::push_all(&mut first, &ws[0]);
    first.push(' ');
    crate::dx_report::push_all(&mut first, &call3);
    let rr = chars_of(" RR73");
    crate::dx_report::push_all(&mut first, &rr);
    let mut second: Vec<char> = Vec::new();
    crate::dx_report::push_all(&mut second, &ws[2]);
    second.push(' ');
    crate::dx_report::push_all(&mut second, &call3);
    second.push(' ');
    crate::dx_report::push_all(&mut second, &report);
    proof {
        assert(first@ =~= ws@[0]@ + seq![' '] + call3@ + " RR73"@);
        assert(second@ =~= ws@[2]@ + seq![' '] + call3@ + seq![' '] + report@);
    }
    Some((string_of(&first), string_of(&second)))
}

} // verus!
