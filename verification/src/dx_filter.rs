//! The DX target: one call sign, and how message words are compared with it.
use vstd::prelude::*;
use crate::text::{
    chars_of, join, join_words, split_ws, string_of, strip_both, strip_both_chars, trim,
    trim_chars, upper, upper_chars, words, wv,
};

verus! {

/// A message word as the DX filter compares it: trimmed, stripped of `;`
/// and `,` at both ends, upper-cased, and with a `<call>` hash display
/// reduced to the call (the unresolved `<...>` stays as it is).
pub open spec fn normalize_word(w: Seq<char>) -> Seq<char> {
    let t = upper(strip_both(trim(w), ';', ','));
    if t.len() >= 2 && t[0] == '<' && t.last() == '>' && t.subrange(1, t.len() - 1) != seq![
        '.',
        '.',
        '.',
    ] {
        t.subrange(1, t.len() - 1)
    } else {
        t
    }
}

/// The whitespace-separated words of a message, each normalized.
pub open spec fn normalized_words(msg: Seq<char>) -> Seq<Seq<char>> {
    words(msg).map_values(|w: Seq<char>| normalize_word(w))
}

/// A call sign as the target stores it: trimmed and upper-cased.
pub open spec fn normalize_call_spec(call: Seq<char>) -> Seq<char> {
    upper(trim(call))
}

/// `word` names the call `call` (an empty call names nothing).
pub open spec fn word_names(call: Seq<char>, word: Seq<char>) -> bool {
    call.len() > 0 && normalize_word(word) == call
}

/// Some word of `msg` names the call.
pub open spec fn message_names(call: Seq<char>, msg: Seq<char>) -> bool {
    call.len() > 0 && exists|i: int|
        0 <= i < normalized_words(msg).len() && #[trigger] normalized_words(msg)[i] == call
}

pub fn normalize_word_chars(w: &[char]) -> (r: Vec<char>)
    ensures
        r@ == normalize_word(w@),
{
    let a = trim_chars(w);
    let b = strip_both_chars(&a, ';', ',');
    let t = upper_chars(&b);
    let n = t.len();
    if n >= 2 && t[0] == '<' && t[n - 1] == '>' {
        let inner = crate::text::slice_range(&t, 1, n - 1);
        if !crate::text::eq_chars(&inner, &['.', '.', '.']) {
            return inner;
        }
    }
    t
}

/// Each word normalized, in order.
pub fn normalize_each(ws: &Vec<Vec<char>>) -> (r: Vec<Vec<char>>)
    ensures
        wv(r@) == wv(ws@).map_values(|w: Seq<char>| normalize_word(w)),
{
    let mut r: Vec<Vec<char>> = Vec::new();
    let mut i: usize = 0;
    while i < ws.len()
        invariant
            i <= ws.len(),
            wv(r@) == wv(ws@).subrange(0, i as int).map_values(|w: Seq<char>| normalize_word(w)),
        decreases ws.len() - i,
    {
        let n = normalize_word_chars(&ws[i]);
        let ghost before = wv(r@);
        r.push(n);
        proof {
            assert(wv(r@) =~= before.push(normalize_word(ws[i as int]@)));
            assert(wv(ws@).subrange(0, i + 1).map_values(|w: Seq<char>| normalize_word(w))
                =~= wv(ws@).subrange(0, i as int).map_values(|w: Seq<char>| normalize_word(w)).push(
                normalize_word(ws[i as int]@),
            ));
        }
        i = i + 1;
    }
    proof {
        assert(wv(ws@).subrange(0, ws.len() as int) =~= wv(ws@));
    }
    r
}

/// The normalized words of a message.
pub fn message_words(msg: &str) -> (r: Vec<Vec<char>>)
    ensures
        wv(r@) == normalized_words(msg@),
{
    let cs = chars_of(msg);
    let ws = split_ws(&cs);
    normalize_each(&ws)
}

/// The call sign `call`, trimmed and upper-cased.
pub fn normalize_call(call: &str) -> (r: Vec<char>)
    ensures
        r@ == normalize_call_spec(call@),
{
    let cs = chars_of(call);
    let t = trim_chars(&cs);
    upper_chars(&t)
}

/// A message word, normalized as the DX filter compares it.
pub fn normalize_message_word(word: &str) -> (r: String)
    ensures
        r@ == normalize_word(word@),
{
    let cs = chars_of(word);
    let n = normalize_word_chars(&cs);
    string_of(&n)
}

/// A message with every word normalized, joined by single spaces.
pub fn normalize_message(msg: &str) -> (r: String)
    ensures
        r@ == join(normalized_words(msg@)),
{
    let ws = message_words(msg);
    let j = join_words(&ws);
    string_of(&j)
}

/// Whether `needle` equals one of the words.
pub fn any_word_equals(ws: &Vec<Vec<char>>, needle: &[char], from: usize) -> (r: bool)
    ensures
        r == exists|i: int| from <= i < ws@.len() && #[trigger] wv(ws@)[i] == needle@,
{
    let mut i: usize = from;
    while i < ws.len()
        invariant
            from <= i,
            forall|j: int| from <= j < i ==> #[trigger] wv(ws@)[j] != needle@,
        decreases ws.len() - i,
    {
        if crate::text::eq_chars(&ws[i], needle) {
            assert(wv(ws@)[i as int] == needle@);
            return true;
        }
        i = i + 1;
    }
    false
}

/// The station being chased, held as its normalized call sign.
#[derive(Clone, Debug)]
pub struct DxTarget {
    call: Vec<char>,
}

impl DxTarget {
    pub closed spec fn call_spec(&self) -> Seq<char> {
        self.call@
    }

    pub fn new(call: &str) -> (t: DxTarget)
        ensures
            t.call_spec() == normalize_call_spec(call@),
    {
        DxTarget { call: normalize_call(call) }
    }

    /// Whether some word of the message names the target.
    pub fn matches_message(&self, msg: &str) -> (r: bool)
        ensures
            r == message_names(self.call_spec(), msg@),
    {
        if self.call.len() == 0 {
            return false;
        }
        let ws = message_words(msg);
        let r = any_word_equals(&ws, &self.call, 0);
        proof {
            if r {
                let i = choose|i: int| 0 <= i < ws@.len() && #[trigger] wv(ws@)[i] == self.call@;
                assert(normalized_words(msg@)[i] == self.call@);
            } else {
                assert forall|i: int| 0 <= i < normalized_words(msg@).len() implies #[trigger] normalized_words(msg@)[i] != self.call@ by {
                    assert(wv(ws@)[i] != self.call@);
                }
            }
        }
        r
    }

    /// Whether the word, once normalized, is the target's call.
    pub fn matches_word(&self, word: &str) -> (r: bool)
        ensures
            r == word_names(self.call_spec(), word@),
    {
        let cs = chars_of(word);
        self.matches_word_chars(&cs)
    }

    pub fn matches_word_chars(&self, word: &[char]) -> (r: bool)
        ensures
            r == word_names(self.call_spec(), word@),
    {
        if self.call.len() == 0 {
            return false;
        }
        let n = normalize_word_chars(word);
        crate::text::eq_chars(&n, &self.call)
    }
}

} // verus!
