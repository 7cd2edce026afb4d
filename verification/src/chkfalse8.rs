//! Rules of the false-decode filter that read only the message, its words
//! and its type labels.
use vstd::prelude::*;
use vstd::utf8::encode_utf8;
use crate::callsign::{callsign_q_reject, callsign_q_reject_chars, q_reject_key, q_reject_shape, strip_portable_suffix, without_portable};
use crate::chkgrid::{chkgrid, grid4_shape, is_grid4};
use crate::text::{byte_len, byte_len_chars, chars_of, contains_chars, ends_with, has_suffix, occurs_at, string_of, trim, upper};

verus! {

/// The character sequences of a list of words.
pub open spec fn sv(ws: Seq<&str>) -> Seq<Seq<char>> {
    ws.map_values(|s: &str| s@)
}

/// The first of the words `0..n` equal to `w`.
pub open spec fn first_index(ws: Seq<Seq<char>>, w: Seq<char>, n: int) -> Option<int>
    decreases n,
{
    if n <= 0 {
        None
    } else {
        match first_index(ws, w, n - 1) {
            Some(i) => Some(i),
            None => if ws[n - 1] == w {
                Some(n - 1)
            } else {
                None
            },
        }
    }
}

/// The position of the first word equal to `w`.
pub open spec fn position(ws: Seq<Seq<char>>, w: Seq<char>) -> Option<int> {
    first_index(ws, w, ws.len() as int)
}

pub(crate) proof fn lemma_first_index_found(ws: Seq<Seq<char>>, w: Seq<char>, k: int, n: int)
    requires
        0 <= k <= n,
        first_index(ws, w, k) is Some,
    ensures
        first_index(ws, w, n) == first_index(ws, w, k),
    decreases n - k,
{
    if n > k {
        lemma_first_index_found(ws, w, k, n - 1);
    }
}

pub(crate) proof fn lemma_first_index_bounds(ws: Seq<Seq<char>>, w: Seq<char>, n: int)
    ensures
        first_index(ws, w, n) matches Some(i) ==> 0 <= i < n && ws[i] == w,
    decreases n,
{
    if n > 0 {
        lemma_first_index_bounds(ws, w, n - 1);
    }
}

/// The index of the first word equal to `lit`.
fn find_word(words: &[&str], lit: &[char]) -> (r: Option<usize>)
    ensures
        r matches Some(i) ==> i < words@.len(),
        r matches Some(i) ==> i as int == position(sv(words@), lit@).unwrap() && position(
            sv(words@),
            lit@,
        ) is Some,
        r is None ==> position(sv(words@), lit@) is None,
{
    let mut i: usize = 0;
    while i < words.len()
        invariant
            i <= words@.len(),
            first_index(sv(words@), lit@, i as int) is None,
        decreases words@.len() - i,
    {
        let w = chars_of(words[i]);
        if crate::text::eq_chars(&w, lit) {
            proof {
                assert(sv(words@)[i as int] == lit@);
                lemma_first_index_found(sv(words@), lit@, i + 1, words@.len() as int);
            }
            return Some(i);
        }
        i = i + 1;
    }
    None
}

/// The suffix of a rover call, `/R`.
pub open spec fn rover_suffix() -> Seq<char> {
    seq!['/', 'R']
}

/// The message shapes that the type label rules out at once: a type-2
/// label on text without `/P `, an AP type-2 decode with the hash `<...>`
/// second or third and a grid after it, and a type-4.0 message with a
/// `/R` call and a grid.
pub open spec fn post_label_reject(msg: Seq<char>, ws: Seq<Seq<char>>, i3: usize, n3: usize, iaptype: i32) -> bool {
    ||| i3 == 2 && !(exists|k: int| occurs_at(msg, seq!['/', 'P', ' '], k))
    ||| iaptype == 2 && match position(ws, seq!['<', '.', '.', '.', '>']) {
        Some(p) => 1 <= p <= 2 && p + 1 < ws.len() && grid4_shape(ws[p + 1]),
        None => false,
    }
    ||| i3 == 4 && n3 == 0 && (exists|k: int| 0 <= k < ws.len() && #[trigger] has_suffix(ws[k], rover_suffix())) && (exists|k: int|
        0 <= k < ws.len() && #[trigger] grid4_shape(ws[k]))
}

/// Whether some word ends with `/R`.
fn any_word_portable_r(words: &[&str]) -> (r: bool)
    ensures
        r == exists|k: int| 0 <= k < words@.len() && #[trigger] has_suffix(sv(words@)[k], rover_suffix()),
{
    let mut i: usize = 0;
    while i < words.len()
        invariant
            i <= words@.len(),
            forall|k: int| 0 <= k < i ==> !#[trigger] has_suffix(sv(words@)[k], rover_suffix()),
        decreases words@.len() - i,
    {
        let w = chars_of(words[i]);
        if ends_with(&w, &['/', 'R']) {
            proof {
                assert(['/', 'R']@ == rover_suffix());
                assert(has_suffix(sv(words@)[i as int], rover_suffix()));
            }
            return true;
        }
        proof {
            assert(['/', 'R']@ == rover_suffix());
        }
        i = i + 1;
    }
    false
}

/// Whether some word is a grid square.
fn any_word_grid(words: &[&str]) -> (r: bool)
    ensures
        r == exists|k: int| 0 <= k < words@.len() && #[trigger] grid4_shape(sv(words@)[k]),
{
    let mut i: usize = 0;
    while i < words.len()
        invariant
            i <= words@.len(),
            forall|k: int| 0 <= k < i ==> !#[trigger] grid4_shape(sv(words@)[k]),
        decreases words@.len() - i,
    {
        if is_grid4(words[i]) {
            assert(grid4_shape(sv(words@)[i as int]));
            return true;
        }
        i = i + 1;
    }
    false
}

pub fn rejects_post_label_protocol_shape(msg: &str, words: &[&str], i3: usize, n3: usize, iaptype: i32) -> (r: bool)
    ensures
        r == post_label_reject(msg@, sv(words@), i3, n3, iaptype),
{
    let m = chars_of(msg);
    if i3 == 2 && !contains_chars(&m, &['/', 'P', ' ']) {
        proof {
            assert(['/', 'P', ' ']@ == seq!['/', 'P', ' ']);
        }
        return true;
    }
    proof {
        assert(['/', 'P', ' ']@ == seq!['/', 'P', ' ']);
    }
    if iaptype == 2 {
        let hash = ['<', '.', '.', '.', '>'];
        proof {
            assert(hash@ == seq!['<', '.', '.', '.', '>']);
        }
        match find_word(words, &hash) {
            Some(p) => {
                if 1 <= p && p <= 2 && p + 1 < words.len() && is_grid4(words[p + 1]) {
                    return true;
                }
            },
            None => {},
        }
    }
    if i3 == 4 && n3 == 0 && any_word_portable_r(words) {
        if any_word_grid(words) {
            return true;
        }
    }
    false
}

/// The late grid check of a CQ: only for a plain type-1 CQ with a three-
/// or four-byte second word and a call longer than three bytes, whose
/// fourth word must then be a valid grid if it has the grid shape.
pub open spec fn late_cq_grid_ok(ws: Seq<Seq<char>>, i3: usize, iaptype: i32) -> bool {
    if iaptype != 0 || i3 != 1 || ws.len() < 4 {
        true
    } else if !(byte_len(ws[1]) == 3 || byte_len(ws[1]) == 4) || byte_len(ws[2]) <= 3 {
        true
    } else if grid4_shape(ws[3]) {
        grid4_shape(upper(trim(ws[3])))
    } else {
        true
    }
}

pub fn accept_late_cq_grid_check(words: &[&str], i3: usize, iaptype: i32) -> (r: bool)
    ensures
        r == late_cq_grid_ok(sv(words@), i3, iaptype),
{
    if iaptype != 0 || i3 != 1 || words.len() < 4 {
        return true;
    }
    let w1 = chars_of(words[1]);
    let w2 = chars_of(words[2]);
    let l1 = byte_len_chars(&w1);
    let l2 = byte_len_chars(&w2);
    if !(l1 == 3 || l1 == 4) || l2 <= 3 {
        return true;
    }
    let grid = words[3];
    if is_grid4(grid) {
        let check = chkgrid(words[2], grid);
        return check.lgvalid && !check.lwrongcall;
    }
    true
}

/// A grid word that a message reports for `call` fails: a four-byte word
/// that is not a grid, or a grid that the grid check finds invalid.
pub open spec fn grid_word_fails(grid: Seq<char>) -> bool {
    (byte_len(grid) == 4 && !grid4_shape(grid)) || (grid4_shape(grid) && !grid4_shape(
        upper(trim(grid)),
    ))
}

/// An AP type-2 decode stands when its second word, without a `/R` or `/P`
/// suffix, has a call shape, and the word after the first `R` (or, with no
/// `R`, the third word) is no failed grid.
pub open spec fn ap_type2_ok(ws: Seq<Seq<char>>) -> bool {
    if ws.len() < 2 {
        false
    } else if q_reject_shape(q_reject_key(without_portable(ws[1]))) {
        false
    } else {
        match position(ws, seq!['R']) {
            Some(p) => !(p + 1 < ws.len() && grid_word_fails(ws[p + 1])),
            None => !(2 < ws.len() && grid_word_fails(ws[2])),
        }
    }
}

fn grid_word_check(grid: &str) -> (fails: bool)
    ensures
        fails == grid_word_fails(grid@),
{
    let g = chars_of(grid);
    let n = byte_len_chars(&g);
    if n == 4 && !is_grid4(grid) {
        return true;
    }
    if is_grid4(grid) {
        let check = chkgrid(grid, grid);
        if check.lwrongcall || !check.lgvalid {
            return true;
        }
    }
    false
}

pub fn accept_ap_type2_message(words: &[&str]) -> (r: bool)
    ensures
        r == ap_type2_ok(sv(words@)),
{
    if words.len() < 2 {
        return false;
    }
    let w1 = chars_of(words[1]);
    let call = strip_portable_suffix(&w1);
    if callsign_q_reject_chars(&call) {
        return false;
    }
    let r_lit = ['R'];
    proof {
        assert(r_lit@ == seq!['R']);
    }
    match find_word(words, &r_lit) {
        Some(p) => {
            if p + 1 < words.len() && grid_word_check(words[p + 1]) {
                return false;
            }
        },
        None => {
            if 2 < words.len() && grid_word_check(words[2]) {
                return false;
            }
        },
    }
    true
}

/// The grid an AP type-40 decode reports: the word after the first `R`,
/// else the third word.
pub open spec fn type40_grid(ws: Seq<Seq<char>>) -> Option<Seq<char>> {
    match position(ws, seq!['R']) {
        Some(p) => if p + 1 < ws.len() {
            Some(ws[p + 1])
        } else if 2 < ws.len() {
            Some(ws[2])
        } else {
            None
        },
        None => if 2 < ws.len() {
            Some(ws[2])
        } else {
            None
        },
    }
}

/// An AP type-40 decode stands when its second word has a call shape and
/// its grid, if it has the grid shape, passes the grid check.
pub open spec fn ap_type40_ok(ws: Seq<Seq<char>>) -> bool {
    if ws.len() < 2 {
        false
    } else if q_reject_shape(q_reject_key(ws[1])) {
        false
    } else {
        match type40_grid(ws) {
            Some(g) => !(grid4_shape(g) && !grid4_shape(upper(trim(g)))),
            None => true,
        }
    }
}

pub fn accept_ap_type40_message(words: &[&str]) -> (r: bool)
    ensures
        r == ap_type40_ok(sv(words@)),
{
    if words.len() < 2 {
        return false;
    }
    let call = words[1];
    if callsign_q_reject(call) {
        return false;
    }
    let r_lit = ['R'];
    proof {
        assert(r_lit@ == seq!['R']);
    }
    let pick: Option<usize> = match find_word(words, &r_lit) {
        Some(p) => if p + 1 < words.len() {
            Some(p + 1)
        } else if 2 < words.len() {
            Some(2)
        } else {
            None
        },
        None => if 2 < words.len() {
            Some(2)
        } else {
            None
        },
    };
    match pick {
        Some(k) => {
            let grid = words[k];
            if is_grid4(grid) {
                let check = chkgrid(call, grid);
                if check.lwrongcall || !check.lgvalid {
                    return false;
                }
            }
        },
        None => {},
    }
    true
}

/// An AP decode of the QSO (my call, his call, then a grid, possibly after
/// `R`) is refused when the grid is not the one held for him: for AP type
/// 21 unless it reads `RR73`, otherwise when the grid check finds it
/// invalid.
pub open spec fn ap_qso_grid_reject(ws: Seq<Seq<char>>, iaptype: i32, mycall: Seq<char>, hiscall: Seq<char>, hisgrid4: Seq<char>) -> bool {
    let mc = trim(mycall);
    let hc = trim(hiscall);
    if ws.len() < 3 || mc.len() == 0 || hc.len() == 0 || ws[0] != mc || ws[1] != hc {
        false
    } else {
        let grid = if ws[2] == seq!['R'] {
            if ws.len() > 3 {
                ws[3]
            } else {
                Seq::empty()
            }
        } else {
            ws[2]
        };
        if !grid4_shape(grid) || grid == hisgrid4 {
            false
        } else if iaptype == 21 {
            grid != seq!['R', 'R', '7', '3']
        } else {
            !grid4_shape(upper(trim(grid)))
        }
    }
}

pub fn rejects_ap_qso_grid_message(words: &[&str], iaptype: i32, mycall: &str, hiscall: &str, hisgrid4: &str) -> (r: bool)
    ensures
        r == ap_qso_grid_reject(sv(words@), iaptype, mycall@, hiscall@, hisgrid4@),
{
    if words.len() < 3 {
        return false;
    }
    let mcv = chars_of(mycall);
    let mc = crate::text::trim_chars(&mcv);
    let hcv = chars_of(hiscall);
    let hc = crate::text::trim_chars(&hcv);
    let w0 = chars_of(words[0]);
    let w1 = chars_of(words[1]);
    if mc.len() == 0 || hc.len() == 0 || !crate::text::eq_chars(&w0, &mc) || !crate::text::eq_chars(&w1, &hc) {
        return false;
    }
    let w2 = chars_of(words[2]);
    proof {
        assert(['R']@ == seq!['R']);
        assert(['R', 'R', '7', '3']@ == seq!['R', 'R', '7', '3']);
    }
    let grid: Vec<char> = if crate::text::eq_chars(&w2, &['R']) {
        if words.len() > 3 {
            chars_of(words[3])
        } else {
            Vec::new()
        }
    } else {
        w2
    };
    let gs = string_of(&grid);
    if !is_grid4(gs.as_str()) {
        return false;
    }
    let held = chars_of(hisgrid4);
    if crate::text::eq_chars(&grid, &held) {
        return false;
    }
    if iaptype == 21 {
        return !crate::text::eq_chars(&grid, &['R', 'R', '7', '3']);
    }
    let hs = string_of(&hc);
    !chkgrid(hs.as_str(), gs.as_str()).lgvalid
}

/// A standard message from a hashed call to someone other than me is
/// refused when the sender (no portable call, not him) has no call shape,
/// or reports a grid that the grid check rejects.
pub open spec fn first_hash_grid_reject(ws: Seq<Seq<char>>, i3: usize, lcall1hash: bool, mycall: Seq<char>, hiscall: Seq<char>) -> bool {
    if !lcall1hash || i3 != 1 || ws.len() < 3 || ws[0] == trim(mycall) {
        false
    } else {
        let call = ws[1];
        if call.contains('/') || call == trim(hiscall) {
            false
        } else if q_reject_shape(q_reject_key(call)) {
            true
        } else {
            grid4_shape(ws[2]) && !grid4_shape(upper(trim(ws[2])))
        }
    }
}

pub fn rejects_first_hash_grid_message(words: &[&str], i3: usize, lcall1hash: bool, mycall: &str, hiscall: &str) -> (r: bool)
    ensures
        r == first_hash_grid_reject(sv(words@), i3, lcall1hash, mycall@, hiscall@),
{
    if !lcall1hash || i3 != 1 || words.len() < 3 {
        return false;
    }
    let mcv = chars_of(mycall);
    let mc = crate::text::trim_chars(&mcv);
    let w0 = chars_of(words[0]);
    if crate::text::eq_chars(&w0, &mc) {
        return false;
    }
    let call = words[1];
    let cc = chars_of(call);
    let hcv = chars_of(hiscall);
    let hc = crate::text::trim_chars(&hcv);
    let slash = crate::jtdx_calls::find_char(&cc, '/', 0);
    proof {
        if let Some(k) = slash {
            assert(cc@[k as int] == '/');
        }
    }
    if slash.is_some() || crate::text::eq_chars(&cc, &hc) {
        return false;
    }
    if callsign_q_reject(call) {
        return true;
    }
    let grid = words[2];
    if !is_grid4(grid) {
        return false;
    }
    let check = chkgrid(call, grid);
    check.lwrongcall || !check.lgvalid
}

} // verus!
