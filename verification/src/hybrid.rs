//! Merging the rows of the two decoders that share one slot's samples.
use vstd::prelude::*;
use crate::text::{chars_of, join, join_words, split_ws, string_of, upper, upper_chars, words, wv};

verus! {

/// A decoded row as the merge reads it. Frequency and time offset are held
/// in thousandths: millihertz and milliseconds.
pub struct StreamDecodedMessage {
    pub freq_mhz: i64,
    pub dt_ms: i64,
    pub snr: i32,
    pub msg: String,
    /// The sync strength, in thousandths.
    pub sync_milli: i64,
    /// The 79 tones of the decoded frame.
    pub itone: [i32; 79],
}

impl Clone for StreamDecodedMessage {
    fn clone(&self) -> (r: Self)
        ensures
            r == *self,
    {
        StreamDecodedMessage {
            freq_mhz: self.freq_mhz,
            dt_ms: self.dt_ms,
            snr: self.snr,
            msg: self.msg.clone(),
            sync_milli: self.sync_milli,
            itone: self.itone,
        }
    }
}

/// Which decoder produced a merged row.
#[derive(Clone, Copy, Debug, PartialEq, Eq, Structural)]
pub enum DecodeSource {
    Wsjtx,
    Jtdx,
    Both,
}

/// A merged row with the decoder it came from.
pub struct HybridDecodedMessage {
    pub decode: StreamDecodedMessage,
    pub source: DecodeSource,
}

/// A message word as the merge compares it: upper-cased, and a resolved
/// `<call>` hash display reduced to the call.
pub open spec fn merge_word(w: Seq<char>) -> Seq<char> {
    let u = upper(w);
    if u.len() >= 2 && u[0] == '<' && u.last() == '>' && u.len() > 2 && u.subrange(1, u.len() - 1)
        != seq!['.', '.', '.'] {
        u.subrange(1, u.len() - 1)
    } else {
        u
    }
}

/// The message as the merge compares it: its words normalized and joined
/// by single spaces.
pub open spec fn merge_key(msg: Seq<char>) -> Seq<char> {
    join(words(msg).map_values(|w: Seq<char>| merge_word(w)))
}

pub open spec fn abs_diff(a: i64, b: i64) -> int {
    if a >= b {
        a - b
    } else {
        b - a
    }
}

/// Two rows are one signal when they lie within 5 Hz and 0.3 s.
pub open spec fn same_signal(a: StreamDecodedMessage, b: StreamDecodedMessage) -> bool {
    abs_diff(a.freq_mhz, b.freq_mhz) <= 5000 && abs_diff(a.dt_ms, b.dt_ms) <= 300
}

/// A merged row that a new row of the second decoder duplicates.
pub open spec fn duplicates(row: HybridDecodedMessage, d: StreamDecodedMessage) -> bool {
    merge_key(row.decode.msg@) == merge_key(d.msg@) && same_signal(row.decode, d)
}

/// The first of the rows `0..n` that `d` duplicates.
pub open spec fn first_duplicate(rows: Seq<HybridDecodedMessage>, d: StreamDecodedMessage, n: int) -> Option<int>
    decreases n,
{
    if n <= 0 {
        None
    } else {
        match first_duplicate(rows, d, n - 1) {
            Some(i) => Some(i),
            None => if duplicates(rows[n - 1], d) {
                Some(n - 1)
            } else {
                None
            },
        }
    }
}

/// The rows after a row of the second decoder arrives: the first row it
/// duplicates is marked as found by both, else it is appended.
pub open spec fn admit_second(rows: Seq<HybridDecodedMessage>, d: StreamDecodedMessage) -> Seq<HybridDecodedMessage> {
    match first_duplicate(rows, d, rows.len() as int) {
        Some(i) => rows.update(i, HybridDecodedMessage { decode: rows[i].decode, source: DecodeSource::Both }),
        None => rows.push(HybridDecodedMessage { decode: d, source: DecodeSource::Jtdx }),
    }
}

pub open spec fn first_rows(w: Seq<StreamDecodedMessage>) -> Seq<HybridDecodedMessage> {
    w.map_values(|d: StreamDecodedMessage| HybridDecodedMessage { decode: d, source: DecodeSource::Wsjtx })
}

/// The merged rows: every row of the first decoder in order, then the rows
/// of the second decoder taken one by one.
pub open spec fn merged(w: Seq<StreamDecodedMessage>, j: Seq<StreamDecodedMessage>) -> Seq<HybridDecodedMessage>
    decreases j.len(),
{
    if j.len() == 0 {
        first_rows(w)
    } else {
        admit_second(merged(w, j.drop_last()), j.last())
    }
}

pub(crate) proof fn lemma_first_duplicate_found(rows: Seq<HybridDecodedMessage>, d: StreamDecodedMessage, k: int, n: int)
    requires
        0 <= k <= n,
        first_duplicate(rows, d, k) is Some,
    ensures
        first_duplicate(rows, d, n) == first_duplicate(rows, d, k),
    decreases n - k,
{
    if n > k {
        lemma_first_duplicate_found(rows, d, k, n - 1);
    }
}

pub(crate) proof fn lemma_first_duplicate_bounds(rows: Seq<HybridDecodedMessage>, d: StreamDecodedMessage, n: int)
    ensures
        first_duplicate(rows, d, n) matches Some(i) ==> 0 <= i < n && duplicates(rows[i], d),
    decreases n,
{
    if n > 0 {
        lemma_first_duplicate_bounds(rows, d, n - 1);
    }
}

/// Upper-cased, with a resolved hash display reduced to the call.
fn merge_word_chars(w: &[char]) -> (r: Vec<char>)
    ensures
        r@ == merge_word(w@),
{
    let u = upper_chars(w);
    let n = u.len();
    if n > 2 && u[0] == '<' && u[n - 1] == '>' {
        let inner = crate::text::slice_range(&u, 1, n - 1);
        if !crate::text::eq_chars(&inner, &['.', '.', '.']) {
            return inner;
        }
    }
    u
}

/// The message key of the merge, as characters.
fn merge_key_chars(msg: &str) -> (r: Vec<char>)
    ensures
        r@ == merge_key(msg@),
{
    let cs = chars_of(msg);
    let ws = split_ws(&cs);
    let mut out: Vec<Vec<char>> = Vec::new();
    let mut i: usize = 0;
    while i < ws.len()
        invariant
            i <= ws.len(),
            wv(out@) == wv(ws@).subrange(0, i as int).map_values(|w: Seq<char>| merge_word(w)),
        decreases ws.len() - i,
    {
        let m = merge_word_chars(&ws[i]);
        let ghost before = wv(out@);
        out.push(m);
        proof {
            assert(wv(out@) =~= before.push(merge_word(ws[i as int]@)));
            assert(wv(ws@).subrange(0, i + 1).map_values(|w: Seq<char>| merge_word(w))
                =~= wv(ws@).subrange(0, i as int).map_values(|w: Seq<char>| merge_word(w)).push(
                merge_word(ws[i as int]@),
            ));
        }
        i = i + 1;
    }
    proof {
        assert(wv(ws@).subrange(0, ws.len() as int) =~= wv(ws@));
    }
    join_words(&out)
}

/// The message with its words normalized as the merge compares them.
pub fn normalized_message(msg: &str) -> (r: String)
    ensures
        r@ == merge_key(msg@),
{
    let k = merge_key_chars(msg);
    string_of(&k)
}

/// One word normalized as the merge compares it.
pub fn normalized_message_word(word: &str) -> (r: String)
    ensures
        r@ == merge_word(word@),
{
    let cs = chars_of(word);
    let m = merge_word_chars(&cs);
    string_of(&m)
}

fn abs_diff_exec(a: i64, b: i64) -> (r: i128)
    ensures
        r == abs_diff(a, b),
{
    if a >= b {
        (a as i128) - (b as i128)
    } else {
        (b as i128) - (a as i128)
    }
}

pub fn is_same_signal(a: &StreamDecodedMessage, b: &StreamDecodedMessage) -> (r: bool)
    ensures
        r == same_signal(*a, *b),
{
    abs_diff_exec(a.freq_mhz, b.freq_mhz) <= 5000 && abs_diff_exec(a.dt_ms, b.dt_ms) <= 300
}

/// The merged rows with their sources.
pub fn merge_decodes_with_source(
    wsjtx: &[StreamDecodedMessage],
    jtdx: &[StreamDecodedMessage],
) -> (r: Vec<HybridDecodedMessage>)
    ensures
        r@ == merged(wsjtx@, jtdx@),
{
    let mut rows: Vec<HybridDecodedMessage> = Vec::new();
    let mut keys: Vec<Vec<char>> = Vec::new();
    let mut i: usize = 0;
    while i < wsjtx.len()
        invariant
            i <= wsjtx.len(),
            rows@ == first_rows(wsjtx@.subrange(0, i as int)),
            keys@.len() == rows@.len(),
            forall|t: int| 0 <= t < rows@.len() ==> #[trigger] keys@[t]@ == merge_key(rows@[t].decode.msg@),
        decreases wsjtx.len() - i,
    {
        let k = merge_key_chars(wsjtx[i].msg.as_str());
        rows.push(HybridDecodedMessage { decode: wsjtx[i].clone(), source: DecodeSource::Wsjtx });
        keys.push(k);
        proof {
            assert(first_rows(wsjtx@.subrange(0, i + 1)) =~= first_rows(wsjtx@.subrange(0, i as int)).push(
                HybridDecodedMessage { decode: wsjtx@[i as int], source: DecodeSource::Wsjtx },
            ));
        }
        i = i + 1;
    }
    proof {
        assert(wsjtx@.subrange(0, wsjtx.len() as int) =~= wsjtx@);
        assert(jtdx@.subrange(0, 0) =~= Seq::<StreamDecodedMessage>::empty());
    }
    let mut j: usize = 0;
    while j < jtdx.len()
        invariant
            j <= jtdx.len(),
            rows@ == merged(wsjtx@, jtdx@.subrange(0, j as int)),
            keys@.len() == rows@.len(),
            forall|t: int| 0 <= t < rows@.len() ==> #[trigger] keys@[t]@ == merge_key(rows@[t].decode.msg@),
        decreases jtdx.len() - j,
    {
        let d = &jtdx[j];
        let kd = merge_key_chars(d.msg.as_str());
        proof {
            assert(jtdx@.subrange(0, j + 1).drop_last() =~= jtdx@.subrange(0, j as int));
            assert(jtdx@.subrange(0, j + 1).last() == jtdx@[j as int]);
        }
        let mut idx: usize = 0;
        let mut found = false;
        while !found && idx < rows.len()
            invariant
                idx <= rows@.len(),
                keys@.len() == rows@.len(),
                forall|t: int| 0 <= t < rows@.len() ==> #[trigger] keys@[t]@ == merge_key(rows@[t].decode.msg@),
                kd@ == merge_key(d.msg@),
                !found ==> first_duplicate(rows@, *d, idx as int) is None,
                found ==> idx < rows@.len() && first_duplicate(rows@, *d, rows@.len() as int) == Some(idx as int),
            decreases rows@.len() - idx + if found { 0int } else { 1int },
        {
            if crate::text::eq_chars(&keys[idx], &kd) && is_same_signal(&rows[idx].decode, d) {
                proof {
                    assert(duplicates(rows@[idx as int], *d));
                    assert(first_duplicate(rows@, *d, idx + 1) == Some(idx as int));
                    lemma_first_duplicate_found(rows@, *d, idx + 1, rows@.len() as int);
                }
                found = true;
            } else {
                proof {
                    assert(!duplicates(rows@[idx as int], *d));
                }
                idx = idx + 1;
            }
        }
        if found {
            let old_decode = rows[idx].decode.clone();
            rows.set(idx, HybridDecodedMessage { decode: old_decode, source: DecodeSource::Both });
        } else {
            rows.push(HybridDecodedMessage { decode: d.clone(), source: DecodeSource::Jtdx });
            keys.push(kd);
        }
        j = j + 1;
    }
    proof {
        assert(jtdx@.subrange(0, jtdx.len() as int) =~= jtdx@);
    }
    rows
}

/// The decodes of the merged rows, first decoder's rows first.
pub fn merge_decodes(
    wsjtx: &[StreamDecodedMessage],
    jtdx: &[StreamDecodedMessage],
) -> (r: Vec<StreamDecodedMessage>)
    ensures
        r@ == merged(wsjtx@, jtdx@).map_values(|h: HybridDecodedMessage| h.decode),
{
    let rows = merge_decodes_with_source(wsjtx, jtdx);
    let mut out: Vec<StreamDecodedMessage> = Vec::new();
    let mut i: usize = 0;
    while i < rows.len()
        invariant
            i <= rows.len(),
            rows@ == merged(wsjtx@, jtdx@),
            out@ == rows@.subrange(0, i as int).map_values(|h: HybridDecodedMessage| h.decode),
        decreases rows.len() - i,
    {
        out.push(rows[i].decode.clone());
        proof {
            assert(rows@.subrange(0, i + 1).map_values(|h: HybridDecodedMessage| h.decode)
                =~= rows@.subrange(0, i as int).map_values(|h: HybridDecodedMessage| h.decode).push(
                rows@[i as int].decode,
            ));
        }
        i = i + 1;
    }
    proof {
        assert(rows@.subrange(0, rows.len() as int) =~= rows@);
    }
    out
}

/// What the merge keeps: every row of the first decoder stays, in its
/// place and unchanged, marked as found by that decoder or by both; every
/// later row is a row of the second decoder found by it alone; and no row
/// is made up (at most one row per input row).
pub proof fn lemma_merge_keeps_rows(w: Seq<StreamDecodedMessage>, j: Seq<StreamDecodedMessage>)
    ensures
        w.len() <= merged(w, j).len() <= w.len() + j.len(),
        forall|i: int| 0 <= i < w.len() ==> (#[trigger] merged(w, j)[i]).decode == w[i],
        forall|i: int|
            0 <= i < w.len() ==> (#[trigger] merged(w, j)[i]).source == DecodeSource::Wsjtx || merged(
                w,
                j,
            )[i].source == DecodeSource::Both,
        forall|i: int|
            w.len() <= i < merged(w, j).len() ==> ((#[trigger] merged(w, j)[i]).source
                == DecodeSource::Jtdx || merged(w, j)[i].source == DecodeSource::Both) && j.contains(
                merged(w, j)[i].decode,
            ),
    decreases j.len(),
{
    if j.len() == 0 {
        let m = merged(w, j);
        assert(m =~= first_rows(w));
        assert forall|i: int| 0 <= i < w.len() implies (#[trigger] m[i]).decode == w[i] && (
        m[i].source == DecodeSource::Wsjtx || m[i].source == DecodeSource::Both) by {
            assert(first_rows(w)[i] == HybridDecodedMessage { decode: w[i], source: DecodeSource::Wsjtx });
        }
    } else {
        let jp = j.drop_last();
        let d = j.last();
        let prev = merged(w, jp);
        lemma_merge_keeps_rows(w, jp);
        lemma_first_duplicate_bounds(prev, d, prev.len() as int);
        let m = merged(w, j);
        assert(m == admit_second(prev, d));
        assert forall|i: int| 0 <= i < w.len() implies (#[trigger] m[i]).decode == w[i] && (
        m[i].source == DecodeSource::Wsjtx || m[i].source == DecodeSource::Both) by {
            assert(prev[i].decode == w[i]);
        }
        assert forall|i: int| w.len() <= i < m.len() implies ((#[trigger] m[i]).source
            == DecodeSource::Jtdx || m[i].source == DecodeSource::Both) && j.contains(m[i].decode) by {
            if i < prev.len() {
                assert(jp.contains(prev[i].decode));
                let k = choose|k: int| 0 <= k < jp.len() && jp[k] == prev[i].decode;
                assert(j[k] == prev[i].decode);
                assert(m[i].decode == prev[i].decode);
            } else {
                assert(m[i].decode == d);
                assert(j[j.len() - 1] == d);
            }
        }
    }
}

/// A row of the second decoder that repeats a row of the first (same
/// normalized message, same signal) adds no row: the merge then holds the
/// first decoder's row once, marked as found by both.
pub proof fn lemma_duplicate_is_merged(a: StreamDecodedMessage, b: StreamDecodedMessage)
    requires
        merge_key(a.msg@) == merge_key(b.msg@),
        same_signal(a, b),
    ensures
        merged(seq![a], seq![b]).len() == 1,
        merged(seq![a], seq![b])[0].decode == a,
        merged(seq![a], seq![b])[0].source == DecodeSource::Both,
{
    let w = seq![a];
    let j = seq![b];
    assert(j.drop_last() =~= Seq::<StreamDecodedMessage>::empty());
    let prev = merged(w, j.drop_last());
    assert(prev =~= seq![HybridDecodedMessage { decode: a, source: DecodeSource::Wsjtx }]);
    assert(duplicates(prev[0], b));
    assert(first_duplicate(prev, b, 0) is None);
    assert(first_duplicate(prev, b, 1) == Some(0int));
}

} // verus!
