//! The calls in the air that a decoder may take as the QSO partner: hints
//! taken from confirmed decodes of the shared evidence, the best ones kept,
//! one per call. Frequencies are in millihertz.
use vstd::prelude::*;
use crate::hybrid_report::context_call;
use crate::text::{strip_lead, strip_trail, upper, words};

verus! {

/// A call to work, where it was heard, the message it came from, and how
/// good a hint it is (the SNR, plus 5 for a CQ).
pub struct QsoContextHint {
    pub hiscall: String,
    pub nfqso_mhz: i64,
    pub source_message: String,
    pub score: i32,
}

/// A row of the shared evidence as the hints read it; `confirmed` holds
/// when the row may be imported and its decode is confirmed by a regular
/// decode or by several decoders.
pub struct HintRow {
    pub message: String,
    pub freq_mhz: i64,
    pub snr_db: i32,
    pub confirmed: bool,
}

/// A hint as plain values: call, frequency, message, score.
pub type HintView = (Seq<char>, i64, Seq<char>, i32);

pub open spec fn hint_view(h: QsoContextHint) -> HintView {
    (h.hiscall@, h.nfqso_mhz, h.source_message@, h.score)
}

pub open spec fn hints_view(v: Seq<QsoContextHint>) -> Seq<HintView> {
    v.map_values(|h: QsoContextHint| hint_view(h))
}

/// The text holds `<...` somewhere.
pub open spec fn has_hash(msg: Seq<char>) -> bool {
    exists|i: int| crate::text::occurs_at(msg, seq!['<', '.', '.', '.'], i)
}

/// The hint a row gives: a confirmed row without an unresolved hash gives
/// its second word as the call (upper-cased, without hash brackets) when
/// that word looks like a call; a CQ of three words or more scores 5 more.
pub open spec fn hint_of(row: HintRow) -> Option<HintView> {
    let msg = row.message@;
    let ws = words(msg);
    if !row.confirmed || has_hash(msg) || ws.len() < 2 {
        None
    } else {
        let bonus: int = if ws.len() >= 3 && upper(ws[0]) == seq!['C', 'Q'] {
            5
        } else {
            0
        };
        let call = ws[1];
        if !context_call(call) {
            None
        } else {
            Some((upper(strip_trail(strip_lead(call, '<', '<'), '>', '>')), row.freq_mhz, msg, (row.snr_db + bonus) as i32))
        }
    }
}

fn copy_chars(v: &[char]) -> (r: Vec<char>)
    ensures
        r@ == v@,
{
    proof {
        assert(v@.subrange(0, v@.len() as int) =~= v@);
    }
    crate::text::slice_range(v, 0, v.len())
}

pub fn qso_hint_from_shared_decode(row: &HintRow) -> (r: Option<QsoContextHint>)
    requires
        row.snr_db <= i32::MAX - 5,
    ensures
        match r {
            Some(h) => hint_of(*row) == Some(hint_view(h)),
            None => hint_of(*row) is None,
        },
{
    if !row.confirmed {
        return None;
    }
    let m = crate::text::chars_of(row.message.as_str());
    proof {
        assert(['<', '.', '.', '.']@ == seq!['<', '.', '.', '.']);
    }
    if crate::text::contains_chars(&m, &['<', '.', '.', '.']) {
        return None;
    }
    let ws = crate::text::split_ws(&m);
    if ws.len() < 2 {
        return None;
    }
    let first = crate::text::upper_chars(&ws[0]);
    proof {
        assert(['C', 'Q']@ == seq!['C', 'Q']);
    }
    let bonus: i32 = if ws.len() >= 3 && crate::text::eq_chars(&first, &['C', 'Q']) {
        5
    } else {
        0
    };
    let call = copy_chars(&ws[1]);
    let call_text = crate::text::string_of(&call);
    if !crate::hybrid_report::is_context_call(call_text.as_str()) {
        return None;
    }
    let a = crate::text::strip_lead_chars(&call, '<', '<');
    let b = crate::text::strip_trail_chars(&a, '>', '>');
    let u = crate::text::upper_chars(&b);
    Some(
        QsoContextHint {
            hiscall: crate::text::string_of(&u),
            nfqso_mhz: row.freq_mhz,
            source_message: crate::text::string_of(&m),
            score: row.snr_db + bonus,
        },
    )
}

/// `a` comes before `b` in character order.
pub open spec fn lex_less(a: Seq<char>, b: Seq<char>) -> bool
    decreases a.len(),
{
    if a.len() == 0 {
        b.len() > 0
    } else if b.len() == 0 {
        false
    } else if a[0] != b[0] {
        (a[0] as u32) < (b[0] as u32)
    } else {
        lex_less(a.drop_first(), b.drop_first())
    }
}

pub(crate) proof fn lemma_lex_irreflexive(a: Seq<char>)
    ensures
        !lex_less(a, a),
    decreases a.len(),
{
    if a.len() > 0 {
        lemma_lex_irreflexive(a.drop_first());
    }
}

pub(crate) proof fn lemma_lex_transitive(a: Seq<char>, b: Seq<char>, c: Seq<char>)
    requires
        lex_less(a, b),
        lex_less(b, c),
    ensures
        lex_less(a, c),
    decreases a.len(),
{
    if a.len() > 0 && b.len() > 0 && c.len() > 0 {
        if a[0] == b[0] && b[0] == c[0] {
            lemma_lex_transitive(a.drop_first(), b.drop_first(), c.drop_first());
        }
    }
}

/// Of two different character sequences, one comes before the other.
pub(crate) proof fn lemma_lex_total(a: Seq<char>, b: Seq<char>)
    requires
        a != b,
    ensures
        lex_less(a, b) || lex_less(b, a),
    decreases a.len(),
{
    if a.len() > 0 && b.len() > 0 && a[0] == b[0] {
        if a.drop_first() == b.drop_first() {
            assert(a =~= seq![a[0]] + a.drop_first());
            assert(b =~= seq![b[0]] + b.drop_first());
        }
        lemma_lex_total(a.drop_first(), b.drop_first());
    } else if a.len() == 0 && b.len() == 0 {
        assert(a =~= b);
    } else if a.len() > 0 && b.len() > 0 {
        let x = a[0];
        let y = b[0];
        if (x as u32) == (y as u32) {
            vstd::utf8::char_u32_cast(x, x as u32);
            vstd::utf8::char_u32_cast(y, y as u32);
        }
    }
}

/// The order of the hints: higher score first, then by call, then by
/// frequency.
pub open spec fn key_lt(a: HintView, b: HintView) -> bool {
    a.3 > b.3 || (a.3 == b.3 && (lex_less(a.0, b.0) || (a.0 == b.0 && a.1 < b.1)))
}

proof fn lemma_key_transitive(a: HintView, b: HintView, c: HintView)
    requires
        key_lt(a, b),
        key_lt(b, c),
    ensures
        key_lt(a, c),
{
    if a.3 == b.3 && b.3 == c.3 {
        if lex_less(a.0, b.0) && lex_less(b.0, c.0) {
            lemma_lex_transitive(a.0, b.0, c.0);
        }
    }
}

proof fn lemma_key_irreflexive(a: HintView)
    ensures
        !key_lt(a, a),
{
    lemma_lex_irreflexive(a.0);
}

/// No later hint comes before an earlier one.
pub open spec fn key_sorted(s: Seq<HintView>) -> bool {
    forall|i: int, j: int| 0 <= i < j < s.len() ==> !key_lt(#[trigger] s[j], #[trigger] s[i])
}

/// The calls of the hints are all different.
pub open spec fn distinct_calls(s: Seq<HintView>) -> bool {
    forall|i: int, j: int| 0 <= i < j < s.len() ==> (#[trigger] s[i]).0 != (#[trigger] s[j]).0
}

/// The first hint for the call.
pub open spec fn call_index(s: Seq<HintView>, call: Seq<char>) -> Option<int> {
    if exists|k: int| 0 <= k < s.len() && (#[trigger] s[k]).0 == call {
        Some(choose|k: int| 0 <= k < s.len() && (#[trigger] s[k]).0 == call && forall|j: int| 0 <= j < k ==> (#[trigger] s[j]).0 != call)
    } else {
        None
    }
}

/// The hints with a new one: it replaces the hint for its call when it
/// scores higher, and is added when its call has none.
pub open spec fn upserted(s: Seq<HintView>, h: HintView) -> Seq<HintView> {
    match call_index(s, h.0) {
        Some(k) => if h.3 > s[k].3 {
            s.update(k, h)
        } else {
            s
        },
        None => s.push(h),
    }
}

/// The hints after the hints of the first `n` rows are taken in.
pub open spec fn upserted_rows(s: Seq<HintView>, rows: Seq<HintRow>, n: int) -> Seq<HintView>
    decreases n,
{
    if n <= 0 {
        s
    } else {
        let prev = upserted_rows(s, rows, n - 1);
        match hint_of(rows[n - 1]) {
            Some(h) => upserted(prev, h),
            None => prev,
        }
    }
}

/// The hints of the calls in the air, the best first, at most a fixed
/// number per slot, one per call.
pub struct ActiveCallContext {
    max_hints_per_slot: usize,
    hints: Vec<QsoContextHint>,
}

impl ActiveCallContext {
    #[verifier::type_invariant]
    spec fn bounded(&self) -> bool {
        &&& distinct_calls(hints_view(self.hints@))
        &&& key_sorted(hints_view(self.hints@))
        &&& self.hints@.len() <= self.max_hints_per_slot
    }

    pub closed spec fn limit(&self) -> usize {
        self.max_hints_per_slot
    }

    pub closed spec fn hint_views(&self) -> Seq<HintView> {
        hints_view(self.hints@)
    }

    pub fn new(max_hints_per_slot: usize) -> (r: ActiveCallContext)
        ensures
            r.limit() == max_hints_per_slot,
            r.hint_views() == Seq::<HintView>::empty(),
    {
        let r = ActiveCallContext { max_hints_per_slot, hints: Vec::new() };
        proof {
            assert(hints_view(r.hints@) =~= Seq::<HintView>::empty());
        }
        r
    }

    /// The hints held, the best first: at most the fixed number, one per
    /// call, ordered by score, call and frequency.
    pub fn hints(&self) -> (r: &[QsoContextHint])
        ensures
            hints_view(r@) == self.hint_views(),
            r@.len() <= self.limit(),
            distinct_calls(hints_view(r@)),
            key_sorted(hints_view(r@)),
    {
        proof {
            use_type_invariant(self);
        }
        self.hints.as_slice()
    }

    /// Takes in the hints of a slot's rows, then keeps the best.
    pub fn update_from_evidence(&mut self, rows: &[HintRow])
        requires
            forall|k: int| 0 <= k < rows@.len() ==> (#[trigger] rows@[k]).snr_db <= i32::MAX - 5,
        ensures
            final(self).limit() == old(self).limit(),
            ({
                let u = upserted_rows(old(self).hint_views(), rows@, rows@.len() as int);
                exists|s: Seq<HintView>|
                    #[trigger] s.to_multiset() == u.to_multiset() && key_sorted(s) && final(self).hint_views() == if s.len()
                        <= old(self).limit() {
                        s
                    } else {
                        s.subrange(0, old(self).limit() as int)
                    }
            }),
            final(self).hint_views().len() <= final(self).limit(),
            distinct_calls(final(self).hint_views()),
            key_sorted(final(self).hint_views()),
            forall|i: int| 0 <= i < final(self).hint_views().len() ==> hint_comes_from(
                #[trigger] final(self).hint_views()[i],
                old(self).hint_views(),
                rows@,
            ),
    {
        proof {
            use_type_invariant(&*self);
        }
        let mut hints: Vec<QsoContextHint> = Vec::new();
        std::mem::swap(&mut hints, &mut self.hints);
        let ghost start = hints_view(hints@);
        let mut k: usize = 0;
        while k < rows.len()
            invariant
                k <= rows@.len(),
                forall|j: int| 0 <= j < rows@.len() ==> (#[trigger] rows@[j]).snr_db <= i32::MAX - 5,
                hints_view(hints@) == upserted_rows(start, rows@, k as int),
                distinct_calls(hints_view(hints@)),
            decreases rows@.len() - k,
        {
            match qso_hint_from_shared_decode(&rows[k]) {
                Some(h) => {
                    upsert_hint(&mut hints, h);
                },
                None => {},
            }
            k = k + 1;
        }
        let ghost u = hints_view(hints@);
        let mut sorted = sort_hints(hints);
        let ghost s = hints_view(sorted@);
        let limit = self.max_hints_per_slot;
        sorted.truncate(limit);
        proof {
            if s.len() <= limit {
                assert(hints_view(sorted@) == s);
            }
            if s.len() > limit {
                assert(hints_view(sorted@) =~= s.subrange(0, limit as int));
                assert forall|i: int, j: int| 0 <= i < j < hints_view(sorted@).len() implies (#[trigger] hints_view(sorted@)[i]).0
                    != (#[trigger] hints_view(sorted@)[j]).0 by {
                    assert(hints_view(sorted@)[i] == s[i] && hints_view(sorted@)[j] == s[j]);
                }
            }
        }
        proof {
            lemma_upserted_rows_from(start, rows@, rows@.len() as int);
            let f = hints_view(sorted@);
            assert forall|i: int| 0 <= i < f.len() implies hint_comes_from(#[trigger] f[i], start, rows@) by {
                assert(f[i] == s[i]);
                assert(s.to_multiset().count(s[i]) > 0) by {
                    vstd::seq_lib::to_multiset_contains(s, s[i]);
                }
                assert(u.to_multiset().count(s[i]) > 0);
                vstd::seq_lib::to_multiset_contains(u, s[i]);
                assert(u.contains(s[i]));
            }
        }
        self.hints = sorted;
        proof {
            use_type_invariant(&*self);
        }
    }
}

/// A hint held after a slot was held before it or is the hint of one of
/// the slot's rows.
pub open spec fn hint_comes_from(h: HintView, before: Seq<HintView>, rows: Seq<HintRow>) -> bool {
    before.contains(h) || exists|k: int| 0 <= k < rows.len() && hint_of(#[trigger] rows[k]) == Some(h)
}

/// The hint is the hint of one of the rows.
pub open spec fn from_some_row(h: HintView, rows: Seq<HintRow>) -> bool {
    exists|k: int| 0 <= k < rows.len() && hint_of(#[trigger] rows[k]) == Some(h)
}

/// Each hint is the hint of one of the rows.
pub open spec fn all_hints_from(hints: Seq<HintView>, rows: Seq<HintRow>) -> bool {
    forall|i: int| 0 <= i < hints.len() ==> from_some_row(#[trigger] hints[i], rows)
}

/// Over any run of slots, every hint held is the hint of a row taken in:
/// a confirmed row without an unresolved hash, its call upper-cased, its
/// score the SNR plus 5 for a CQ of three words or more. A context starts
/// empty, and a slot keeps this when each hint after it was held before it
/// or comes from one of its rows.
pub proof fn lemma_hints_come_from_rows(
    before: Seq<HintView>,
    after: Seq<HintView>,
    seen: Seq<HintRow>,
    rows: Seq<HintRow>,
)
    requires
        all_hints_from(before, seen),
        forall|i: int| 0 <= i < after.len() ==> hint_comes_from(#[trigger] after[i], before, rows),
    ensures
        all_hints_from(after, seen + rows),
{
    let all = seen + rows;
    assert forall|i: int| 0 <= i < after.len() implies from_some_row(#[trigger] after[i], all) by {
        let h = after[i];
        assert(hint_comes_from(h, before, rows));
        if before.contains(h) {
            let b = choose|b: int| 0 <= b < before.len() && before[b] == h;
            assert(from_some_row(before[b], seen));
            let k = choose|k: int| 0 <= k < seen.len() && hint_of(#[trigger] seen[k]) == Some(before[b]);
            assert(all[k] == seen[k]);
        } else {
            let k = choose|k: int| 0 <= k < rows.len() && hint_of(#[trigger] rows[k]) == Some(h);
            assert(all[seen.len() + k] == rows[k]);
        }
    }
}

proof fn lemma_first_call(s: Seq<HintView>, call: Seq<char>, q: int)
    requires
        0 <= q < s.len(),
        s[q].0 == call,
    ensures
        exists|c: int| 0 <= c < s.len() && (#[trigger] s[c]).0 == call && forall|j: int| 0 <= j < c ==> (#[trigger] s[j]).0 != call,
    decreases q,
{
    if exists|j: int| 0 <= j < q && (#[trigger] s[j]).0 == call {
        let j = choose|j: int| 0 <= j < q && (#[trigger] s[j]).0 == call;
        lemma_first_call(s, call, j);
    } else {
        assert(forall|j: int| 0 <= j < q ==> (#[trigger] s[j]).0 != call);
    }
}

proof fn lemma_upserted_from(prev: Seq<HintView>, h: HintView, x: HintView)
    requires
        upserted(prev, h).contains(x),
    ensures
        prev.contains(x) || x == h,
{
    let cur = upserted(prev, h);
    let w = choose|w: int| 0 <= w < cur.len() && cur[w] == x;
    if x != h {
        match call_index(prev, h.0) {
            Some(k) => {
                assert(exists|q: int| 0 <= q < prev.len() && (#[trigger] prev[q]).0 == h.0);
                let q = choose|q: int| 0 <= q < prev.len() && (#[trigger] prev[q]).0 == h.0;
                lemma_first_call(prev, h.0, q);
                assert(0 <= k < prev.len());
                if h.3 > prev[k].3 {
                    assert(cur == prev.update(k, h));
                    if w == k {
                        assert(cur[w] == h);
                    }
                    assert(cur[w] == prev[w]);
                } else {
                    assert(cur == prev);
                }
                assert(prev.contains(x));
            },
            None => {
                assert(cur == prev.push(h));
                if w == prev.len() {
                    assert(cur[w] == h);
                }
                assert(cur[w] == prev[w]);
                assert(prev.contains(x));
            },
        }
    }
}

proof fn lemma_upserted_rows_from(start: Seq<HintView>, rows: Seq<HintRow>, n: int)
    requires
        0 <= n <= rows.len(),
    ensures
        forall|x: HintView| #[trigger] upserted_rows(start, rows, n).contains(x) ==> hint_comes_from(x, start, rows),
    decreases n,
{
    if n > 0 {
        lemma_upserted_rows_from(start, rows, n - 1);
        let prev = upserted_rows(start, rows, n - 1);
        let cur = upserted_rows(start, rows, n);
        assert forall|x: HintView| #[trigger] cur.contains(x) implies hint_comes_from(x, start, rows) by {
            match hint_of(rows[n - 1]) {
                Some(h) => {
                    assert(cur == upserted(prev, h));
                    lemma_upserted_from(prev, h, x);
                    if x == h {
                        assert(hint_of(rows[n - 1]) == Some(x));
                    }
                },
                None => {
                    assert(cur == prev);
                },
            }
        }
    }
}

fn upsert_hint(hints: &mut Vec<QsoContextHint>, hint: QsoContextHint)
    requires
        distinct_calls(hints_view(old(hints)@)),
    ensures
        hints_view(final(hints)@) == upserted(hints_view(old(hints)@), hint_view(hint)),
        distinct_calls(hints_view(final(hints)@)),
{
    let ghost v = hints_view(hints@);
    let mut k: usize = 0;
    while k < hints.len()
        invariant
            k <= hints@.len(),
            v == hints_view(hints@),
            hints@ == old(hints)@,
            distinct_calls(v),
            forall|j: int| 0 <= j < k ==> (#[trigger] v[j]).0 != hint.hiscall@,
        decreases hints@.len() - k,
    {
        if hints[k].hiscall == hint.hiscall {
            proof {
                assert(v[k as int].0 == hint.hiscall@);
                let c = choose|c: int| 0 <= c < v.len() && (#[trigger] v[c]).0 == hint.hiscall@ && forall|j: int| 0 <= j < c ==> (#[trigger] v[j]).0 != hint.hiscall@;
                assert(c == k) by {
                    if c < k {
                        assert(v[c].0 != hint.hiscall@);
                    } else if c > k {
                        assert(v[k as int].0 != hint.hiscall@);
                    }
                }
            }
            if hint.score > hints[k].score {
                let ghost hv = hint_view(hint);
                hints.set(k, hint);
                proof {
                    assert(hints_view(hints@) =~= v.update(k as int, hv));
                    let w = hints_view(hints@);
                    assert forall|i: int, j: int| 0 <= i < j < w.len() implies (#[trigger] w[i]).0 != (#[trigger] w[j]).0 by {
                        if i == k as int {
                            assert(w[i].0 == v[k as int].0);
                        } else if j == k as int {
                            assert(w[j].0 == v[k as int].0);
                        }
                    }
                }
            }
            return;
        }
        k = k + 1;
    }
    let ghost hv = hint_view(hint);
    hints.push(hint);
    proof {
        assert(hints_view(hints@) =~= v.push(hv));
        let w = hints_view(hints@);
        assert forall|i: int, j: int| 0 <= i < j < w.len() implies (#[trigger] w[i]).0 != (#[trigger] w[j]).0 by {
            if j == v.len() {
                assert(w[i] == v[i]);
            }
        }
    }
}

/// The index of a hint no other remaining hint comes before.
fn best_index(v: &Vec<QsoContextHint>) -> (r: usize)
    requires
        v@.len() > 0,
    ensures
        r < v@.len(),
        forall|j: int| 0 <= j < v@.len() ==> !key_lt(#[trigger] hints_view(v@)[j], hints_view(v@)[r as int]),
{
    let ghost w = hints_view(v@);
    let mut best: usize = 0;
    let mut k: usize = 1;
    proof {
        lemma_key_irreflexive(w[0]);
    }
    while k < v.len()
        invariant
            1 <= k <= v@.len(),
            best < k,
            w == hints_view(v@),
            forall|j: int| 0 <= j < k ==> !key_lt(#[trigger] w[j], w[best as int]),
        decreases v@.len() - k,
    {
        let a = &v[k];
        let b = &v[best];
        let lt = if a.score != b.score {
            a.score > b.score
        } else {
            let ac = crate::text::chars_of(a.hiscall.as_str());
            let bc = crate::text::chars_of(b.hiscall.as_str());
            let l = lex_less_exec(&ac, &bc);
            if l {
                true
            } else if crate::text::eq_chars(&ac, &bc) {
                a.nfqso_mhz < b.nfqso_mhz
            } else {
                false
            }
        };
        proof {
            assert(w[k as int] == hint_view(v@[k as int]));
            assert(w[best as int] == hint_view(v@[best as int]));
        }
        if lt {
            proof {
                assert(key_lt(w[k as int], w[best as int]));
                assert forall|j: int| 0 <= j <= k implies !key_lt(#[trigger] w[j], w[k as int]) by {
                    if j == k {
                        lemma_key_irreflexive(w[k as int]);
                    } else if key_lt(w[j], w[k as int]) {
                        lemma_key_transitive(w[j], w[k as int], w[best as int]);
                    }
                }
            }
            best = k;
        } else {
            proof {
                assert(!key_lt(w[k as int], w[best as int]));
            }
        }
        k = k + 1;
    }
    best
}

pub(crate) fn lex_less_exec(a: &[char], b: &[char]) -> (r: bool)
    ensures
        r == lex_less(a@, b@),
{
    let mut i: usize = 0;
    proof {
        assert(a@.subrange(0, a@.len() as int) =~= a@);
        assert(b@.subrange(0, b@.len() as int) =~= b@);
    }
    while i < a.len() && i < b.len() && a[i] == b[i]
        invariant
            i <= a@.len(),
            i <= b@.len(),
            lex_less(a@, b@) == lex_less(a@.subrange(i as int, a@.len() as int), b@.subrange(i as int, b@.len() as int)),
        decreases a@.len() - i,
    {
        proof {
            let sa = a@.subrange(i as int, a@.len() as int);
            let sb = b@.subrange(i as int, b@.len() as int);
            assert(sa.drop_first() =~= a@.subrange(i + 1, a@.len() as int));
            assert(sb.drop_first() =~= b@.subrange(i + 1, b@.len() as int));
        }
        i = i + 1;
    }
    proof {
        let sa = a@.subrange(i as int, a@.len() as int);
        let sb = b@.subrange(i as int, b@.len() as int);
        if i < a@.len() && i < b@.len() {
            assert(sa[0] == a@[i as int] && sb[0] == b@[i as int]);
        }
    }
    if i == a.len() {
        i < b.len()
    } else if i == b.len() {
        false
    } else {
        (a[i] as u32) < (b[i] as u32)
    }
}

/// The hints sorted: the same hints, none after one it comes before.
fn sort_hints(v: Vec<QsoContextHint>) -> (r: Vec<QsoContextHint>)
    requires
        distinct_calls(hints_view(v@)),
    ensures
        hints_view(r@).to_multiset() == hints_view(v@).to_multiset(),
        key_sorted(hints_view(r@)),
        distinct_calls(hints_view(r@)),
{
    broadcast use vstd::seq_lib::group_to_multiset_ensures;
    let mut rest = v;
    let mut out: Vec<QsoContextHint> = Vec::new();
    let ghost total = hints_view(rest@).to_multiset();
    while rest.len() > 0
        invariant
            hints_view(out@).to_multiset().add(hints_view(rest@).to_multiset()) == total,
            key_sorted(hints_view(out@)),
            forall|i: int, x: int| 0 <= i < out@.len() && 0 <= x < rest@.len() ==> !key_lt(
                #[trigger] hints_view(rest@)[x],
                #[trigger] hints_view(out@)[i],
            ),
            distinct_calls(hints_view(out@).add(hints_view(rest@))),
        decreases rest@.len(),
    {
        let ghost ov = hints_view(out@);
        let ghost rv = hints_view(rest@);
        let b = best_index(&rest);
        let h = rest.remove(b);
        let ghost hv = hint_view(h);
        proof {
            assert(hv == rv[b as int]);
            assert(hints_view(rest@) =~= rv.remove(b as int));
        }
        out.push(h);
        proof {
            assert(hints_view(out@) =~= ov.push(hv));
            let nov = hints_view(out@);
            let nrv = hints_view(rest@);
            assert(nrv == rv.remove(b as int));
            assert(b < rv.len());
            vstd::seq_lib::to_multiset_remove(rv, b as int);
            assert(nov == ov.push(hv));
            vstd::seq_lib::to_multiset_build(ov, hv);
            assert(rv[b as int] == hv);
            assert(rv.contains(hv));
            vstd::seq_lib::to_multiset_contains(rv, hv);
            assert(nov.to_multiset().add(nrv.to_multiset()) =~= ov.to_multiset().add(rv.to_multiset()));
            assert forall|i: int, j: int| 0 <= i < j < nov.len() implies !key_lt(#[trigger] nov[j], #[trigger] nov[i]) by {
                if j == ov.len() {
                    assert(nov[i] == ov[i]);
                    assert(!key_lt(rv[b as int], ov[i]));
                } else {
                    assert(nov[i] == ov[i] && nov[j] == ov[j]);
                }
            }
            assert forall|i: int, x: int| 0 <= i < nov.len() && 0 <= x < nrv.len() implies !key_lt(
                #[trigger] nrv[x],
                #[trigger] nov[i],
            ) by {
                let ox = if x < b { x } else { x + 1 };
                assert(nrv[x] == rv[ox]);
                if i == ov.len() {
                    assert(nov[i] == rv[b as int]);
                } else {
                    assert(nov[i] == ov[i]);
                }
            }
            let before = ov.add(rv);
            let after = nov.add(nrv);
            assert forall|i: int, j: int| 0 <= i < j < after.len() implies (#[trigger] after[i]).0 != (#[trigger] after[j]).0 by {
                let pos = |p: int| if p < ov.len() {
                    p
                } else if p == ov.len() {
                    ov.len() + b
                } else if p - ov.len() - 1 < b {
                    p - 1
                } else {
                    p
                };
                assert(after[i] == before[pos(i)]);
                assert(after[j] == before[pos(j)]);
                assert(pos(i) != pos(j));
                if pos(i) < pos(j) {
                    assert(before[pos(i)].0 != before[pos(j)].0);
                } else {
                    assert(before[pos(j)].0 != before[pos(i)].0);
                }
            }
        }
    }
    proof {
        assert(hints_view(out@).add(hints_view(rest@)) =~= hints_view(out@));
        assert(hints_view(rest@).to_multiset() =~= vstd::multiset::Multiset::empty());
        assert(hints_view(out@).to_multiset().add(vstd::multiset::Multiset::empty()) =~= hints_view(out@).to_multiset());
    }
    out
}

} // verus!
