//! Where the two decoders disagree: the rows only one of them found,
//! counted by decoder, provenance, message shape and signal strength.
use vstd::prelude::*;
use crate::hybrid::{merge_key, same_signal, StreamDecodedMessage};
use crate::text::{chars_of, join, join_words, occurs_at, split_ws, strip_lead, strip_trail, trim, upper, upper_chars, words, wv};

verus! {

/// The decoder that contributed evidence.
#[allow(non_camel_case_types)]
#[derive(Clone, Copy, Debug, PartialEq, Eq, Structural)]
pub enum DecoderId {
    WSJTX,
    JTDX,
}

/// How a decoder reached its decode.
#[derive(Clone, Copy, Debug, PartialEq, Eq, Structural)]
pub enum Provenance {
    Regular,
    JtdxDeep,
    A7Memory,
}

/// The shape of a message, read from its words.
#[derive(Clone, Copy, Debug, PartialEq, Eq, Structural)]
pub enum MessageClass {
    Cq,
    Grid,
    Report,
    RReport,
    Rrr,
    Rr73,
    SeventyThree,
    Hash,
    FreeTextOrOther,
}

/// Signal strength bands of a decode's SNR.
#[derive(Clone, Copy, Debug, PartialEq, Eq, Structural)]
pub enum SnrBucket {
    VeryWeak,
    Weak,
    Mid,
    Strong,
}

/// One decoder's account of a row.
pub struct Evidence {
    pub provenance: Provenance,
    pub message: String,
}

/// A row of the shared evidence: one signal, the decoders that found it,
/// and what each reported.
pub struct SharedDecode {
    pub sources: Vec<DecoderId>,
    pub evidence: Vec<Evidence>,
    pub message: String,
    pub freq_mhz: i64,
    pub dt_ms: i64,
    pub snr_db: i32,
}

/// A decode offered to the shared evidence.
pub struct SharedDecodeCandidate {
    pub source: DecoderId,
    pub provenance: Provenance,
    pub message: String,
    pub freq_mhz: i64,
    pub dt_ms: i64,
    pub snr_db: i32,
}

/// The rows both decoders have offered in one slot.
pub struct SharedEvidenceStore {
    rows: Vec<SharedDecode>,
}

/// A candidate joins a row when the normalized messages agree and the two
/// lie within 5 Hz and 0.3 s.
pub open spec fn joins(row: SharedDecode, c: SharedDecodeCandidate) -> bool {
    merge_key(row.message@) == merge_key(c.message@) && crate::hybrid::abs_diff(row.freq_mhz, c.freq_mhz) <= 5000
        && crate::hybrid::abs_diff(row.dt_ms, c.dt_ms) <= 300
}

impl SharedEvidenceStore {
    pub closed spec fn rows_spec(&self) -> Seq<SharedDecode> {
        self.rows@
    }

    pub fn new() -> (s: SharedEvidenceStore)
        ensures
            s.rows_spec() == Seq::<SharedDecode>::empty(),
    {
        SharedEvidenceStore { rows: Vec::new() }
    }

    pub fn rows(&self) -> (r: &[SharedDecode])
        ensures
            r@ == self.rows_spec(),
    {
        self.rows.as_slice()
    }

    /// Offers a candidate: it joins the first row that it matches (its
    /// decoder is added once, its evidence appended), or opens a new row.
    pub fn offer(&mut self, c: SharedDecodeCandidate)
        ensures
            ({
                let old_rows = old(self).rows_spec();
                let new_rows = final(self).rows_spec();
                if exists|i: int| 0 <= i < old_rows.len() && #[trigger] joins(old_rows[i], c) {
                    let i = choose|i: int|
                        0 <= i < old_rows.len() && #[trigger] joins(old_rows[i], c) && forall|k: int|
                            0 <= k < i ==> !joins(old_rows[k], c);
                    &&& new_rows.len() == old_rows.len()
                    &&& forall|k: int| 0 <= k < old_rows.len() && k != i ==> new_rows[k] == old_rows[k]
                    &&& new_rows[i].message == old_rows[i].message
                    &&& new_rows[i].freq_mhz == old_rows[i].freq_mhz
                    &&& new_rows[i].dt_ms == old_rows[i].dt_ms
                    &&& new_rows[i].snr_db == old_rows[i].snr_db
                    &&& new_rows[i].sources@ == if old_rows[i].sources@.contains(c.source) {
                        old_rows[i].sources@
                    } else {
                        old_rows[i].sources@.push(c.source)
                    }
                    &&& new_rows[i].evidence@.len() == old_rows[i].evidence@.len() + 1
                    &&& new_rows[i].evidence@.drop_last() == old_rows[i].evidence@
                    &&& new_rows[i].evidence@.last().provenance == c.provenance
                    &&& new_rows[i].evidence@.last().message == c.message
                } else {
                    &&& new_rows.len() == old_rows.len() + 1
                    &&& new_rows.drop_last() == old_rows
                    &&& new_rows.last().sources@ == seq![c.source]
                    &&& new_rows.last().evidence@.len() == 1
                    &&& new_rows.last().evidence@[0].provenance == c.provenance
                    &&& new_rows.last().evidence@[0].message == c.message
                    &&& new_rows.last().message == c.message
                    &&& new_rows.last().freq_mhz == c.freq_mhz
                    &&& new_rows.last().dt_ms == c.dt_ms
                    &&& new_rows.last().snr_db == c.snr_db
                }
            }),
    {
        let n = self.rows.len();
        let ckey = crate::hybrid::normalized_message(c.message.as_str());
        let cand = StreamDecodedMessage {
            freq_mhz: c.freq_mhz,
            dt_ms: c.dt_ms,
            snr: c.snr_db,
            msg: c.message.clone(),
            sync_milli: 0,
            itone: [0i32; 79],
        };
        let mut i: usize = 0;
        while i < n
            invariant
                i <= n,
                n == self.rows@.len(),
                self.rows@ == old(self).rows@,
                ckey@ == merge_key(c.message@),
                cand.freq_mhz == c.freq_mhz && cand.dt_ms == c.dt_ms,
                forall|k: int| 0 <= k < i ==> !joins(self.rows@[k], c),
            decreases n - i,
        {
            let rkey = crate::hybrid::normalized_message(self.rows[i].message.as_str());
            let probe = StreamDecodedMessage {
                freq_mhz: self.rows[i].freq_mhz,
                dt_ms: self.rows[i].dt_ms,
                snr: self.rows[i].snr_db,
                msg: self.rows[i].message.clone(),
                sync_milli: 0,
                itone: [0i32; 79],
            };
            if rkey == ckey && crate::hybrid::is_same_signal(&probe, &cand) {
                assert(joins(self.rows@[i as int], c));
                let ghost old_rows = self.rows@;
                let mut row = self.rows.remove(i);
                let mut already = false;
                let mut s: usize = 0;
                while s < row.sources.len()
                    invariant
                        s <= row.sources@.len(),
                        already == exists|t: int| 0 <= t < s && row.sources@[t] == c.source,
                    decreases row.sources@.len() - s,
                {
                    if row.sources[s] == c.source {
                        already = true;
                    }
                    s = s + 1;
                }
                proof {
                    if already {
                        let t = choose|t: int| 0 <= t < s && row.sources@[t] == c.source;
                        assert(row.sources@.contains(c.source));
                    } else {
                        assert(!row.sources@.contains(c.source));
                    }
                }
                if !already {
                    row.sources.push(c.source);
                }
                row.evidence.push(Evidence { provenance: c.provenance, message: c.message });
                self.rows.insert(i, row);
                proof {
                    assert(self.rows@ =~= old_rows.update(i as int, self.rows@[i as int]));
                    let j = choose|j: int|
                        0 <= j < old_rows.len() && #[trigger] joins(old_rows[j], c) && forall|k: int|
                            0 <= k < j ==> !joins(old_rows[k], c);
                    if j < i {
                        assert(!joins(old_rows[j], c));
                    }
                    if j > i {
                        assert(!joins(old_rows[i as int], c));
                    }
                    assert(j == i);
                    assert(self.rows@[i as int].evidence@.drop_last() =~= old_rows[i as int].evidence@);
                }
                return;
            }
            i = i + 1;
        }
        let mut sources: Vec<DecoderId> = Vec::new();
        sources.push(c.source);
        let mut evidence: Vec<Evidence> = Vec::new();
        let msg2 = c.message.clone();
        evidence.push(Evidence { provenance: c.provenance, message: c.message });
        let ghost old_rows = self.rows@;
        self.rows.push(
            SharedDecode {
                sources,
                evidence,
                message: msg2,
                freq_mhz: c.freq_mhz,
                dt_ms: c.dt_ms,
                snr_db: c.snr_db,
            },
        );
        proof {
            assert(self.rows@.drop_last() =~= old_rows);
            assert(self.rows@.last().sources@ =~= seq![c.source]);
        }
    }
}

/// Counts, per decoder, provenance, message class and SNR band, of the rows
/// one decoder alone found, with the row totals.
#[derive(Clone, Copy, Debug, Default, PartialEq, Eq)]
pub struct HybridDivergenceReport {
    pub total_rows: usize,
    pub shared_rows: usize,
    pub wsjtx_unique_rows: usize,
    pub jtdx_unique_rows: usize,
    pub representation_only_diffs: usize,
    pub unique_by_decoder: [usize; 2],
    pub unique_by_provenance: [usize; 3],
    pub unique_by_message_class: [usize; 9],
    pub unique_by_snr_bucket: [usize; 4],
}

pub open spec fn decoder_index(d: DecoderId) -> int {
    match d {
        DecoderId::WSJTX => 0,
        DecoderId::JTDX => 1,
    }
}

pub open spec fn provenance_index(p: Provenance) -> int {
    match p {
        Provenance::Regular => 0,
        Provenance::JtdxDeep => 1,
        Provenance::A7Memory => 2,
    }
}

pub open spec fn class_index(c: MessageClass) -> int {
    match c {
        MessageClass::Cq => 0,
        MessageClass::Grid => 1,
        MessageClass::Report => 2,
        MessageClass::RReport => 3,
        MessageClass::Rrr => 4,
        MessageClass::Rr73 => 5,
        MessageClass::SeventyThree => 6,
        MessageClass::Hash => 7,
        MessageClass::FreeTextOrOther => 8,
    }
}

pub open spec fn bucket_index(b: SnrBucket) -> int {
    match b {
        SnrBucket::VeryWeak => 0,
        SnrBucket::Weak => 1,
        SnrBucket::Mid => 2,
        SnrBucket::Strong => 3,
    }
}

fn decoder_slot(d: DecoderId) -> (r: usize)
    ensures
        r == decoder_index(d),
{
    match d {
        DecoderId::WSJTX => 0,
        DecoderId::JTDX => 1,
    }
}

fn provenance_slot(p: Provenance) -> (r: usize)
    ensures
        r == provenance_index(p),
{
    match p {
        Provenance::Regular => 0,
        Provenance::JtdxDeep => 1,
        Provenance::A7Memory => 2,
    }
}

fn class_slot(c: MessageClass) -> (r: usize)
    ensures
        r == class_index(c),
{
    match c {
        MessageClass::Cq => 0,
        MessageClass::Grid => 1,
        MessageClass::Report => 2,
        MessageClass::RReport => 3,
        MessageClass::Rrr => 4,
        MessageClass::Rr73 => 5,
        MessageClass::SeventyThree => 6,
        MessageClass::Hash => 7,
        MessageClass::FreeTextOrOther => 8,
    }
}

fn bucket_slot(b: SnrBucket) -> (r: usize)
    ensures
        r == bucket_index(b),
{
    match b {
        SnrBucket::VeryWeak => 0,
        SnrBucket::Weak => 1,
        SnrBucket::Mid => 2,
        SnrBucket::Strong => 3,
    }
}

/// Adds one to the count at `k`.
pub fn increment<const N: usize>(counts: &mut [usize; N], k: usize)
    requires
        k < N,
        old(counts)@[k as int] < usize::MAX,
    ensures
        final(counts)@ == old(counts)@.update(k as int, (old(counts)@[k as int] + 1) as usize),
{
    let v = counts[k];
    counts[k] = v + 1;
}

/// Adds the counts of `src` to those of `dst`, key by key.
pub fn merge_counts<const N: usize>(dst: &mut [usize; N], src: &[usize; N])
    requires
        forall|k: int| 0 <= k < N ==> old(dst)@[k] + src@[k] <= usize::MAX,
    ensures
        forall|k: int| 0 <= k < N ==> #[trigger] final(dst)@[k] == old(dst)@[k] + src@[k],
{
    let mut k: usize = 0;
    while k < N
        invariant
            k <= N,
            dst@.len() == N,
            src@.len() == N,
            forall|t: int| 0 <= t < k ==> #[trigger] dst@[t] == old(dst)@[t] + src@[t],
            forall|t: int| k <= t < N ==> #[trigger] dst@[t] == old(dst)@[t],
            forall|t: int| 0 <= t < N ==> old(dst)@[t] + src@[t] <= usize::MAX,
        decreases N - k,
    {
        let v = dst[k] + src[k];
        dst[k] = v;
        k = k + 1;
    }
}

/// The report's counters as integers, for sums that may not fit.
pub open spec fn scalar_sum_fits(a: HybridDivergenceReport, b: HybridDivergenceReport) -> bool {
    &&& a.total_rows + b.total_rows <= usize::MAX
    &&& a.shared_rows + b.shared_rows <= usize::MAX
    &&& a.wsjtx_unique_rows + b.wsjtx_unique_rows <= usize::MAX
    &&& a.jtdx_unique_rows + b.jtdx_unique_rows <= usize::MAX
    &&& a.representation_only_diffs + b.representation_only_diffs <= usize::MAX
    &&& forall|k: int| 0 <= k < 2 ==> a.unique_by_decoder@[k] + b.unique_by_decoder@[k] <= usize::MAX
    &&& forall|k: int| 0 <= k < 3 ==> a.unique_by_provenance@[k] + b.unique_by_provenance@[k]
        <= usize::MAX
    &&& forall|k: int| 0 <= k < 9 ==> a.unique_by_message_class@[k] + b.unique_by_message_class@[k]
        <= usize::MAX
    &&& forall|k: int| 0 <= k < 4 ==> a.unique_by_snr_bucket@[k] + b.unique_by_snr_bucket@[k]
        <= usize::MAX
}

/// `r` holds the counters of `a` and `b` added, key by key.
pub open spec fn is_report_sum(
    r: HybridDivergenceReport,
    a: HybridDivergenceReport,
    b: HybridDivergenceReport,
) -> bool {
    &&& r.total_rows == a.total_rows + b.total_rows
    &&& r.shared_rows == a.shared_rows + b.shared_rows
    &&& r.wsjtx_unique_rows == a.wsjtx_unique_rows + b.wsjtx_unique_rows
    &&& r.jtdx_unique_rows == a.jtdx_unique_rows + b.jtdx_unique_rows
    &&& r.representation_only_diffs == a.representation_only_diffs + b.representation_only_diffs
    &&& forall|k: int| 0 <= k < 2 ==> #[trigger] r.unique_by_decoder@[k] == a.unique_by_decoder@[k]
        + b.unique_by_decoder@[k]
    &&& forall|k: int| 0 <= k < 3 ==> #[trigger] r.unique_by_provenance@[k]
        == a.unique_by_provenance@[k] + b.unique_by_provenance@[k]
    &&& forall|k: int| 0 <= k < 9 ==> #[trigger] r.unique_by_message_class@[k]
        == a.unique_by_message_class@[k] + b.unique_by_message_class@[k]
    &&& forall|k: int| 0 <= k < 4 ==> #[trigger] r.unique_by_snr_bucket@[k]
        == a.unique_by_snr_bucket@[k] + b.unique_by_snr_bucket@[k]
}

impl HybridDivergenceReport {
    /// Adds the counters of `other` to these, key by key.
    pub fn merge(&mut self, other: Self)
        requires
            scalar_sum_fits(*old(self), other),
        ensures
            is_report_sum(*final(self), *old(self), other),
    {
        self.total_rows = self.total_rows + other.total_rows;
        self.shared_rows = self.shared_rows + other.shared_rows;
        self.wsjtx_unique_rows = self.wsjtx_unique_rows + other.wsjtx_unique_rows;
        self.jtdx_unique_rows = self.jtdx_unique_rows + other.jtdx_unique_rows;
        self.representation_only_diffs = self.representation_only_diffs
            + other.representation_only_diffs;
        merge_counts(&mut self.unique_by_decoder, &other.unique_by_decoder);
        merge_counts(&mut self.unique_by_provenance, &other.unique_by_provenance);
        merge_counts(&mut self.unique_by_message_class, &other.unique_by_message_class);
        merge_counts(&mut self.unique_by_snr_bucket, &other.unique_by_snr_bucket);
    }

    pub fn decoder_count(&self, d: DecoderId) -> (r: usize)
        ensures
            r == self.unique_by_decoder@[decoder_index(d)],
    {
        self.unique_by_decoder[decoder_slot(d)]
    }

    pub fn provenance_count(&self, p: Provenance) -> (r: usize)
        ensures
            r == self.unique_by_provenance@[provenance_index(p)],
    {
        self.unique_by_provenance[provenance_slot(p)]
    }

    pub fn message_class_count(&self, c: MessageClass) -> (r: usize)
        ensures
            r == self.unique_by_message_class@[class_index(c)],
    {
        self.unique_by_message_class[class_slot(c)]
    }

    pub fn snr_bucket_count(&self, b: SnrBucket) -> (r: usize)
        ensures
            r == self.unique_by_snr_bucket@[bucket_index(b)],
    {
        self.unique_by_snr_bucket[bucket_slot(b)]
    }
}

/// The SNR band of a decode.
pub open spec fn bucket_of(snr_db: i32) -> SnrBucket {
    if snr_db < -20 {
        SnrBucket::VeryWeak
    } else if snr_db < -15 {
        SnrBucket::Weak
    } else if snr_db < 0 {
        SnrBucket::Mid
    } else {
        SnrBucket::Strong
    }
}

pub fn snr_bucket(snr_db: i32) -> (r: SnrBucket)
    ensures
        r == bucket_of(snr_db),
{
    if snr_db < -20 {
        SnrBucket::VeryWeak
    } else if snr_db < -15 {
        SnrBucket::Weak
    } else if snr_db < 0 {
        SnrBucket::Mid
    } else {
        SnrBucket::Strong
    }
}

/// `R` with a signed two-digit report, such as `R-12`.
pub open spec fn r_report_shape(v: Seq<char>) -> bool {
    v.len() == 4 && v[0] == 'R' && (v[1] == '+' || v[1] == '-') && crate::text::is_digit(v[2])
        && crate::text::is_digit(v[3])
}

/// A signed two-digit report, such as `-20`.
pub open spec fn report_shape(v: Seq<char>) -> bool {
    v.len() == 3 && (v[0] == '+' || v[0] == '-') && crate::text::is_digit(v[1])
        && crate::text::is_digit(v[2])
}

/// An upper-case four-character grid square, such as `FN42`.
pub open spec fn grid4_shape(v: Seq<char>) -> bool {
    v.len() == 4 && crate::text::is_upper(v[0]) && crate::text::is_upper(v[1])
        && crate::text::is_digit(v[2]) && crate::text::is_digit(v[3])
}

pub fn is_r_report(value: &[char]) -> (r: bool)
    ensures
        r == r_report_shape(value@),
{
    value.len() == 4 && value[0] == 'R' && (value[1] == '+' || value[1] == '-')
        && crate::text::is_digit_char(value[2]) && crate::text::is_digit_char(value[3])
}

pub fn is_report(value: &[char]) -> (r: bool)
    ensures
        r == report_shape(value@),
{
    value.len() == 3 && (value[0] == '+' || value[0] == '-') && crate::text::is_digit_char(value[1])
        && crate::text::is_digit_char(value[2])
}

pub fn is_grid4(value: &[char]) -> (r: bool)
    ensures
        r == grid4_shape(value@),
{
    value.len() == 4 && crate::text::is_upper_char(value[0]) && crate::text::is_upper_char(value[1])
        && crate::text::is_digit_char(value[2]) && crate::text::is_digit_char(value[3])
}

/// The unresolved hash marker `<...>`.
pub open spec fn hash_marker() -> Seq<char> {
    seq!['<', '.', '.', '.', '>']
}

/// Some word holds the unresolved hash `<...>`.
pub open spec fn has_hash_word(ws: Seq<Seq<char>>) -> bool {
    exists|i: int, k: int| 0 <= i < ws.len() && #[trigger] occurs_at(
        ws[i],
        hash_marker(),
        k,
    )
}

/// The class of a message from its words: an unresolved hash first, then
/// a leading `CQ` (any case), then the shape of the last word upper-cased.
pub open spec fn class_of(msg: Seq<char>) -> MessageClass {
    let ws = words(msg);
    if has_hash_word(ws) {
        MessageClass::Hash
    } else if ws.len() > 0 && upper(ws[0]) == seq!['C', 'Q'] {
        MessageClass::Cq
    } else if ws.len() == 0 {
        MessageClass::FreeTextOrOther
    } else {
        let last = upper(ws.last());
        if last == seq!['R', 'R', '7', '3'] {
            MessageClass::Rr73
        } else if last == seq!['R', 'R', 'R'] {
            MessageClass::Rrr
        } else if last == seq!['7', '3'] {
            MessageClass::SeventyThree
        } else if r_report_shape(last) {
            MessageClass::RReport
        } else if report_shape(last) {
            MessageClass::Report
        } else if grid4_shape(last) {
            MessageClass::Grid
        } else {
            MessageClass::FreeTextOrOther
        }
    }
}

pub fn classify_message(message: &str) -> (r: MessageClass)
    ensures
        r == class_of(message@),
{
    let cs = chars_of(message);
    let ws = split_ws(&cs);
    let mut i: usize = 0;
    while i < ws.len()
        invariant
            i <= ws.len(),
            wv(ws@) == words(message@),
            forall|t: int, k: int| 0 <= t < i ==> !#[trigger] occurs_at(
                wv(ws@)[t],
                hash_marker(),
                k,
            ),
        decreases ws.len() - i,
    {
        if crate::text::contains_chars(&ws[i], &['<', '.', '.', '.', '>']) {
            proof {
                assert(['<', '.', '.', '.', '>']@ == hash_marker());
                let k = choose|k: int| occurs_at(ws@[i as int]@, hash_marker(), k);
                assert(occurs_at(wv(ws@)[i as int], hash_marker(), k));
            }
            return MessageClass::Hash;
        }
        i = i + 1;
    }
    if ws.len() > 0 {
        let first = upper_chars(&ws[0]);
        if crate::text::eq_chars(&first, &['C', 'Q']) {
            return MessageClass::Cq;
        }
    }
    if ws.len() == 0 {
        return MessageClass::FreeTextOrOther;
    }
    let last = upper_chars(&ws[ws.len() - 1]);
    proof {
        assert(wv(ws@).last() == ws@[ws.len() - 1]@);
    }
    if crate::text::eq_chars(&last, &['R', 'R', '7', '3']) {
        MessageClass::Rr73
    } else if crate::text::eq_chars(&last, &['R', 'R', 'R']) {
        MessageClass::Rrr
    } else if crate::text::eq_chars(&last, &['7', '3']) {
        MessageClass::SeventyThree
    } else if is_r_report(&last) {
        MessageClass::RReport
    } else if is_report(&last) {
        MessageClass::Report
    } else if is_grid4(&last) {
        MessageClass::Grid
    } else {
        MessageClass::FreeTextOrOther
    }
}

/// A message with runs of whitespace collapsed to single spaces.
pub open spec fn collapsed(msg: Seq<char>) -> Seq<char> {
    join(words(msg))
}

/// The row's evidence reports at least two messages that differ beyond
/// whitespace.
pub open spec fn representation_differs(row: SharedDecode) -> bool {
    row.evidence@.len() >= 2 && exists|i: int, j: int|
        0 <= i < row.evidence@.len() && 0 <= j < row.evidence@.len() && #[trigger] collapsed(
            row.evidence@[i].message@,
        ) != #[trigger] collapsed(row.evidence@[j].message@)
}

fn collapse_chars(msg: &str) -> (r: Vec<char>)
    ensures
        r@ == collapsed(msg@),
{
    let cs = chars_of(msg);
    let ws = split_ws(&cs);
    join_words(&ws)
}

pub fn has_representation_only_diff(row: &SharedDecode) -> (r: bool)
    ensures
        r == representation_differs(*row),
{
    if row.evidence.len() < 2 {
        return false;
    }
    let first = collapse_chars(row.evidence[0].message.as_str());
    let mut i: usize = 1;
    while i < row.evidence.len()
        invariant
            1 <= i <= row.evidence@.len(),
            row.evidence@.len() >= 2,
            first@ == collapsed(row.evidence@[0].message@),
            forall|t: int| 0 <= t < i ==> #[trigger] collapsed(row.evidence@[t].message@) == first@,
        decreases row.evidence@.len() - i,
    {
        let c = collapse_chars(row.evidence[i].message.as_str());
        if !crate::text::eq_chars(&c, &first) {
            assert(collapsed(row.evidence@[i as int].message@) != collapsed(
                row.evidence@[0].message@,
            ));
            return true;
        }
        i = i + 1;
    }
    proof {
        assert forall|a: int, b: int|
            0 <= a < row.evidence@.len() && 0 <= b < row.evidence@.len() implies #[trigger] collapsed(
            row.evidence@[a].message@,
        ) == #[trigger] collapsed(row.evidence@[b].message@) by {}
    }
    false
}

/// The rows one decoder alone found.
pub open spec fn unique_row(r: SharedDecode) -> bool {
    r.sources@.len() == 1
}

/// What a row is counted for in the report.
pub enum RowCriterion {
    Shared,
    SharedRepresentationDiff,
    UniqueFrom(DecoderId),
    UniqueClass(MessageClass),
    UniqueBucket(SnrBucket),
}

pub open spec fn meets(r: SharedDecode, c: RowCriterion) -> bool {
    match c {
        RowCriterion::Shared => r.sources@.len() >= 2,
        RowCriterion::SharedRepresentationDiff => r.sources@.len() >= 2 && representation_differs(r),
        RowCriterion::UniqueFrom(d) => unique_row(r) && r.sources@[0] == d,
        RowCriterion::UniqueClass(m) => unique_row(r) && class_of(r.message@) == m,
        RowCriterion::UniqueBucket(b) => unique_row(r) && bucket_of(r.snr_db) == b,
    }
}

/// The number of rows that meet the criterion.
pub open spec fn count_rows(rows: Seq<SharedDecode>, c: RowCriterion) -> nat
    decreases rows.len(),
{
    if rows.len() == 0 {
        0
    } else {
        count_rows(rows.drop_last(), c) + if meets(rows.last(), c) {
            1nat
        } else {
            0nat
        }
    }
}

/// The number of pieces of evidence with provenance `p`.
pub open spec fn evidence_with(ev: Seq<Evidence>, p: Provenance) -> nat
    decreases ev.len(),
{
    if ev.len() == 0 {
        0
    } else {
        evidence_with(ev.drop_last(), p) + if ev.last().provenance == p {
            1nat
        } else {
            0nat
        }
    }
}

/// The evidence with provenance `p` over the rows one decoder alone found.
pub open spec fn unique_evidence_with(rows: Seq<SharedDecode>, p: Provenance) -> nat
    decreases rows.len(),
{
    if rows.len() == 0 {
        0
    } else {
        unique_evidence_with(rows.drop_last(), p) + if unique_row(rows.last()) {
            evidence_with(rows.last().evidence@, p)
        } else {
            0nat
        }
    }
}

/// All evidence over all rows.
pub open spec fn evidence_total(rows: Seq<SharedDecode>) -> nat
    decreases rows.len(),
{
    if rows.len() == 0 {
        0
    } else {
        evidence_total(rows.drop_last()) + rows.last().evidence@.len()
    }
}

/// The divergence report of a row list.
pub open spec fn is_report_of(r: HybridDivergenceReport, rows: Seq<SharedDecode>) -> bool {
    &&& r.total_rows == rows.len()
    &&& r.shared_rows == count_rows(rows, RowCriterion::Shared)
    &&& r.representation_only_diffs == count_rows(rows, RowCriterion::SharedRepresentationDiff)
    &&& r.wsjtx_unique_rows == count_rows(rows, RowCriterion::UniqueFrom(DecoderId::WSJTX))
    &&& r.jtdx_unique_rows == count_rows(rows, RowCriterion::UniqueFrom(DecoderId::JTDX))
    &&& forall|d: DecoderId| #[trigger] r.unique_by_decoder@[decoder_index(d)] == count_rows(
        rows,
        RowCriterion::UniqueFrom(d),
    )
    &&& forall|m: MessageClass| #[trigger] r.unique_by_message_class@[class_index(m)] == count_rows(
        rows,
        RowCriterion::UniqueClass(m),
    )
    &&& forall|b: SnrBucket| #[trigger] r.unique_by_snr_bucket@[bucket_index(b)] == count_rows(
        rows,
        RowCriterion::UniqueBucket(b),
    )
    &&& forall|p: Provenance| #[trigger] r.unique_by_provenance@[provenance_index(p)]
        == unique_evidence_with(rows, p)
}

pub(crate) proof fn lemma_count_rows_bound(rows: Seq<SharedDecode>, c: RowCriterion)
    ensures
        count_rows(rows, c) <= rows.len(),
    decreases rows.len(),
{
    if rows.len() > 0 {
        lemma_count_rows_bound(rows.drop_last(), c);
    }
}

pub(crate) proof fn lemma_evidence_with_bound(ev: Seq<Evidence>, p: Provenance)
    ensures
        evidence_with(ev, p) <= ev.len(),
    decreases ev.len(),
{
    if ev.len() > 0 {
        lemma_evidence_with_bound(ev.drop_last(), p);
    }
}

pub(crate) proof fn lemma_unique_evidence_bound(rows: Seq<SharedDecode>, p: Provenance)
    ensures
        unique_evidence_with(rows, p) <= evidence_total(rows),
    decreases rows.len(),
{
    if rows.len() > 0 {
        lemma_unique_evidence_bound(rows.drop_last(), p);
        lemma_evidence_with_bound(rows.last().evidence@, p);
    }
}

pub(crate) proof fn lemma_evidence_total_prefix(rows: Seq<SharedDecode>, i: int)
    requires
        0 <= i <= rows.len(),
    ensures
        evidence_total(rows.subrange(0, i)) <= evidence_total(rows),
    decreases rows.len() - i,
{
    if i < rows.len() {
        lemma_evidence_total_prefix(rows, i + 1);
        assert(rows.subrange(0, i + 1).drop_last() =~= rows.subrange(0, i));
    } else {
        assert(rows.subrange(0, i) =~= rows);
    }
}

/// Counts the evidence of one row by provenance.
fn count_provenance(counts: &mut [usize; 3], row: &SharedDecode, Ghost(limit): Ghost<int>)
    requires
        forall|p: Provenance| #[trigger] old(counts)@[provenance_index(p)] + row.evidence@.len()
            <= limit,
        limit <= usize::MAX,
    ensures
        forall|p: Provenance| #[trigger] final(counts)@[provenance_index(p)] == old(
            counts,
        )@[provenance_index(p)] + evidence_with(row.evidence@, p),
{
    let mut e: usize = 0;
    while e < row.evidence.len()
        invariant
            e <= row.evidence@.len(),
            counts@.len() == 3,
            limit <= usize::MAX,
            forall|p: Provenance| #[trigger] old(counts)@[provenance_index(p)] + row.evidence@.len()
                <= limit,
            forall|p: Provenance| #[trigger] counts@[provenance_index(p)] == old(
                counts,
            )@[provenance_index(p)] + evidence_with(row.evidence@.subrange(0, e as int), p),
        decreases row.evidence@.len() - e,
    {
        proof {
            assert(row.evidence@.subrange(0, e + 1).drop_last() =~= row.evidence@.subrange(
                0,
                e as int,
            ));
            let pv = row.evidence@[e as int].provenance;
            lemma_evidence_with_bound(row.evidence@.subrange(0, e as int), pv);
        }
        let k = provenance_slot(row.evidence[e].provenance);
        increment(counts, k);
        proof {
            assert forall|p: Provenance| #[trigger] counts@[provenance_index(p)] == old(
                counts,
            )@[provenance_index(p)] + evidence_with(row.evidence@.subrange(0, e + 1), p) by {
                if provenance_index(p) == k as int {
                    assert(p == row.evidence@[e as int].provenance);
                }
            }
        }
        e = e + 1;
    }
    proof {
        assert(row.evidence@.subrange(0, row.evidence@.len() as int) =~= row.evidence@);
    }
}

/// The divergence report of the shared evidence.
pub fn divergence_report_from_evidence(store: &SharedEvidenceStore) -> (report:
    HybridDivergenceReport)
    requires
        evidence_total(store.rows_spec()) <= usize::MAX,
    ensures
        is_report_of(report, store.rows_spec()),
{
    let rows = store.rows();
    let mut report = HybridDivergenceReport {
        total_rows: rows.len(),
        shared_rows: 0,
        wsjtx_unique_rows: 0,
        jtdx_unique_rows: 0,
        representation_only_diffs: 0,
        unique_by_decoder: [0; 2],
        unique_by_provenance: [0; 3],
        unique_by_message_class: [0; 9],
        unique_by_snr_bucket: [0; 4],
    };
    let mut i: usize = 0;
    while i < rows.len()
        invariant
            i <= rows@.len(),
            rows@ == store.rows_spec(),
            evidence_total(rows@) <= usize::MAX,
            report.total_rows == rows@.len(),
            ({
                let pre = rows@.subrange(0, i as int);
                &&& report.shared_rows == count_rows(pre, RowCriterion::Shared)
                &&& report.representation_only_diffs == count_rows(
                    pre,
                    RowCriterion::SharedRepresentationDiff,
                )
                &&& report.wsjtx_unique_rows == count_rows(
                    pre,
                    RowCriterion::UniqueFrom(DecoderId::WSJTX),
                )
                &&& report.jtdx_unique_rows == count_rows(
                    pre,
                    RowCriterion::UniqueFrom(DecoderId::JTDX),
                )
                &&& forall|d: DecoderId| #[trigger] report.unique_by_decoder@[decoder_index(d)]
                    == count_rows(pre, RowCriterion::UniqueFrom(d))
                &&& forall|m: MessageClass| #[trigger] report.unique_by_message_class@[class_index(
                    m,
                )] == count_rows(pre, RowCriterion::UniqueClass(m))
                &&& forall|b: SnrBucket| #[trigger] report.unique_by_snr_bucket@[bucket_index(b)]
                    == count_rows(pre, RowCriterion::UniqueBucket(b))
                &&& forall|p: Provenance| #[trigger] report.unique_by_provenance@[provenance_index(
                    p,
                )] == unique_evidence_with(pre, p)
            }),
        decreases rows@.len() - i,
    {
        let ghost pre = rows@.subrange(0, i as int);
        let ghost next = rows@.subrange(0, i + 1);
        proof {
            assert(next.drop_last() =~= pre);
            assert(next.last() == rows@[i as int]);
            lemma_count_rows_bound(pre, RowCriterion::Shared);
            lemma_count_rows_bound(pre, RowCriterion::SharedRepresentationDiff);
            lemma_count_rows_bound(pre, RowCriterion::UniqueFrom(DecoderId::WSJTX));
            lemma_count_rows_bound(pre, RowCriterion::UniqueFrom(DecoderId::JTDX));
            assert forall|m: MessageClass| count_rows(pre, RowCriterion::UniqueClass(m)) <= i by {
                lemma_count_rows_bound(pre, RowCriterion::UniqueClass(m));
            }
            assert forall|b: SnrBucket| count_rows(pre, RowCriterion::UniqueBucket(b)) <= i by {
                lemma_count_rows_bound(pre, RowCriterion::UniqueBucket(b));
            }
        }
        let row = &rows[i];
        if row.sources.len() >= 2 {
            report.shared_rows = report.shared_rows + 1;
            if has_representation_only_diff(row) {
                report.representation_only_diffs = report.representation_only_diffs + 1;
            }
        } else if row.sources.len() == 1 {
            let source = row.sources[0];
            match source {
                DecoderId::WSJTX => {
                    report.wsjtx_unique_rows = report.wsjtx_unique_rows + 1;
                },
                DecoderId::JTDX => {
                    report.jtdx_unique_rows = report.jtdx_unique_rows + 1;
                },
            }
            let ds = decoder_slot(source);
            proof {
                assert(report.unique_by_decoder@[decoder_index(source)] == count_rows(
                    pre,
                    RowCriterion::UniqueFrom(source),
                ));
                lemma_count_rows_bound(pre, RowCriterion::UniqueFrom(source));
            }
            increment(&mut report.unique_by_decoder, ds);
            let cls = classify_message(row.message.as_str());
            let cs = class_slot(cls);
            proof {
                assert(report.unique_by_message_class@[class_index(cls)] == count_rows(
                    pre,
                    RowCriterion::UniqueClass(cls),
                ));
            }
            increment(&mut report.unique_by_message_class, cs);
            let bk = snr_bucket(row.snr_db);
            let bs = bucket_slot(bk);
            proof {
                assert(report.unique_by_snr_bucket@[bucket_index(bk)] == count_rows(
                    pre,
                    RowCriterion::UniqueBucket(bk),
                ));
            }
            increment(&mut report.unique_by_snr_bucket, bs);
            proof {
                lemma_evidence_total_prefix(rows@, i + 1);
                assert forall|p: Provenance| #[trigger] report.unique_by_provenance@[provenance_index(
                    p,
                )] + row.evidence@.len() <= usize::MAX by {
                    lemma_unique_evidence_bound(pre, p);
                    assert(evidence_total(next) == evidence_total(pre) + row.evidence@.len());
                }
            }
            count_provenance(&mut report.unique_by_provenance, row, Ghost(usize::MAX as int));
            proof {
                assert forall|d: DecoderId| #[trigger] report.unique_by_decoder@[decoder_index(d)]
                    == count_rows(next, RowCriterion::UniqueFrom(d)) by {
                    if decoder_index(d) == decoder_index(source) {
                        assert(d == source);
                    }
                }
                assert forall|m: MessageClass| #[trigger] report.unique_by_message_class@[class_index(
                    m,
                )] == count_rows(next, RowCriterion::UniqueClass(m)) by {
                    if class_index(m) == class_index(cls) {
                        assert(m == cls);
                    }
                }
                assert forall|b: SnrBucket| #[trigger] report.unique_by_snr_bucket@[bucket_index(b)]
                    == count_rows(next, RowCriterion::UniqueBucket(b)) by {
                    if bucket_index(b) == bucket_index(bk) {
                        assert(b == bk);
                    }
                }
            }
        }
        i = i + 1;
    }
    proof {
        assert(rows@.subrange(0, rows@.len() as int) =~= rows@);
    }
    report
}

/// How many QSO context hints the slots offered.
#[derive(Clone, Copy, Debug, Default, PartialEq, Eq)]
pub struct QsoContextOpportunityReport {
    pub slots_with_hints: usize,
    pub total_hints: usize,
    pub max_hints_in_slot: usize,
}

impl QsoContextOpportunityReport {
    /// Counts one slot that offered `hints` hints; a slot without hints
    /// changes nothing.
    pub fn observe_slot(&mut self, hints: usize)
        requires
            old(self).slots_with_hints < usize::MAX,
            old(self).total_hints + hints <= usize::MAX,
        ensures
            hints == 0 ==> *final(self) == *old(self),
            hints > 0 ==> final(self).slots_with_hints == old(self).slots_with_hints + 1
                && final(self).total_hints == old(self).total_hints + hints
                && final(self).max_hints_in_slot == if hints > old(self).max_hints_in_slot {
                hints
            } else {
                old(self).max_hints_in_slot
            },
    {
        if hints == 0 {
            return;
        }
        self.slots_with_hints = self.slots_with_hints + 1;
        self.total_hints = self.total_hints + hints;
        if hints > self.max_hints_in_slot {
            self.max_hints_in_slot = hints;
        }
    }
}

/// The words that are never a context call.
pub open spec fn context_stop_word(u: Seq<char>) -> bool {
    u == seq!['C', 'Q'] || u == seq!['D', 'E'] || u == seq!['Q', 'R', 'Z'] || u == seq!['D', 'X']
        || u == seq!['R', 'R', 'R'] || u == seq!['R', 'R', '7', '3'] || u == seq!['7', '3'] || u
        == seq!['R'] || u == seq!['T', 'U']
}

pub open spec fn call_char(c: char) -> bool {
    ('A' <= c && c <= 'Z') || ('a' <= c && c <= 'z') || ('0' <= c && c <= '9') || c == '/' || c == '_'
}

pub open spec fn alpha_char(c: char) -> bool {
    ('A' <= c && c <= 'Z') || ('a' <= c && c <= 'z')
}

/// A word that can name the station of a QSO hint: trimmed and without
/// hash brackets, at least three bytes, no protocol word, letters and
/// digits (with `/` or `_`) holding at least one of each.
pub open spec fn context_call(call: Seq<char>) -> bool {
    let c = strip_trail(strip_lead(trim(call), '<', '<'), '>', '>');
    crate::text::byte_len(c) >= 3 && !context_stop_word(upper(c)) && (exists|k: int|
        0 <= k < c.len() && crate::text::is_digit(#[trigger] c[k])) && (exists|k: int|
        0 <= k < c.len() && alpha_char(#[trigger] c[k])) && (forall|k: int|
        0 <= k < c.len() ==> call_char(#[trigger] c[k]))
}

fn is_context_stop_word(u: &[char]) -> (r: bool)
    ensures
        r == context_stop_word(u@),
{
    proof {
        assert(['C', 'Q']@ == seq!['C', 'Q']);
        assert(['D', 'E']@ == seq!['D', 'E']);
        assert(['Q', 'R', 'Z']@ == seq!['Q', 'R', 'Z']);
        assert(['D', 'X']@ == seq!['D', 'X']);
        assert(['R', 'R', 'R']@ == seq!['R', 'R', 'R']);
        assert(['R', 'R', '7', '3']@ == seq!['R', 'R', '7', '3']);
        assert(['7', '3']@ == seq!['7', '3']);
        assert(['R']@ == seq!['R']);
        assert(['T', 'U']@ == seq!['T', 'U']);
    }
    crate::text::eq_chars(u, &['C', 'Q']) || crate::text::eq_chars(u, &['D', 'E'])
        || crate::text::eq_chars(u, &['Q', 'R', 'Z']) || crate::text::eq_chars(u, &['D', 'X'])
        || crate::text::eq_chars(u, &['R', 'R', 'R']) || crate::text::eq_chars(u, &['R', 'R', '7', '3'])
        || crate::text::eq_chars(u, &['7', '3']) || crate::text::eq_chars(u, &['R'])
        || crate::text::eq_chars(u, &['T', 'U'])
}

pub fn is_context_call(call: &str) -> (r: bool)
    ensures
        r == context_call(call@),
{
    let cs = chars_of(call);
    let t = crate::text::trim_chars(&cs);
    let a = crate::text::strip_lead_chars(&t, '<', '<');
    let c = crate::text::strip_trail_chars(&a, '>', '>');
    if crate::text::byte_len_chars(&c) < 3 {
        return false;
    }
    let u = upper_chars(&c);
    if is_context_stop_word(&u) {
        return false;
    }
    let mut any_digit = false;
    let mut any_alpha = false;
    let mut all_ok = true;
    let mut i: usize = 0;
    while i < c.len()
        invariant
            i <= c@.len(),
            any_digit == exists|k: int| 0 <= k < i && crate::text::is_digit(#[trigger] c@[k]),
            any_alpha == exists|k: int| 0 <= k < i && alpha_char(#[trigger] c@[k]),
            all_ok == forall|k: int| 0 <= k < i ==> call_char(#[trigger] c@[k]),
        decreases c@.len() - i,
    {
        let ch = c[i];
        let digit = '0' <= ch && ch <= '9';
        let alpha = ('A' <= ch && ch <= 'Z') || ('a' <= ch && ch <= 'z');
        if digit {
            any_digit = true;
        }
        if alpha {
            any_alpha = true;
        }
        if !(alpha || digit || ch == '/' || ch == '_') {
            all_ok = false;
        }
        proof {
            assert(crate::text::is_digit(c@[i as int]) == digit);
            assert(alpha_char(c@[i as int]) == alpha);
        }
        i = i + 1;
    }
    any_digit && any_alpha && all_ok
}

} // verus!
