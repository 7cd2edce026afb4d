//! What the DX chase learns from decoded rows: who sends to whom, how far
//! a QSO with the target has got, and which slot parity the target uses.
use vstd::prelude::*;
use crate::dx_filter::{message_words, normalized_words, word_names, DxTarget};
use crate::text::{join, join_words, string_of, wv};

verus! {

/// A slot timestamp, held as its UTC time of day `HHMMSS`.
#[derive(Clone, Copy, Debug, PartialEq, Eq, Structural)]
pub struct SlotTimestamp {
    pub nutc: u32,
}

impl SlotTimestamp {
    pub fn nutc(&self) -> (r: u32)
        ensures
            r == self.nutc,
    {
        self.nutc
    }
}

/// The value of a decimal digit character.
pub open spec fn digit_value(c: char) -> int {
    (c as u32) as int - 48
}

/// Six decimal digits read as a number.
pub open spec fn six_digit_value(t: Seq<char>) -> int {
    digit_value(t[0]) * 100000 + digit_value(t[1]) * 10000 + digit_value(t[2]) * 1000
        + digit_value(t[3]) * 100 + digit_value(t[4]) * 10 + digit_value(t[5])
}

pub open spec fn all_digits(t: Seq<char>) -> bool {
    forall|k: int| 0 <= k < t.len() ==> crate::text::is_digit(#[trigger] t[k])
}

/// The time of day a slot label names: `HHMMSS`, or `YYMMDD_HHMMSS`.
pub open spec fn slot_label_time(s: Seq<char>) -> Option<int> {
    if s.len() == 6 && all_digits(s) {
        Some(six_digit_value(s))
    } else if s.len() == 13 && s[6] == '_' && all_digits(s.subrange(0, 6)) && all_digits(
        s.subrange(7, 13),
    ) {
        Some(six_digit_value(s.subrange(7, 13)))
    } else {
        None
    }
}

fn digits_at(v: &[char], lo: usize, hi: usize) -> (r: bool)
    requires
        lo <= hi <= v@.len(),
    ensures
        r == all_digits(v@.subrange(lo as int, hi as int)),
{
    let mut i = lo;
    while i < hi
        invariant
            lo <= i <= hi <= v@.len(),
            forall|k: int| lo <= k < i ==> crate::text::is_digit(#[trigger] v@[k]),
        decreases hi - i,
    {
        if !crate::text::is_digit_char(v[i]) {
            assert(!crate::text::is_digit(v@.subrange(lo as int, hi as int)[i - lo]));
            return false;
        }
        i = i + 1;
    }
    assert forall|k: int| 0 <= k < hi - lo implies crate::text::is_digit(
        #[trigger] v@.subrange(lo as int, hi as int)[k],
    ) by {
        assert(v@.subrange(lo as int, hi as int)[k] == v@[lo + k]);
    }
    true
}

fn six_digits_at(v: &[char], lo: usize) -> (r: u32)
    requires
        lo + 6 <= v@.len(),
        all_digits(v@.subrange(lo as int, lo + 6)),
    ensures
        r == six_digit_value(v@.subrange(lo as int, lo + 6)),
{
    let ghost t = v@.subrange(lo as int, lo + 6);
    assert(forall|k: int| 0 <= k < 6 ==> t[k] == v@[lo + k]);
    assert(crate::text::is_digit(t[0]) && crate::text::is_digit(t[1]) && crate::text::is_digit(t[2])
        && crate::text::is_digit(t[3]) && crate::text::is_digit(t[4]) && crate::text::is_digit(t[5]));
    let d0 = (v[lo] as u32) - 48;
    let d1 = (v[lo + 1] as u32) - 48;
    let d2 = (v[lo + 2] as u32) - 48;
    let d3 = (v[lo + 3] as u32) - 48;
    let d4 = (v[lo + 4] as u32) - 48;
    let d5 = (v[lo + 5] as u32) - 48;
    d0 * 100000 + d1 * 10000 + d2 * 1000 + d3 * 100 + d4 * 10 + d5
}

impl SlotTimestamp {
    /// Reads a slot label, `HHMMSS` or `YYMMDD_HHMMSS`.
    pub fn parse(label: &str) -> (r: Option<SlotTimestamp>)
        ensures
            match r {
                Some(t) => slot_label_time(label@) == Some(t.nutc as int),
                None => slot_label_time(label@) is None,
            },
    {
        let v = crate::text::chars_of(label);
        if v.len() == 6 && digits_at(&v, 0, 6) {
            assert(v@.subrange(0, 6) =~= v@);
            return Some(SlotTimestamp { nutc: six_digits_at(&v, 0) });
        }
        assert(v@.subrange(0, v@.len() as int) =~= v@);
        if v.len() == 13 && v[6] == '_' && digits_at(&v, 0, 6) && digits_at(&v, 7, 13) {
            return Some(SlotTimestamp { nutc: six_digits_at(&v, 7) });
        }
        None
    }
}

/// The seconds since midnight of a `HHMMSS` time.
pub open spec fn seconds_of(nutc: u32) -> int {
    (nutc / 10000) as int * 3600 + ((nutc / 100) % 100) as int * 60 + (nutc % 100) as int
}

/// The number of whole 15 s slots from `start` to `end`, where an `end`
/// earlier in the day than `start` lies on the next day.
pub open spec fn slots_between_spec(start: u32, end: u32) -> int {
    let s = seconds_of(start);
    let e = seconds_of(end);
    let e2 = if e < s {
        e + 86400
    } else {
        e
    };
    (e2 - s) / 15
}

pub fn nutc_to_seconds(nutc: u32) -> (r: u32)
    ensures
        r == seconds_of(nutc),
{
    let h = nutc / 10000;
    let m = (nutc / 100) % 100;
    let s = nutc % 100;
    assert(h <= 429496);
    assert(h * 3600 <= 1546185600) by (nonlinear_arith)
        requires
            h <= 429496,
    ;
    h * 3600 + m * 60 + s
}

pub fn slots_between(start_nutc: u32, end_nutc: u32) -> (r: u32)
    requires
        seconds_of(start_nutc) <= seconds_of(end_nutc) + 86400,
    ensures
        r == slots_between_spec(start_nutc, end_nutc),
{
    let start = nutc_to_seconds(start_nutc);
    let mut end = nutc_to_seconds(end_nutc);
    if end < start {
        end = end + 24 * 60 * 60;
    }
    (end - start) / 15
}

/// The parity of the 15 s slot that starts at `timestamp`.
pub fn slot_parity(timestamp: &SlotTimestamp) -> (r: usize)
    ensures
        r == (timestamp.nutc / 5) % 2,
{
    ((timestamp.nutc() / 5) % 2) as usize
}

/// The target is named by a word of the normalized message, read as
/// sender: after `CQ` anywhere, else as the second word.
pub open spec fn target_sends(ws: Seq<Seq<char>>, call: Seq<char>) -> bool {
    if ws.len() == 0 {
        false
    } else if ws[0] == seq!['C', 'Q'] {
        exists|i: int| 1 <= i < ws.len() && #[trigger] word_names(call, ws[i])
    } else {
        ws.len() > 1 && word_names(call, ws[1])
    }
}

/// The target is named by the first word: the message is addressed to it.
pub open spec fn target_receives(ws: Seq<Seq<char>>, call: Seq<char>) -> bool {
    ws.len() > 0 && word_names(call, ws[0])
}

pub open spec fn names_some_word(ws: Seq<Seq<char>>, call: Seq<char>) -> bool {
    exists|i: int| 0 <= i < ws.len() && #[trigger] word_names(call, ws[i])
}

/// Whether some word at index `from` or later names the target.
fn any_word_names(ws: &Vec<Vec<char>>, target: &DxTarget, from: usize) -> (r: bool)
    ensures
        r == exists|i: int| from <= i < ws@.len() && #[trigger] word_names(
            target.call_spec(),
            wv(ws@)[i],
        ),
{
    let mut i: usize = from;
    while i < ws.len()
        invariant
            from <= i,
            forall|j: int| from <= j < i ==> !#[trigger] word_names(target.call_spec(), wv(ws@)[j]),
        decreases ws.len() - i,
    {
        if target.matches_word_chars(&ws[i]) {
            assert(word_names(target.call_spec(), wv(ws@)[i as int]));
            return true;
        }
        i = i + 1;
    }
    false
}

pub fn is_target_sender(words: &Vec<Vec<char>>, target: &DxTarget) -> (r: bool)
    ensures
        r == target_sends(wv(words@), target.call_spec()),
{
    if words.len() == 0 {
        return false;
    }
    if crate::text::eq_chars(&words[0], &['C', 'Q']) {
        return any_word_names(words, target, 1);
    }
    words.len() > 1 && target.matches_word_chars(&words[1])
}

pub fn is_target_recipient(words: &Vec<Vec<char>>, target: &DxTarget) -> (r: bool)
    ensures
        r == target_receives(wv(words@), target.call_spec()),
{
    words.len() > 0 && target.matches_word_chars(&words[0])
}

/// Who a decoded message involves, seen from the chase.
#[derive(Clone, Copy, Debug, Default)]
pub struct MessageRole {
    pub contains_target: bool,
    pub target_sender: bool,
    pub target_recipient: bool,
    pub contains_mycall: bool,
}

impl MessageRole {
    pub fn from_message(msg: &str, target: &DxTarget, mycall: Option<&DxTarget>) -> (r: MessageRole)
        ensures
            r.contains_target == names_some_word(normalized_words(msg@), target.call_spec()),
            r.contains_mycall == match mycall {
                Some(m) => names_some_word(normalized_words(msg@), m.call_spec()),
                None => false,
            },
            r.target_sender == target_sends(normalized_words(msg@), target.call_spec()),
            r.target_recipient == target_receives(normalized_words(msg@), target.call_spec()),
    {
        let words = message_words(msg);
        let contains_target = any_word_names(&words, target, 0);
        let contains_mycall = match mycall {
            Some(m) => any_word_names(&words, m, 0),
            None => false,
        };
        let target_sender = is_target_sender(&words, target);
        let target_recipient = is_target_recipient(&words, target);
        MessageRole { contains_target, target_sender, target_recipient, contains_mycall }
    }
}

pub open spec fn is_ascii_alpha(c: char) -> bool {
    ('A' <= c && c <= 'Z') || ('a' <= c && c <= 'z')
}

/// A four-character Maidenhead square: two letters (either case) and two
/// digits.
pub open spec fn grid4_word(w: Seq<char>) -> bool {
    w.len() == 4 && is_ascii_alpha(w[0]) && is_ascii_alpha(w[1]) && crate::text::is_digit(w[2])
        && crate::text::is_digit(w[3])
}

/// A signal report such as `-04` or `+12`.
pub open spec fn signal_report_word(w: Seq<char>) -> bool {
    w.len() == 3 && (w[0] == '+' || w[0] == '-') && crate::text::is_digit(w[1])
        && crate::text::is_digit(w[2])
}

/// A roger report such as `R-05`.
pub open spec fn r_report_word(w: Seq<char>) -> bool {
    w.len() == 4 && w[0] == 'R' && (w[1] == '+' || w[1] == '-') && crate::text::is_digit(w[2])
        && crate::text::is_digit(w[3])
}

pub fn is_grid4(word: &[char]) -> (r: bool)
    ensures
        r == grid4_word(word@),
{
    word.len() == 4 && (('A' <= word[0] && word[0] <= 'Z') || ('a' <= word[0] && word[0] <= 'z'))
        && (('A' <= word[1] && word[1] <= 'Z') || ('a' <= word[1] && word[1] <= 'z'))
        && crate::text::is_digit_char(word[2]) && crate::text::is_digit_char(word[3])
}

pub fn is_signal_report(word: &[char]) -> (r: bool)
    ensures
        r == signal_report_word(word@),
{
    word.len() == 3 && (word[0] == '+' || word[0] == '-') && crate::text::is_digit_char(word[1])
        && crate::text::is_digit_char(word[2])
}

pub fn is_r_report(word: &[char]) -> (r: bool)
    ensures
        r == r_report_word(word@),
{
    word.len() == 4 && word[0] == 'R' && (word[1] == '+' || word[1] == '-')
        && crate::text::is_digit_char(word[2]) && crate::text::is_digit_char(word[3])
}

/// Why a probe reached its verdict.
#[derive(Clone, Copy, Debug, PartialEq, Eq, Structural)]
pub enum ProgressReason {
    NotMyTargetQso,
    NoExchangeToken,
    Rr73,
    SeventyThree,
    Rrr,
    RReport,
    SignalReport,
    Grid,
    UnknownExchange,
}

/// How far the QSO between the target and my call has got, read from the
/// exchange token of the last message that involved either.
#[derive(Clone, Debug)]
pub struct QsoProgressProbe {
    pub last_message: Vec<char>,
    pub inferred_progress: Option<usize>,
    pub reason: ProgressReason,
}

/// The progress step and reason that an exchange token shows.
pub open spec fn exchange_progress(token: Seq<char>) -> (Option<usize>, ProgressReason) {
    if token == seq!['R', 'R', '7', '3'] {
        (Some(5), ProgressReason::Rr73)
    } else if token == seq!['7', '3'] {
        (Some(5), ProgressReason::SeventyThree)
    } else if token == seq!['R', 'R', 'R'] {
        (Some(4), ProgressReason::Rrr)
    } else if r_report_word(token) {
        (Some(3), ProgressReason::RReport)
    } else if signal_report_word(token) {
        (Some(2), ProgressReason::SignalReport)
    } else if grid4_word(token) {
        (Some(1), ProgressReason::Grid)
    } else {
        (None, ProgressReason::UnknownExchange)
    }
}

/// The verdict of the probe on normalized words and the message's role.
pub open spec fn probe_verdict(ws: Seq<Seq<char>>, role: MessageRole) -> (
    Option<usize>,
    ProgressReason,
) {
    if !role.contains_target || !role.contains_mycall {
        (None, ProgressReason::NotMyTargetQso)
    } else if ws.len() < 3 {
        (None, ProgressReason::NoExchangeToken)
    } else {
        exchange_progress(ws[2])
    }
}

pub fn infer_qso_progress_probe(words: &Vec<Vec<char>>, role: MessageRole) -> (r:
    QsoProgressProbe)
    ensures
        r.last_message@ == join(wv(words@)),
        (r.inferred_progress, r.reason) == probe_verdict(wv(words@), role),
{
    let last_message = join_words(words);
    if !role.contains_target || !role.contains_mycall {
        return QsoProgressProbe {
            last_message,
            inferred_progress: None,
            reason: ProgressReason::NotMyTargetQso,
        };
    }
    if words.len() < 3 {
        return QsoProgressProbe {
            last_message,
            inferred_progress: None,
            reason: ProgressReason::NoExchangeToken,
        };
    }
    let exchange = &words[2];
    let (inferred_progress, reason) = if crate::text::eq_chars(exchange, &['R', 'R', '7', '3']) {
        (Some(5), ProgressReason::Rr73)
    } else if crate::text::eq_chars(exchange, &['7', '3']) {
        (Some(5), ProgressReason::SeventyThree)
    } else if crate::text::eq_chars(exchange, &['R', 'R', 'R']) {
        (Some(4), ProgressReason::Rrr)
    } else if is_r_report(exchange) {
        (Some(3), ProgressReason::RReport)
    } else if is_signal_report(exchange) {
        (Some(2), ProgressReason::SignalReport)
    } else if is_grid4(exchange) {
        (Some(1), ProgressReason::Grid)
    } else {
        (None, ProgressReason::UnknownExchange)
    };
    QsoProgressProbe { last_message, inferred_progress, reason }
}

/// The probe for a message, as the chase records it after each row that
/// involves the target or my call.
pub fn observe_qso_progress(msg: &str, role: MessageRole) -> (r: QsoProgressProbe)
    ensures
        r.last_message@ == join(normalized_words(msg@)),
        (r.inferred_progress, r.reason) == probe_verdict(normalized_words(msg@), role),
{
    let words = message_words(msg);
    infer_qso_progress_probe(&words, role)
}

/// The last grid square of the normalized message, if any: what the chase
/// records as the target's grid when the target sends.
pub open spec fn last_grid(ws: Seq<Seq<char>>) -> Option<Seq<char>>
    decreases ws.len(),
{
    if ws.len() == 0 {
        None
    } else if grid4_word(ws.last()) {
        Some(ws.last())
    } else {
        last_grid(ws.drop_last())
    }
}

pub fn harvest_grid(msg: &str) -> (r: Option<String>)
    ensures
        match r {
            Some(g) => last_grid(normalized_words(msg@)) == Some(g@),
            None => last_grid(normalized_words(msg@)) is None,
        },
{
    let words = message_words(msg);
    let mut i: usize = words.len();
    assert(wv(words@).subrange(0, words.len() as int) =~= wv(words@));
    while i > 0
        invariant
            i <= words.len(),
            wv(words@) == normalized_words(msg@),
            last_grid(wv(words@)) == last_grid(wv(words@).subrange(0, i as int)),
        decreases i,
    {
        proof {
            assert(wv(words@).subrange(0, i as int).drop_last() =~= wv(words@).subrange(
                0,
                i - 1,
            ));
        }
        if is_grid4(&words[i - 1]) {
            let g = string_of(&words[i - 1]);
            proof {
                let sub = wv(words@).subrange(0, i as int);
                assert(sub.last() == words@[i - 1]@);
                assert(grid4_word(sub.last()));
                assert(last_grid(sub) == Some(sub.last()));
            }
            return Some(g);
        }
        i = i - 1;
    }
    proof {
        assert(wv(words@).subrange(0, 0) =~= Seq::<Seq<char>>::empty());
        assert(wv(words@).subrange(0, words.len() as int) =~= wv(words@));
    }
    None
}

/// How sure the chase is of the target's transmit parity.
#[derive(Clone, Copy, Debug, PartialEq, Eq, Structural)]
pub enum ParityConfidence {
    Inferred,
    Observed,
}

/// The target's transmit parity and when it was last seen.
#[derive(Clone, Copy, Debug, PartialEq, Eq, Structural)]
pub struct TxParity {
    pub parity: usize,
    pub confidence: ParityConfidence,
    pub last_seen_nutc: u32,
}

/// Whether a new parity reading replaces the one held: always when none is
/// held, when an observation replaces an inference, when it agrees, or when
/// the held one is more than 16 slots old.
pub open spec fn parity_replaces(
    held: Option<TxParity>,
    confidence: ParityConfidence,
    parity: usize,
    nutc: u32,
) -> bool {
    match held {
        None => true,
        Some(e) => (e.confidence == ParityConfidence::Inferred && confidence
            == ParityConfidence::Observed) || e.parity == parity || slots_between_spec(
            e.last_seen_nutc,
            nutc,
        ) > 16,
    }
}

/// The parity held after a reading of `parity` at `nutc`.
pub fn set_tx_parity(
    held: Option<TxParity>,
    parity: usize,
    confidence: ParityConfidence,
    nutc: u32,
) -> (r: Option<TxParity>)
    requires
        held matches Some(e) ==> seconds_of(e.last_seen_nutc) <= seconds_of(nutc) + 86400,
    ensures
        r == if parity_replaces(held, confidence, parity, nutc) {
            Some(TxParity { parity, confidence, last_seen_nutc: nutc })
        } else {
            held
        },
{
    let replace = match held {
        None => true,
        Some(existing) => (existing.confidence == ParityConfidence::Inferred && confidence
            == ParityConfidence::Observed) || existing.parity == parity || slots_between(
            existing.last_seen_nutc,
            nutc,
        ) > 16,
    };
    if replace {
        Some(TxParity { parity, confidence, last_seen_nutc: nutc })
    } else {
        held
    }
}

/// Whether the focused pass should run on this slot: only an observed
/// parity at most 16 slots old rules out the slots of the other parity.
pub open spec fn runs_focused(held: Option<TxParity>, timestamp: SlotTimestamp) -> bool {
    match held {
        Some(p) => if p.confidence == ParityConfidence::Observed && slots_between_spec(
            p.last_seen_nutc,
            timestamp.nutc,
        ) <= 16 {
            p.parity == (timestamp.nutc / 5) % 2
        } else {
            true
        },
        None => true,
    }
}

pub fn should_run_focused(held: Option<TxParity>, timestamp: &SlotTimestamp) -> (r: bool)
    requires
        held matches Some(p) ==> seconds_of(p.last_seen_nutc) <= seconds_of(timestamp.nutc)
            + 86400,
    ensures
        r == runs_focused(held, *timestamp),
{
    match held {
        Some(p) => {
            if p.confidence == ParityConfidence::Observed {
                if slots_between(p.last_seen_nutc, timestamp.nutc()) <= 16 {
                    p.parity == slot_parity(timestamp)
                } else {
                    true
                }
            } else {
                true
            }
        },
        None => true,
    }
}

/// The number of stacked decodes with a CRC check allowed in one slot.
pub const MAX_DEEP_CRC_DECODE_PER_SLOT: usize = 2;

/// The per-slot budget of stacked CRC decodes.
#[derive(Clone, Copy, Debug, PartialEq, Eq, Structural)]
pub struct DeepCrcBudget {
    pub nutc: Option<u32>,
    pub used: usize,
}

impl DeepCrcBudget {
    /// The decodes of slot `nutc` this budget already granted: its count when
    /// it last served that slot, none otherwise.
    pub open spec fn used_in(self, nutc: u32) -> int {
        if self.nutc == Some(nutc) {
            self.used as int
        } else {
            0
        }
    }

    pub fn new() -> (r: DeepCrcBudget)
        ensures
            r.nutc is None,
            r.used == 0,
    {
        DeepCrcBudget { nutc: None, used: 0 }
    }

    /// Takes one decode from the budget of slot `nutc`; a new slot starts a
    /// fresh budget. Returns whether a decode was granted.
    pub fn take(&mut self, nutc: u32) -> (r: bool)
        requires
            old(self).used <= MAX_DEEP_CRC_DECODE_PER_SLOT,
        ensures
            final(self).nutc == Some(nutc),
            ({
                let used0: int = if old(self).nutc == Some(nutc) {
                    old(self).used as int
                } else {
                    0
                };
                &&& r == (used0 < MAX_DEEP_CRC_DECODE_PER_SLOT)
                &&& final(self).used == if r {
                    used0 + 1
                } else {
                    used0
                }
            }),
            final(self).used <= MAX_DEEP_CRC_DECODE_PER_SLOT,
    {
        let same_slot = match self.nutc {
            Some(n) => n == nutc,
            None => false,
        };
        if !same_slot {
            self.nutc = Some(nutc);
            self.used = 0;
        }
        if self.used >= MAX_DEEP_CRC_DECODE_PER_SLOT {
            return false;
        }
        self.used = self.used + 1;
        true
    }
}

/// What the stacked decoder did in one slot, for the diagnostics line.
#[derive(Clone, Copy, Debug, Default, PartialEq, Eq)]
pub struct DeepStackDiagnostics {
    pub crc_candidates: usize,
    pub crc_attempts: usize,
    pub crc_skipped_budget: usize,
}

/// Runs the budget over `candidates` stacked candidates in one slot and
/// counts the attempts and the skips.
pub fn spend_crc_budget(
    budget: &mut DeepCrcBudget,
    diagnostics: &mut DeepStackDiagnostics,
    nutc: u32,
    candidates: usize,
)
    requires
        old(budget).used <= MAX_DEEP_CRC_DECODE_PER_SLOT,
        old(diagnostics).crc_candidates + candidates <= usize::MAX,
        old(diagnostics).crc_attempts + candidates <= usize::MAX,
        old(diagnostics).crc_skipped_budget + candidates <= usize::MAX,
    ensures
        final(diagnostics).crc_candidates == old(diagnostics).crc_candidates + candidates,
        final(diagnostics).crc_attempts + final(diagnostics).crc_skipped_budget == old(
            diagnostics,
        ).crc_attempts + old(diagnostics).crc_skipped_budget + candidates,
        final(diagnostics).crc_attempts - old(diagnostics).crc_attempts
            <= MAX_DEEP_CRC_DECODE_PER_SLOT,
        final(budget).used <= MAX_DEEP_CRC_DECODE_PER_SLOT,
        candidates > 0 ==> final(budget).nutc == Some(nutc),
{
    let a0 = diagnostics.crc_attempts;
    let ghost granted_before: int = if budget.nutc == Some(nutc) {
        budget.used as int
    } else {
        0
    };
    let mut k: usize = 0;
    while k < candidates
        invariant
            k <= candidates,
            budget.used <= MAX_DEEP_CRC_DECODE_PER_SLOT,
            diagnostics.crc_candidates == old(diagnostics).crc_candidates + k,
            diagnostics.crc_attempts + diagnostics.crc_skipped_budget == old(
                diagnostics,
            ).crc_attempts + old(diagnostics).crc_skipped_budget + k,
            diagnostics.crc_attempts >= a0,
            a0 == old(diagnostics).crc_attempts,
            k > 0 ==> budget.nutc == Some(nutc),
            k > 0 ==> diagnostics.crc_attempts - a0 <= budget.used,
            k == 0 ==> diagnostics.crc_attempts == a0,
            old(diagnostics).crc_candidates + candidates <= usize::MAX,
            old(diagnostics).crc_attempts + candidates <= usize::MAX,
            old(diagnostics).crc_skipped_budget + candidates <= usize::MAX,
        decreases candidates - k,
    {
        diagnostics.crc_candidates = diagnostics.crc_candidates + 1;
        let allow = budget.take(nutc);
        if allow {
            diagnostics.crc_attempts = diagnostics.crc_attempts + 1;
        } else {
            diagnostics.crc_skipped_budget = diagnostics.crc_skipped_budget + 1;
        }
        k = k + 1;
    }
}

} // verus!
