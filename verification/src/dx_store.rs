//! What the DX chase remembers about its target across slots: where and
//! when the target transmits, its grid and time offset, and how far the
//! QSO with it has got.
use vstd::prelude::*;
use crate::dx_context::{
    grid4_word, harvest_grid, is_grid4, last_grid, names_some_word, observe_qso_progress,
    probe_verdict, runs_focused, set_tx_parity, should_run_focused, slot_parity, target_sends,
    target_receives, parity_replaces, DeepCrcBudget, DeepStackDiagnostics, MessageRole,
    ParityConfidence, ProgressReason, QsoProgressProbe, SlotTimestamp, TxParity,
    MAX_DEEP_CRC_DECODE_PER_SLOT,
};
use crate::dx_filter::{message_names, message_words, normalize_call, normalize_call_spec, normalized_words, DxTarget};
use crate::dx_foci::{
    age_frequencies, aged, candidates_ok, fox_grid, fox_multistream_foci, greedy_foci,
    is_greedy_foci, lemma_foci_shape, lowest, remember_frequency, remembered, same_window, valid_time,
    FrequencyCandidate,
    FREQ_LIMIT_MHZ,
};
use crate::hybrid::StreamDecodedMessage;
use crate::dx_matched::DeepHit;
use crate::text::{chars_of, join, string_of, trim, trim_chars, upper, upper_chars, wv};

verus! {

/// The probe of the QSO progress as plain values.
pub struct ProbeModel {
    pub last_message: Seq<char>,
    pub progress: Option<usize>,
    pub reason: ProgressReason,
}

/// The store as plain values.
pub struct StoreModel {
    pub target: Seq<char>,
    pub mycall: Option<Seq<char>>,
    pub frequencies: Seq<FrequencyCandidate>,
    pub tx_parity: Option<TxParity>,
    pub hisgrid: Option<Seq<char>>,
    pub dt_ms: Option<i64>,
    pub hound: bool,
    pub nfa: i64,
    pub nfb: i64,
    pub probe: Option<ProbeModel>,
}

/// The role of a message's normalized words.
pub open spec fn role_of(ws: Seq<Seq<char>>, target: Seq<char>, mycall: Option<Seq<char>>) -> MessageRole {
    MessageRole {
        contains_target: names_some_word(ws, target),
        target_sender: target_sends(ws, target),
        target_recipient: target_receives(ws, target),
        contains_mycall: match mycall {
            Some(m) => names_some_word(ws, m),
            None => false,
        },
    }
}

/// How sure a row makes the chase of the target's frequency.
pub open spec fn row_confidence(role: MessageRole, hound: bool, listen: bool) -> u8 {
    if role.target_sender {
        10
    } else if role.target_recipient && !hound {
        5
    } else if role.contains_mycall && !hound {
        3
    } else if listen {
        2
    } else {
        1
    }
}

/// The parity the chase holds after a row: the slot's parity when the
/// target sent, the other one (inferred) when it was addressed and no
/// parity was held.
pub open spec fn parity_after(held: Option<TxParity>, role: MessageRole, nutc: u32) -> Option<TxParity> {
    let parity = ((nutc / 5) % 2) as usize;
    if role.target_sender {
        if parity_replaces(held, ParityConfidence::Observed, parity, nutc) {
            Some(TxParity { parity, confidence: ParityConfidence::Observed, last_seen_nutc: nutc })
        } else {
            held
        }
    } else if role.target_recipient && held is None {
        Some(
            TxParity {
                parity: (1 - parity) as usize,
                confidence: ParityConfidence::Inferred,
                last_seen_nutc: nutc,
            },
        )
    } else {
        held
    }
}

/// The store after one decoded row of a slot at `nutc`.
pub open spec fn harvest_row_model(m: StoreModel, nutc: u32, row: StreamDecodedMessage, listen: bool) -> StoreModel {
    let ws = normalized_words(row.msg@);
    let role = role_of(ws, m.target, m.mycall);
    if !role.contains_target && !role.contains_mycall {
        m
    } else {
        let verdict = probe_verdict(ws, role);
        let seed = role.target_sender || (!m.hound && (role.target_recipient || role.contains_mycall));
        StoreModel {
            frequencies: if seed {
                remembered(m.frequencies, row.freq_mhz, row_confidence(role, m.hound, listen), nutc, false, m.nfa, m.nfb)
            } else {
                m.frequencies
            },
            tx_parity: parity_after(m.tx_parity, role, nutc),
            hisgrid: if role.target_sender && last_grid(ws) is Some {
                last_grid(ws)
            } else {
                m.hisgrid
            },
            dt_ms: if role.target_sender {
                Some(row.dt_ms)
            } else {
                m.dt_ms
            },
            probe: Some(ProbeModel { last_message: join(ws), progress: verdict.0, reason: verdict.1 }),
            ..m
        }
    }
}

/// The store after the rows of a slot, taken in order.
pub open spec fn harvest_rows_model(m: StoreModel, nutc: u32, rows: Seq<StreamDecodedMessage>, listen: bool) -> StoreModel
    decreases rows.len(),
{
    if rows.len() == 0 {
        m
    } else {
        harvest_row_model(harvest_rows_model(m, nutc, rows.drop_last(), listen), nutc, rows.last(), listen)
    }
}

/// The store after a slot: its rows, then the frequencies aged.
pub open spec fn after_slot(m: StoreModel, nutc: u32, rows: Seq<StreamDecodedMessage>, listen: bool) -> StoreModel {
    let h = harvest_rows_model(m, nutc, rows, listen);
    StoreModel { frequencies: aged(h.frequencies, nutc), ..h }
}

/// A row the target sent that reports a grid other than the one the chase
/// holds for it.
pub open spec fn grid_contradiction(hisgrid: Option<Seq<char>>, ws: Seq<Seq<char>>, target: Seq<char>) -> bool {
    match hisgrid {
        None => false,
        Some(h) => target_sends(ws, target) && exists|i: int| 0 <= i < ws.len() && grid4_word(#[trigger] ws[i]) && ws[i] != h,
    }
}

/// The memory of the chase about its target.
pub struct TargetContextStore {
    target: DxTarget,
    mycall: Option<DxTarget>,
    frequencies: Vec<FrequencyCandidate>,
    tx_parity: Option<TxParity>,
    hisgrid: Option<String>,
    dt_ms: Option<i64>,
    low_band_prior: bool,
    hound: bool,
    nfa: i64,
    nfb: i64,
    crc_budget: DeepCrcBudget,
    deep_diagnostics: DeepStackDiagnostics,
    qso_progress_probe: Option<QsoProgressProbe>,
}

impl View for TargetContextStore {
    type V = StoreModel;

    closed spec fn view(&self) -> StoreModel {
        StoreModel {
            target: self.target.call_spec(),
            mycall: match self.mycall {
                Some(m) => Some(m.call_spec()),
                None => None,
            },
            frequencies: self.frequencies@,
            tx_parity: self.tx_parity,
            hisgrid: match self.hisgrid {
                Some(g) => Some(g@),
                None => None,
            },
            dt_ms: self.dt_ms,
            hound: self.hound,
            nfa: self.nfa,
            nfb: self.nfb,
            probe: match self.qso_progress_probe {
                Some(p) => Some(ProbeModel { last_message: p.last_message@, progress: p.inferred_progress, reason: p.reason }),
                None => None,
            },
        }
    }
}

impl TargetContextStore {
    /// What every store keeps: remembered frequencies in the passband and
    /// seen at real times, a parity seen at a real time, bounded band edges,
    /// the low-band preference on, and a CRC budget within its limit.
    pub closed spec fn wf(&self) -> bool {
        &&& candidates_ok(self.frequencies@, self.nfa, self.nfb)
        &&& (self.tx_parity matches Some(p) ==> valid_time(p.last_seen_nutc))
        &&& -FREQ_LIMIT_MHZ <= self.nfa
        &&& self.nfb <= FREQ_LIMIT_MHZ
        &&& self.low_band_prior
        &&& self.crc_budget.used <= MAX_DEEP_CRC_DECODE_PER_SLOT
    }

    /// A store for `target`, seeded with the user's frequency when it is
    /// positive (pinned, seen at midnight).
    pub fn new(
        target: DxTarget,
        mycall: Option<&str>,
        seed_frequency_mhz: i64,
        hisgrid: Option<&str>,
        hound: bool,
        nfa_mhz: i64,
        nfb_mhz: i64,
    ) -> (s: TargetContextStore)
        requires
            -FREQ_LIMIT_MHZ <= nfa_mhz,
            nfb_mhz <= FREQ_LIMIT_MHZ,
        ensures
            s.wf(),
            s@.target == target.call_spec(),
            s@.mycall == match mycall {
                Some(m) => Some(normalize_call_spec(m@)),
                None => None,
            },
            s@.frequencies == if seed_frequency_mhz > 0 {
                remembered(Seq::empty(), seed_frequency_mhz, 8, 0, true, nfa_mhz, nfb_mhz)
            } else {
                Seq::empty()
            },
            s@.tx_parity is None,
            s@.hisgrid == match hisgrid {
                Some(g) => Some(upper(trim(g@))),
                None => None,
            },
            s@.dt_ms is None,
            s@.hound == hound,
            s@.nfa == nfa_mhz,
            s@.nfb == nfb_mhz,
            s@.probe is None,
            s.crc_budget_spec() == (DeepCrcBudget { nutc: None, used: 0 }),
            s.diagnostics_spec() == (DeepStackDiagnostics { crc_candidates: 0, crc_attempts: 0, crc_skipped_budget: 0 }),
    {
        let my = match mycall {
            Some(m) => Some(DxTarget::new(m)),
            None => None,
        };
        let grid = match hisgrid {
            Some(g) => {
                let cs = chars_of(g);
                let t = trim_chars(&cs);
                let u = upper_chars(&t);
                Some(string_of(&u))
            },
            None => None,
        };
        let mut frequencies: Vec<FrequencyCandidate> = Vec::new();
        if seed_frequency_mhz > 0 {
            remember_frequency(&mut frequencies, seed_frequency_mhz, 8, 0, true, nfa_mhz, nfb_mhz);
            proof {
                assert(crate::dx_foci::first_in_window(Seq::<FrequencyCandidate>::empty(), seed_frequency_mhz, 0) is None);
                assert(crate::dx_context::seconds_of(0) == 0);
            }
        }
        TargetContextStore {
            target,
            mycall: my,
            frequencies,
            tx_parity: None,
            hisgrid: grid,
            dt_ms: None,
            low_band_prior: true,
            hound,
            nfa: nfa_mhz,
            nfb: nfb_mhz,
            crc_budget: DeepCrcBudget::new(),
            deep_diagnostics: DeepStackDiagnostics { crc_candidates: 0, crc_attempts: 0, crc_skipped_budget: 0 },
            qso_progress_probe: None,
        }
    }

    pub fn tx_parity(&self) -> (r: Option<TxParity>)
        ensures
            r == self@.tx_parity,
    {
        self.tx_parity
    }

    /// Whether the focused pass should run on this slot.
    pub fn should_run_focused(&self, timestamp: &SlotTimestamp) -> (r: bool)
        requires
            self.wf(),
            valid_time(timestamp.nutc),
        ensures
            r == runs_focused(self@.tx_parity, *timestamp),
    {
        should_run_focused(self.tx_parity, timestamp)
    }

    /// The focus frequencies of the next slot: the Fox grid of a Hound that
    /// knows two Fox streams, else the remembered frequencies in sort order,
    /// one per window, at most five. Whatever the store heard, there are at
    /// most five: the grid steps 60 Hz up from the lowest Fox stream, and
    /// otherwise each focus lies in the passband, no two in one 25 Hz window.
    pub fn selected_foci(&self) -> (r: Vec<i64>)
        requires
            self.wf(),
        ensures
            match fox_grid(self@.frequencies, self@.hound, self@.nfb) {
                Some(g) => r@ == g,
                None => is_greedy_foci(self@.frequencies, true, r@),
            },
            r@.len() <= 5,
            fox_grid(self@.frequencies, self@.hound, self@.nfb) is Some ==> r@.len() >= 1 && forall|k: int|
                0 <= k < r@.len() ==> #[trigger] r@[k] == lowest(self@.frequencies) + 60_000 * k,
            fox_grid(self@.frequencies, self@.hound, self@.nfb) is None ==> {
                &&& forall|k: int| 0 <= k < r@.len() ==> self@.nfa <= #[trigger] r@[k] <= self@.nfb
                &&& forall|i: int, j: int| 0 <= i < j < r@.len() ==> !same_window(#[trigger] r@[i], #[trigger] r@[j])
            },
    {
        let r = match fox_multistream_foci(&self.frequencies, self.hound, self.nfa, self.nfb) {
            Some(grid) => grid,
            None => greedy_foci(&self.frequencies, self.low_band_prior),
        };
        proof {
            lemma_foci_shape(self.frequencies@, self.hound, self.nfa, self.nfb, true, r@);
        }
        r
    }

    pub fn hisgrid(&self) -> (r: Option<String>)
        ensures
            match r {
                Some(g) => self@.hisgrid == Some(g@),
                None => self@.hisgrid is None,
            },
    {
        match &self.hisgrid {
            Some(g) => Some(g.clone()),
            None => None,
        }
    }

    pub fn target_dt(&self) -> (r: Option<i64>)
        ensures
            r == self@.dt_ms,
    {
        self.dt_ms
    }

    /// The QSO progress the last probe inferred.
    pub fn qso_progress(&self) -> (r: Option<usize>)
        ensures
            r == match self@.probe {
                Some(p) => p.progress,
                None => None,
            },
    {
        match &self.qso_progress_probe {
            Some(p) => p.inferred_progress,
            None => None,
        }
    }

    /// Whether a row of the target may be shown: it names the target and
    /// does not contradict the grid held for it.
    pub fn should_emit_target_row(&self, row: &StreamDecodedMessage) -> (r: bool)
        ensures
            r == (message_names(self@.target, row.msg@) && !grid_contradiction(
                self@.hisgrid,
                normalized_words(row.msg@),
                self@.target,
            )),
    {
        if !self.target.matches_message(row.msg.as_str()) {
            return false;
        }
        !self.has_hard_grid_contradiction(row)
    }

    fn has_hard_grid_contradiction(&self, row: &StreamDecodedMessage) -> (r: bool)
        ensures
            r == grid_contradiction(self@.hisgrid, normalized_words(row.msg@), self@.target),
    {
        let h = match &self.hisgrid {
            Some(h) => h,
            None => {
                return false;
            },
        };
        let hc = chars_of(h.as_str());
        let words = message_words(row.msg.as_str());
        if !crate::dx_context::is_target_sender(&words, &self.target) {
            return false;
        }
        let mut i: usize = 0;
        while i < words.len()
            invariant
                i <= words@.len(),
                hc@ == h@,
                self@.hisgrid == Some(hc@),
                target_sends(wv(words@), self@.target),
                wv(words@) == normalized_words(row.msg@),
                forall|k: int| 0 <= k < i ==> !(grid4_word(#[trigger] wv(words@)[k]) && wv(words@)[k] != hc@),
            decreases words@.len() - i,
        {
            if is_grid4(&words[i]) && !crate::text::eq_chars(&words[i], &hc) {
                assert(grid4_word(wv(words@)[i as int]) && wv(words@)[i as int] != hc@);
                return true;
            }
            i = i + 1;
        }
        false
    }

    fn harvest_row(&mut self, timestamp: &SlotTimestamp, row: &StreamDecodedMessage, listen: bool)
        requires
            old(self).wf(),
            valid_time(timestamp.nutc),
        ensures
            final(self).wf(),
            final(self)@ == harvest_row_model(old(self)@, timestamp.nutc, *row, listen),
            final(self).crc_budget == old(self).crc_budget,
            final(self).deep_diagnostics == old(self).deep_diagnostics,
    {
        let role = match &self.mycall {
            Some(m) => MessageRole::from_message(row.msg.as_str(), &self.target, Some(m)),
            None => MessageRole::from_message(row.msg.as_str(), &self.target, None),
        };
        proof {
            assert(role == role_of(normalized_words(row.msg@), self@.target, self@.mycall));
        }
        if !role.contains_target && !role.contains_mycall {
            return;
        }
        self.qso_progress_probe = Some(observe_qso_progress(row.msg.as_str(), role));
        let parity = slot_parity(timestamp);
        if role.target_sender {
            self.tx_parity = set_tx_parity(self.tx_parity, parity, ParityConfidence::Observed, timestamp.nutc);
            match harvest_grid(row.msg.as_str()) {
                Some(g) => {
                    self.hisgrid = Some(g);
                },
                None => {},
            }
            self.dt_ms = Some(row.dt_ms);
        } else if role.target_recipient && self.tx_parity.is_none() {
            self.tx_parity = set_tx_parity(self.tx_parity, 1 - parity, ParityConfidence::Inferred, timestamp.nutc);
        }
        let confidence: u8 = if role.target_sender {
            10
        } else if role.target_recipient && !self.hound {
            5
        } else if role.contains_mycall && !self.hound {
            3
        } else if listen {
            2
        } else {
            1
        };
        let seed = role.target_sender || (!self.hound && (role.target_recipient || role.contains_mycall));
        if seed {
            remember_frequency(&mut self.frequencies, row.freq_mhz, confidence, timestamp.nutc, false, self.nfa, self.nfb);
        }
        proof {
            let c0 = old(self).frequencies@;
            let c1 = self.frequencies@;
            if seed && self.nfa <= row.freq_mhz <= self.nfb {
                crate::dx_foci::lemma_first_in_window_bounds(c0, row.freq_mhz, c0.len() as int);
                match crate::dx_foci::first_in_window(c0, row.freq_mhz, c0.len() as int) {
                    Some(j) => {
                        assert forall|i: int| 0 <= i < c1.len() implies self.nfa <= #[trigger] c1[i].freq_mhz <= self.nfb
                            && valid_time(c1[i].last_seen_nutc) by {
                            if i != j {
                                assert(c1[i] == c0[i]);
                                assert(self.nfa <= c0[i].freq_mhz <= self.nfb);
                            } else {
                                assert(self.nfa <= c0[j].freq_mhz <= self.nfb);
                            }
                        }
                    },
                    None => {
                        assert forall|i: int| 0 <= i < c1.len() implies self.nfa <= #[trigger] c1[i].freq_mhz <= self.nfb
                            && valid_time(c1[i].last_seen_nutc) by {
                            if i < c0.len() {
                                assert(c1[i] == c0[i]);
                                assert(self.nfa <= c0[i].freq_mhz <= self.nfb);
                            }
                        }
                    },
                }
            }
        }
    }

    fn harvest(&mut self, timestamp: &SlotTimestamp, rows: &[StreamDecodedMessage], listen: bool)
        requires
            old(self).wf(),
            valid_time(timestamp.nutc),
        ensures
            final(self).wf(),
            final(self)@ == after_slot(old(self)@, timestamp.nutc, rows@, listen),
            final(self).crc_budget == old(self).crc_budget,
            final(self).deep_diagnostics == old(self).deep_diagnostics,
    {
        let mut i: usize = 0;
        while i < rows.len()
            invariant
                i <= rows@.len(),
                self.wf(),
                valid_time(timestamp.nutc),
                self@ == harvest_rows_model(old(self)@, timestamp.nutc, rows@.subrange(0, i as int), listen),
                self.crc_budget == old(self).crc_budget,
                self.deep_diagnostics == old(self).deep_diagnostics,
            decreases rows@.len() - i,
        {
            proof {
                assert(rows@.subrange(0, i + 1).drop_last() =~= rows@.subrange(0, i as int));
                assert(rows@.subrange(0, i + 1).last() == rows@[i as int]);
            }
            self.harvest_row(timestamp, &rows[i], listen);
            i = i + 1;
        }
        proof {
            assert(rows@.subrange(0, rows@.len() as int) =~= rows@);
        }
        let ghost before = self.frequencies@;
        proof {
            assert forall|k: int| 0 <= k < before.len() implies valid_time(#[trigger] before[k].last_seen_nutc) by {
                assert(self.nfa <= before[k].freq_mhz <= self.nfb);
            }
        }
        age_frequencies(&mut self.frequencies, timestamp.nutc);
        proof {
            crate::dx_foci::lemma_aged_keeps(before, timestamp.nutc);
            let a = self.frequencies@;
            assert forall|i: int| 0 <= i < a.len() implies self.nfa <= #[trigger] a[i].freq_mhz <= self.nfb
                && valid_time(a[i].last_seen_nutc) by {
                assert(before.contains(a[i]));
                let k = choose|k: int| 0 <= k < before.len() && before[k] == a[i];
                assert(self.nfa <= before[k].freq_mhz <= self.nfb);
            }
        }
    }

    /// Takes in the rows of the always-on listen pass of a slot.
    pub fn harvest_listen(&mut self, timestamp: &SlotTimestamp, rows: &[StreamDecodedMessage])
        requires
            old(self).wf(),
            valid_time(timestamp.nutc),
        ensures
            final(self).wf(),
            final(self)@ == after_slot(old(self)@, timestamp.nutc, rows@, true),
            final(self).crc_budget_spec() == old(self).crc_budget_spec(),
            final(self).diagnostics_spec() == old(self).diagnostics_spec(),
    {
        self.harvest(timestamp, rows, true);
    }

    /// Takes in the rows of the focused passes of a slot.
    pub fn harvest_focused(&mut self, timestamp: &SlotTimestamp, rows: &[StreamDecodedMessage])
        requires
            old(self).wf(),
            valid_time(timestamp.nutc),
        ensures
            final(self).wf(),
            final(self)@ == after_slot(old(self)@, timestamp.nutc, rows@, false),
            final(self).crc_budget_spec() == old(self).crc_budget_spec(),
            final(self).diagnostics_spec() == old(self).diagnostics_spec(),
    {
        self.harvest(timestamp, rows, false);
    }

    /// Takes one stacked CRC decode from the budget of slot `nutc`.
    pub fn take_deep_crc_decode_budget(&mut self, nutc: u32) -> (r: bool)
        requires
            old(self).wf(),
        ensures
            final(self).wf(),
            final(self)@ == old(self)@,
            r == (if old(self).crc_used_in(nutc) < MAX_DEEP_CRC_DECODE_PER_SLOT { true } else { false }),
            final(self).crc_budget_spec() == (DeepCrcBudget {
                nutc: Some(nutc),
                used: (if r { old(self).crc_used_in(nutc) + 1 } else { old(self).crc_used_in(nutc) }) as usize,
            }),
            final(self).diagnostics_spec() == old(self).diagnostics_spec(),
    {
        self.crc_budget.take(nutc)
    }

    /// The stacked decodes granted in the slot the budget last served.
    pub fn deep_crc_budget_used(&self) -> (n: usize)
        ensures
            n == self.crc_budget_spec().used,
    {
        self.crc_budget.used
    }

    /// The budget of stacked decodes: the slot it last served and how many
    /// it granted there.
    pub closed spec fn crc_budget_spec(&self) -> DeepCrcBudget {
        self.crc_budget
    }

    /// The stacked decodes of slot `nutc` already granted.
    pub open spec fn crc_used_in(&self, nutc: u32) -> int {
        self.crc_budget_spec().used_in(nutc)
    }

    pub fn deep_diagnostics(&self) -> (r: DeepStackDiagnostics)
        ensures
            r == self.diagnostics_spec(),
    {
        self.deep_diagnostics
    }

    pub closed spec fn diagnostics_spec(&self) -> DeepStackDiagnostics {
        self.deep_diagnostics
    }
}

/// Every frequency the chase remembers lies in the passband, whatever rows
/// it was given: a seed or a row outside the band is never kept.
pub proof fn lemma_frequencies_in_passband(s: TargetContextStore)
    requires
        s.wf(),
    ensures
        forall|i: int| 0 <= i < s@.frequencies.len() ==> s@.nfa <= #[trigger] s@.frequencies[i].freq_mhz <= s@.nfb,
{
}

/// A row is shown for the target: the store lets it through and no row
/// already shown is the same signal.
pub open spec fn row_is_new(context: &TargetContextStore, emitted: Seq<StreamDecodedMessage>, decode: StreamDecodedMessage) -> bool {
    &&& message_names(context@.target, decode.msg@)
    &&& !grid_contradiction(context@.hisgrid, normalized_words(decode.msg@), context@.target)
    &&& !exists|i: int| 0 <= i < emitted.len() && crate::hybrid::same_signal(#[trigger] emitted[i], decode)
}

/// Shows a row of the target once: it is added to the rows shown when it
/// is new for the target.
pub fn emit_target_row(
    context: &TargetContextStore,
    emitted: &mut Vec<StreamDecodedMessage>,
    decode: &StreamDecodedMessage,
) -> (r: bool)
    ensures
        r == row_is_new(context, old(emitted)@, *decode),
        final(emitted)@ == if r {
            old(emitted)@.push(*decode)
        } else {
            old(emitted)@
        },
{
    if !context.should_emit_target_row(decode) {
        return false;
    }
    let mut i: usize = 0;
    while i < emitted.len()
        invariant
            i <= emitted@.len(),
            emitted@ == old(emitted)@,
            forall|j: int| 0 <= j < i ==> !crate::hybrid::same_signal(#[trigger] emitted@[j], *decode),
        decreases emitted@.len() - i,
    {
        if crate::hybrid::is_same_signal(&emitted[i], decode) {
            return false;
        }
        i = i + 1;
    }
    emitted.push(decode.clone());
    true
}


/// The SNR a deep row shows when its hit has no estimate.
pub const DX_DEEP_SNR_UNAVAILABLE: i32 = -99;

/// Decibels from thousandths of a decibel, rounded half away from zero and
/// held to the `i32` range.
pub open spec fn db_of_milli(s: i64) -> i32 {
    let r: int = if s >= 0 { (s + 500) / 1000 } else { -((-s + 500) / 1000) };
    if r > i32::MAX { i32::MAX } else if r < i32::MIN { i32::MIN } else { r as i32 }
}

/// The row a deep hit shows as, with the tones `tones`.
pub open spec fn deep_row(hit: DeepHit, tones: [i32; 79]) -> StreamDecodedMessage {
    StreamDecodedMessage {
        freq_mhz: hit.freq_mhz,
        dt_ms: hit.dt_ms,
        snr: match hit.snr_milli {
            Some(s) => db_of_milli(s),
            None => DX_DEEP_SNR_UNAVAILABLE,
        },
        msg: hit.msg,
        sync_milli: hit.stat_milli,
        itone: tones,
    }
}

/// `row` is the row of `hit`: its place, SNR, message and statistic, and
/// no tones (all zero).
pub open spec fn is_deep_row(hit: DeepHit, row: StreamDecodedMessage) -> bool {
    row == deep_row(hit, row.itone) && row.itone@ == Seq::new(79, |i: int| 0i32)
}

/// The row a deep hit shows as: where it was, its estimated SNR or the
/// mark of none, and its message.
pub fn deep_hit_to_row(hit: &DeepHit) -> (row: StreamDecodedMessage)
    ensures
        is_deep_row(*hit, row),
{
    let snr: i32 = match hit.snr_milli {
        Some(s) => {
            let w = s as i128;
            let r: i128 = if w >= 0 { (w + 500) / 1000 } else { -((-w + 500) / 1000) };
            if r > i32::MAX as i128 {
                i32::MAX
            } else if r < i32::MIN as i128 {
                i32::MIN
            } else {
                r as i32
            }
        },
        None => DX_DEEP_SNR_UNAVAILABLE,
    };
    let itone = [0i32; 79];
    let row = StreamDecodedMessage { freq_mhz: hit.freq_mhz, dt_ms: hit.dt_ms, snr, msg: hit.msg.clone(), sync_milli: hit.stat_milli, itone };
    assert(row.itone@ =~= Seq::new(79, |i: int| 0i32));
    row
}

/// The rows shown, the target's rows kept for the store, and the count of
/// deep rows shown, after the rows of the deep hits are offered in order.
pub open spec fn emit_deep(
    context: &TargetContextStore,
    target: Seq<char>,
    emitted: Seq<StreamDecodedMessage>,
    focused: Seq<StreamDecodedMessage>,
    rows: Seq<StreamDecodedMessage>,
) -> (Seq<StreamDecodedMessage>, Seq<StreamDecodedMessage>, int)
    decreases rows.len(),
{
    if rows.len() == 0 {
        (emitted, focused, 0)
    } else {
        let (e, f, n) = emit_deep(context, target, emitted, focused, rows.drop_last());
        let row = rows.last();
        if row_is_new(context, e, row) {
            (e.push(row), if message_names(target, row.msg@) { f.push(row) } else { f }, n + 1)
        } else {
            (e, f, n)
        }
    }
}

/// Shows the deep hits as rows when deep output is on: each new row of the
/// target is shown once, and the shown rows that name the target are kept
/// for the store. Returns how many rows it showed.
pub fn emit_deep_hits_if_enabled(
    output_enabled: bool,
    context: &TargetContextStore,
    target: &DxTarget,
    emitted: &mut Vec<StreamDecodedMessage>,
    focused_target_rows: &mut Vec<StreamDecodedMessage>,
    deep_hits: &[DeepHit],
) -> (n: usize)
    ensures
        !output_enabled ==> n == 0 && final(emitted)@ == old(emitted)@ && final(focused_target_rows)@ == old(focused_target_rows)@,
        output_enabled ==> exists|rows: Seq<StreamDecodedMessage>|
            #![trigger emit_deep(context, target.call_spec(), old(emitted)@, old(focused_target_rows)@, rows)]
            {
                &&& rows.len() == deep_hits@.len()
                &&& forall|i: int| 0 <= i < rows.len() ==> is_deep_row(deep_hits@[i], #[trigger] rows[i])
                &&& final(emitted)@ == emit_deep(context, target.call_spec(), old(emitted)@, old(focused_target_rows)@, rows).0
                &&& final(focused_target_rows)@ == emit_deep(context, target.call_spec(), old(emitted)@, old(focused_target_rows)@, rows).1
                &&& n == emit_deep(context, target.call_spec(), old(emitted)@, old(focused_target_rows)@, rows).2
            },
{
    if !output_enabled {
        return 0;
    }
    let mut count: usize = 0;
    let mut i: usize = 0;
    let ghost mut rows: Seq<StreamDecodedMessage> = Seq::empty();
    while i < deep_hits.len()
        invariant
            i <= deep_hits@.len(),
            count <= i,
            rows.len() == i,
            forall|q: int| 0 <= q < rows.len() ==> is_deep_row(deep_hits@[q], #[trigger] rows[q]),
            ({
                let (e, f, k) = emit_deep(context, target.call_spec(), old(emitted)@, old(focused_target_rows)@, rows);
                &&& emitted@ == e
                &&& focused_target_rows@ == f
                &&& count == k
            }),
        decreases deep_hits@.len() - i,
    {
        let row = deep_hit_to_row(&deep_hits[i]);
        let ghost before = rows;
        proof {
            rows = rows.push(row);
            assert(rows.drop_last() =~= before);
            assert(rows.last() == row);
        }
        let shown = emit_target_row(context, emitted, &row);
        if shown {
            count = count + 1;
            if target.matches_message(row.msg.as_str()) {
                focused_target_rows.push(row);
            }
        }
        i = i + 1;
    }
    assert(rows.len() == deep_hits@.len());
    assert(emitted@ == emit_deep(context, target.call_spec(), old(emitted)@, old(focused_target_rows)@, rows).0);
    count
}

} // verus!
