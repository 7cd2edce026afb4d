//! Counters of the DX chase and the text of its per-slot diagnostics line.
use vstd::prelude::*;
use crate::dx_context::{DeepStackDiagnostics, SlotTimestamp};
use crate::text::{chars_of, string_of, trim, trim_chars, upper, upper_chars};

verus! {

/// How much search the DX chase has done: the denominators of its false
/// alarm rate.
#[derive(Clone, Copy, Debug, Default, PartialEq, Eq, Structural)]
pub struct DxExposure {
    pub slots: usize,
    pub focus_trials: usize,
    pub field_trials: usize,
    pub hypothesis_trials: usize,
    pub stack_osd_candidates: usize,
    pub stack_osd_attempts: usize,
    pub stack_osd_skipped_budget: usize,
    pub deep_rows_emitted: usize,
}

/// The counters of `a` and `b` added field by field, as integers.
pub open spec fn exposure_sum(a: DxExposure, b: DxExposure) -> (int, int, int, int, int, int, int, int) {
    (
        a.slots + b.slots,
        a.focus_trials + b.focus_trials,
        a.field_trials + b.field_trials,
        a.hypothesis_trials + b.hypothesis_trials,
        a.stack_osd_candidates + b.stack_osd_candidates,
        a.stack_osd_attempts + b.stack_osd_attempts,
        a.stack_osd_skipped_budget + b.stack_osd_skipped_budget,
        a.deep_rows_emitted + b.deep_rows_emitted,
    )
}

/// The counters of `e` as a tuple of integers.
pub open spec fn exposure_counts(e: DxExposure) -> (int, int, int, int, int, int, int, int) {
    (
        e.slots as int,
        e.focus_trials as int,
        e.field_trials as int,
        e.hypothesis_trials as int,
        e.stack_osd_candidates as int,
        e.stack_osd_attempts as int,
        e.stack_osd_skipped_budget as int,
        e.deep_rows_emitted as int,
    )
}

/// Every field of the sum fits in a `usize`.
pub open spec fn exposure_sum_fits(a: DxExposure, b: DxExposure) -> bool {
    &&& a.slots + b.slots <= usize::MAX
    &&& a.focus_trials + b.focus_trials <= usize::MAX
    &&& a.field_trials + b.field_trials <= usize::MAX
    &&& a.hypothesis_trials + b.hypothesis_trials <= usize::MAX
    &&& a.stack_osd_candidates + b.stack_osd_candidates <= usize::MAX
    &&& a.stack_osd_attempts + b.stack_osd_attempts <= usize::MAX
    &&& a.stack_osd_skipped_budget + b.stack_osd_skipped_budget <= usize::MAX
    &&& a.deep_rows_emitted + b.deep_rows_emitted <= usize::MAX
}

impl DxExposure {
    /// Adds the counters of `other` to these.
    pub fn accumulate(&mut self, other: Self)
        requires
            exposure_sum_fits(*old(self), other),
        ensures
            exposure_counts(*final(self)) == exposure_sum(*old(self), other),
    {
        self.slots = self.slots + other.slots;
        self.focus_trials = self.focus_trials + other.focus_trials;
        self.field_trials = self.field_trials + other.field_trials;
        self.hypothesis_trials = self.hypothesis_trials + other.hypothesis_trials;
        self.stack_osd_candidates = self.stack_osd_candidates + other.stack_osd_candidates;
        self.stack_osd_attempts = self.stack_osd_attempts + other.stack_osd_attempts;
        self.stack_osd_skipped_budget = self.stack_osd_skipped_budget
            + other.stack_osd_skipped_budget;
        self.deep_rows_emitted = self.deep_rows_emitted + other.deep_rows_emitted;
    }
}

/// Accumulating exposures does not depend on their order: `a` then `b`
/// gives the counters that `b` then `a` gives, and accumulating the zero
/// exposure changes nothing.
pub proof fn lemma_accumulate_order_free(a: DxExposure, b: DxExposure)
    ensures
        exposure_sum(a, b) == exposure_sum(b, a),
        exposure_sum(a, DxExposure {
            slots: 0,
            focus_trials: 0,
            field_trials: 0,
            hypothesis_trials: 0,
            stack_osd_candidates: 0,
            stack_osd_attempts: 0,
            stack_osd_skipped_budget: 0,
            deep_rows_emitted: 0,
        }) == exposure_counts(a),
{
}

/// The counts of one slot's deep search, for the diagnostics line.
#[derive(Clone, Copy, Debug, Default, PartialEq, Eq, Structural)]
pub struct DxSlotDeepReport {
    pub foci: usize,
    pub fields: usize,
    pub hits: usize,
    pub emitted: usize,
    pub crc_candidates: usize,
    pub crc_attempts: usize,
    pub crc_skipped_budget: usize,
}

/// `a - b`, or zero when `b` is larger.
pub open spec fn sat_sub(a: usize, b: usize) -> usize {
    if a >= b {
        (a - b) as usize
    } else {
        0
    }
}

/// What one slot of the chase adds to its exposure, and the slot's deep
/// report: one slot, its foci, its fields and the hypotheses tried on each,
/// the stacked decodes the slot's diagnostics grew by, and the deep rows it
/// emitted.
pub fn slot_deep_accounting(
    foci: usize,
    fields: usize,
    hypotheses: usize,
    hits: usize,
    emitted: usize,
    before: DeepStackDiagnostics,
    after: DeepStackDiagnostics,
) -> (r: (DxExposure, DxSlotDeepReport))
    requires
        fields * hypotheses <= usize::MAX,
    ensures
        r.0 == (DxExposure {
            slots: 1,
            focus_trials: foci,
            field_trials: fields,
            hypothesis_trials: (fields * hypotheses) as usize,
            stack_osd_candidates: sat_sub(after.crc_candidates, before.crc_candidates),
            stack_osd_attempts: sat_sub(after.crc_attempts, before.crc_attempts),
            stack_osd_skipped_budget: sat_sub(after.crc_skipped_budget, before.crc_skipped_budget),
            deep_rows_emitted: emitted,
        }),
        r.1 == (DxSlotDeepReport {
            foci,
            fields,
            hits,
            emitted,
            crc_candidates: sat_sub(after.crc_candidates, before.crc_candidates),
            crc_attempts: sat_sub(after.crc_attempts, before.crc_attempts),
            crc_skipped_budget: sat_sub(after.crc_skipped_budget, before.crc_skipped_budget),
        }),
{
    let crc_candidates = after.crc_candidates.saturating_sub(before.crc_candidates);
    let crc_attempts = after.crc_attempts.saturating_sub(before.crc_attempts);
    let crc_skipped_budget = after.crc_skipped_budget.saturating_sub(before.crc_skipped_budget);
    let exposure = DxExposure {
        slots: 1,
        focus_trials: foci,
        field_trials: fields,
        hypothesis_trials: fields * hypotheses,
        stack_osd_candidates: crc_candidates,
        stack_osd_attempts: crc_attempts,
        stack_osd_skipped_budget: crc_skipped_budget,
        deep_rows_emitted: emitted,
    };
    let report = DxSlotDeepReport { foci, fields, hits, emitted, crc_candidates, crc_attempts, crc_skipped_budget };
    (exposure, report)
}

pub open spec fn digit_char(d: nat) -> char {
    if d == 0 {
        '0'
    } else if d == 1 {
        '1'
    } else if d == 2 {
        '2'
    } else if d == 3 {
        '3'
    } else if d == 4 {
        '4'
    } else if d == 5 {
        '5'
    } else if d == 6 {
        '6'
    } else if d == 7 {
        '7'
    } else if d == 8 {
        '8'
    } else {
        '9'
    }
}

/// The decimal digits of `n`, without leading zeros.
pub open spec fn decimal(n: nat) -> Seq<char>
    decreases n,
{
    if n < 10 {
        seq![digit_char(n)]
    } else {
        decimal(n / 10).push(digit_char(n % 10))
    }
}

fn digit(d: usize) -> (c: char)
    requires
        d < 10,
    ensures
        c == digit_char(d as nat),
{
    if d == 0 {
        '0'
    } else if d == 1 {
        '1'
    } else if d == 2 {
        '2'
    } else if d == 3 {
        '3'
    } else if d == 4 {
        '4'
    } else if d == 5 {
        '5'
    } else if d == 6 {
        '6'
    } else if d == 7 {
        '7'
    } else if d == 8 {
        '8'
    } else {
        '9'
    }
}

/// Appends the decimal digits of `n`.
pub fn push_decimal(out: &mut Vec<char>, n: usize)
    ensures
        final(out)@ == old(out)@ + decimal(n as nat),
    decreases n,
{
    if n >= 10 {
        push_decimal(out, n / 10);
    }
    out.push(digit(n % 10));
    proof {
        if n < 10 {
            assert(n % 10 == n);
        }
    }
}

/// Appends every character of `s`.
pub fn push_all(out: &mut Vec<char>, s: &[char])
    ensures
        final(out)@ == old(out)@ + s@,
{
    let mut i: usize = 0;
    while i < s.len()
        invariant
            i <= s.len(),
            out@ == old(out)@ + s@.subrange(0, i as int),
        decreases s.len() - i,
    {
        out.push(s[i]);
        proof {
            assert(s@.subrange(0, i + 1) =~= s@.subrange(0, i as int).push(s@[i as int]));
        }
        i = i + 1;
    }
    proof {
        assert(s@.subrange(0, s.len() as int) =~= s@);
    }
}

/// Two decimal digits, with a leading zero below ten.
pub open spec fn two_digits(n: nat) -> Seq<char> {
    seq![digit_char((n / 10) % 10), digit_char(n % 10)]
}

/// The six-digit `HHMMSS` text of a slot time.
pub open spec fn slot_label(nutc: u32) -> Seq<char> {
    two_digits((nutc / 10000) as nat) + two_digits(((nutc / 100) % 100) as nat) + two_digits(
        (nutc % 100) as nat,
    )
}

impl SlotTimestamp {
    /// The slot's time as `HHMMSS`.
    pub fn label(&self) -> (r: Vec<char>)
        ensures
            r@ == slot_label(self.nutc),
    {
        let h = (self.nutc / 10000) as usize;
        let m = ((self.nutc / 100) % 100) as usize;
        let s = (self.nutc % 100) as usize;
        let mut r: Vec<char> = Vec::new();
        r.push(digit((h / 10) % 10));
        r.push(digit(h % 10));
        r.push(digit(m / 10));
        r.push(digit(m % 10));
        r.push(digit(s / 10));
        r.push(digit(s % 10));
        proof {
            assert(r@ =~= slot_label(self.nutc));
        }
        r
    }
}

/// The diagnostics line of one slot's deep search.
pub open spec fn deep_report_text(nutc: u32, r: DxSlotDeepReport) -> Seq<char> {
    "dx-deep "@ + slot_label(nutc) + ": foci="@ + decimal(r.foci as nat) + " fields="@ + decimal(
        r.fields as nat,
    ) + " hits="@ + decimal(r.hits as nat) + " emitted="@ + decimal(r.emitted as nat)
        + " crc_candidates="@ + decimal(r.crc_candidates as nat) + " crc_attempts="@ + decimal(
        r.crc_attempts as nat,
    ) + " crc_skipped="@ + decimal(r.crc_skipped_budget as nat)
}

fn push_str(out: &mut Vec<char>, s: &str)
    ensures
        final(out)@ == old(out)@ + s@,
{
    let cs = chars_of(s);
    push_all(out, &cs);
}

pub fn format_deep_report(timestamp: &SlotTimestamp, report: DxSlotDeepReport) -> (r: String)
    ensures
        r@ == deep_report_text(timestamp.nutc, report),
{
    let mut out: Vec<char> = Vec::new();
    push_str(&mut out, "dx-deep ");
    let label = timestamp.label();
    push_all(&mut out, &label);
    push_str(&mut out, ": foci=");
    push_decimal(&mut out, report.foci);
    push_str(&mut out, " fields=");
    push_decimal(&mut out, report.fields);
    push_str(&mut out, " hits=");
    push_decimal(&mut out, report.hits);
    push_str(&mut out, " emitted=");
    push_decimal(&mut out, report.emitted);
    push_str(&mut out, " crc_candidates=");
    push_decimal(&mut out, report.crc_candidates);
    push_str(&mut out, " crc_attempts=");
    push_decimal(&mut out, report.crc_attempts);
    push_str(&mut out, " crc_skipped=");
    push_decimal(&mut out, report.crc_skipped_budget);
    proof {
        assert(out@ =~= deep_report_text(timestamp.nutc, report));
    }
    string_of(&out)
}

/// The call of a seed list entry: trimmed and upper-cased.
pub open spec fn seed_call(call: Seq<char>) -> Seq<char> {
    upper(trim(call))
}

/// Appends the normalized call unless it is absent, empty, or listed.
pub fn push_normalized_call(calls: &mut Vec<String>, call: Option<&str>)
    ensures
        match call {
            None => final(calls)@ == old(calls)@,
            Some(c) => {
                let n = seed_call(c@);
                if n.len() == 0 || exists|i: int|
                    0 <= i < old(calls)@.len() && #[trigger] old(calls)@[i]@ == n {
                    final(calls)@ == old(calls)@
                } else {
                    final(calls)@.len() == old(calls)@.len() + 1 && final(calls)@.subrange(
                        0,
                        old(calls)@.len() as int,
                    ) == old(calls)@ && final(calls)@.last()@ == n
                }
            },
        },
{
    if call.is_none() {
        return;
    }
    let c = call.unwrap();
    let cs = chars_of(c);
    let t = trim_chars(&cs);
    if t.len() == 0 {
        return;
    }
    let u = upper_chars(&t);
    let s = string_of(&u);
    let mut i: usize = 0;
    while i < calls.len()
        invariant
            i <= calls@.len(),
            calls@ == old(calls)@,
            c@ == call.unwrap()@,
            s@ == seed_call(c@),
            forall|j: int| 0 <= j < i ==> #[trigger] calls@[j]@ != s@,
        decreases calls.len() - i,
    {
        if calls[i] == s {
            assert(calls@[i as int]@ == s@);
            return;
        }
        i = i + 1;
    }
    let ghost before = calls@;
    calls.push(s);
    proof {
        assert(calls@.subrange(0, before.len() as int) =~= before);
    }
}

/// The normalized call of an optional entry, when it is not empty.
pub open spec fn seed_of(call: Option<&str>) -> Option<Seq<char>> {
    match call {
        Some(c) => if seed_call(c@).len() > 0 {
            Some(seed_call(c@))
        } else {
            None
        },
        None => None,
    }
}

/// The calls the chase seeds the hash table with: the target's, then mine
/// unless it is the same.
pub fn dx_hash_seed_calls(hiscall: Option<&str>, mycall: Option<&str>) -> (r: Vec<String>)
    ensures
        r@.map_values(|s: String| s@) == match (seed_of(hiscall), seed_of(mycall)) {
            (Some(h), Some(m)) => if h == m {
                seq![h]
            } else {
                seq![h, m]
            },
            (Some(h), None) => seq![h],
            (None, Some(m)) => seq![m],
            (None, None) => Seq::empty(),
        },
{
    let mut calls: Vec<String> = Vec::new();
    push_normalized_call(&mut calls, hiscall);
    push_normalized_call(&mut calls, mycall);
    proof {
        assert(calls@.map_values(|s: String| s@) =~= match (seed_of(hiscall), seed_of(mycall)) {
            (Some(h), Some(m)) => if h == m {
                seq![h]
            } else {
                seq![h, m]
            },
            (Some(h), None) => seq![h],
            (None, Some(m)) => seq![m],
            (None, None) => Seq::empty(),
        });
    }
    calls
}

/// The switches of the deep search that the configuration carries.
#[derive(Clone, Copy, Debug, Default, PartialEq, Eq)]
pub struct DxDeepSwitches {
    pub dx_deep_experimental_output: bool,
    pub dx_deep_diagnostics: bool,
    pub dx_monitor_watchdog_ms: Option<u64>,
}

/// Deep rows reach the output only when the experimental switch is on.
pub fn dx_deep_output_enabled(config: &DxDeepSwitches) -> (r: bool)
    ensures
        r == config.dx_deep_experimental_output,
{
    config.dx_deep_experimental_output
}

/// The deep engine runs when its rows can be shown or its diagnostics are
/// asked for.
pub fn dx_deep_engine_enabled(config: &DxDeepSwitches) -> (r: bool)
    ensures
        r == (config.dx_deep_experimental_output || config.dx_deep_diagnostics),
{
    config.dx_deep_experimental_output || config.dx_deep_diagnostics
}

/// Whether the focused passes have run past the watchdog budget: never
/// without a budget, else once `elapsed_nanos` reaches it.
pub fn dx_focused_budget_expired(config: &DxDeepSwitches, elapsed_nanos: u128) -> (r: bool)
    ensures
        r == match config.dx_monitor_watchdog_ms {
            Some(ms) => elapsed_nanos >= ms * 1_000_000,
            None => false,
        },
{
    match config.dx_monitor_watchdog_ms {
        Some(ms) => elapsed_nanos >= (ms as u128) * 1_000_000,
        None => false,
    }
}

} // verus!
