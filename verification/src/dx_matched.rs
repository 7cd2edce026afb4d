//! The corroboration of matched-filter hits on the DX target: a hit is
//! reported only once the same message was matched in an earlier slot of
//! the same parity at the same place. Frequencies are in millihertz, times
//! in milliseconds, scores in thousandths.
use vstd::prelude::*;
use crate::dx_context::{seconds_of, slots_between_spec, SlotTimestamp};
use crate::dx_filter::normalized_words;
use crate::ft8b_plan::abs_diff;
use crate::text::join;

verus! {

/// How a deep hit was found.
#[derive(Clone, Copy, Debug, PartialEq, Eq, Structural)]
pub enum DeepConfidence {
    TwoSlotMatched,
    StackedLlrMatched,
    CrcConfirmedExperimental,
}

/// A hit of the deep search: the message, its matched-filter statistic and
/// margin over the next hypothesis, where it was, and its estimated SNR.
pub struct DeepHit {
    pub msg: String,
    pub stat_milli: i64,
    pub margin_milli: i64,
    pub freq_mhz: i64,
    pub dt_ms: i64,
    pub snr_milli: Option<i64>,
    pub conf: DeepConfidence,
}

/// How close two observations must be to be the same signal, and the
/// floor a symbol field must reach to be stacked.
#[derive(Clone, Copy, Debug, PartialEq, Eq)]
pub struct PhysicalAdmissionGate {
    pub freq_tolerance_mhz: i64,
    pub dt_tolerance_ms: i64,
    pub min_nsync: usize,
    pub min_syncavemax_milli: i64,
}

impl PhysicalAdmissionGate {
    /// The usual admission rule: within 3 Hz and 300 ms, at least 4 sync tones.
    pub fn new() -> (r: PhysicalAdmissionGate)
        ensures
            r == (PhysicalAdmissionGate { freq_tolerance_mhz: 3000, dt_tolerance_ms: 300, min_nsync: 4, min_syncavemax_milli: 0 }),
    {
        PhysicalAdmissionGate { freq_tolerance_mhz: 3000, dt_tolerance_ms: 300, min_nsync: 4, min_syncavemax_milli: 0 }
    }

    /// A field reaches the floor.
    pub fn passes_floor(&self, nsync: usize, syncavemax_milli: i64) -> (r: bool)
        ensures
            r == (nsync >= self.min_nsync && syncavemax_milli >= self.min_syncavemax_milli),
    {
        nsync >= self.min_nsync && syncavemax_milli >= self.min_syncavemax_milli
    }
}

/// A matched message seen in a slot.
pub struct MatchedObservation {
    pub msg_norm: String,
    pub parity: usize,
    pub freq_mhz: i64,
    pub dt_ms: i64,
    pub stat_milli: i64,
    pub margin_milli: i64,
    pub last_seen_nutc: u32,
}

/// An observation as plain values.
pub type ObsView = (Seq<char>, usize, i64, i64, i64, i64, u32);

/// A hit as plain values.
pub type HitView = (Seq<char>, i64, i64, i64, i64, Option<i64>, DeepConfidence);

pub open spec fn obs_view(o: MatchedObservation) -> ObsView {
    (o.msg_norm@, o.parity, o.freq_mhz, o.dt_ms, o.stat_milli, o.margin_milli, o.last_seen_nutc)
}

pub open spec fn obs_seq(v: Seq<MatchedObservation>) -> Seq<ObsView> {
    v.map_values(|o: MatchedObservation| obs_view(o))
}

pub open spec fn hit_view(h: DeepHit) -> HitView {
    (h.msg@, h.stat_milli, h.margin_milli, h.freq_mhz, h.dt_ms, h.snr_milli, h.conf)
}

/// The normalized text of a message.
pub open spec fn norm_of(msg: Seq<char>) -> Seq<char> {
    join(normalized_words(msg))
}

/// An earlier sighting backs the hit when its normalized message matches,
/// it shares the odd or even phase of the slot,
/// it was seen in a different slot,
/// and it lies within the frequency and time tolerances of the admission rule.
pub open spec fn corroborates(o: ObsView, hit: HitView, nutc: u32, parity: usize, gate: PhysicalAdmissionGate) -> bool {
    &&& o.0 == norm_of(hit.0)
    &&& o.1 == parity
    &&& o.6 != nutc
    &&& abs_diff(o.2 as int, hit.3 as int) <= gate.freq_tolerance_mhz
    &&& abs_diff(o.3 as int, hit.4 as int) <= gate.dt_tolerance_ms
}

pub open spec fn first_corroborated(obs: Seq<ObsView>, hit: HitView, nutc: u32, parity: usize, gate: PhysicalAdmissionGate) -> Option<int> {
    if exists|k: int| 0 <= k < obs.len() && corroborates(#[trigger] obs[k], hit, nutc, parity, gate) {
        Some(
            choose|k: int|
                0 <= k < obs.len() && corroborates(#[trigger] obs[k], hit, nutc, parity, gate) && forall|j: int|
                    0 <= j < k ==> !corroborates(#[trigger] obs[j], hit, nutc, parity, gate),
        )
    } else {
        None
    }
}

pub open spec fn min(a: i64, b: i64) -> i64 {
    if a <= b {
        a
    } else {
        b
    }
}

/// The sightings after a hit is observed in slot `nutc`, and what is
/// reported: only a two-slot matched hit counts; one that corroborates an
/// earlier sighting moves it here, keeps the weaker statistic and margin,
/// and is reported with them; any other is noted as a new sighting.
pub open spec fn observed(obs: Seq<ObsView>, hit: HitView, nutc: u32, gate: PhysicalAdmissionGate) -> (Seq<ObsView>, Option<HitView>) {
    let parity = ((nutc / 5) % 2) as usize;
    if hit.6 != DeepConfidence::TwoSlotMatched {
        (obs, None)
    } else {
        match first_corroborated(obs, hit, nutc, parity, gate) {
            Some(k) => {
                let o = obs[k];
                let stat = min(o.4, hit.1);
                let margin = min(o.5, hit.2);
                (
                    obs.update(k, (o.0, o.1, hit.3, hit.4, stat, margin, nutc)),
                    Some((hit.0, stat, margin, hit.3, hit.4, hit.5, DeepConfidence::TwoSlotMatched)),
                )
            },
            None => (obs.push((norm_of(hit.0), parity, hit.3, hit.4, hit.1, hit.2, nutc)), None),
        }
    }
}

/// The sightings still within 16 slots of `nutc`.
pub open spec fn recent(obs: Seq<ObsView>, nutc: u32) -> Seq<ObsView>
    decreases obs.len(),
{
    if obs.len() == 0 {
        obs
    } else if slots_between_spec(obs.last().6, nutc) <= 16 {
        recent(obs.drop_last(), nutc).push(obs.last())
    } else {
        recent(obs.drop_last(), nutc)
    }
}

/// A time of day `HHMMSS`.
pub open spec fn valid_time(nutc: u32) -> bool {
    seconds_of(nutc) < 86400
}

/// The matched sightings of a target.
pub struct MatchedObservations {
    pub observations: Vec<MatchedObservation>,
}

fn diff(a: i64, b: i64) -> (r: i128)
    ensures
        r == abs_diff(a as int, b as int),
{
    let d = a as i128 - b as i128;
    if d < 0 {
        -d
    } else {
        d
    }
}

fn copy_obs(o: &MatchedObservation) -> (r: MatchedObservation)
    ensures
        obs_view(r) == obs_view(*o),
{
    MatchedObservation {
        msg_norm: o.msg_norm.clone(),
        parity: o.parity,
        freq_mhz: o.freq_mhz,
        dt_ms: o.dt_ms,
        stat_milli: o.stat_milli,
        margin_milli: o.margin_milli,
        last_seen_nutc: o.last_seen_nutc,
    }
}

impl MatchedObservations {
    pub fn new() -> (r: MatchedObservations)
        ensures
            r.observations@.len() == 0,
    {
        MatchedObservations { observations: Vec::new() }
    }

    /// Forgets the sightings more than 16 slots old.
    pub fn age_matched_observations(&mut self, nutc: u32)
        requires
            forall|i: int| 0 <= i < old(self).observations@.len() ==> seconds_of(#[trigger] old(self).observations@[i].last_seen_nutc) <= seconds_of(nutc) + 86400,
        ensures
            obs_seq(final(self).observations@) == recent(obs_seq(old(self).observations@), nutc),
    {
        let ghost v = obs_seq(self.observations@);
        let mut kept: Vec<MatchedObservation> = Vec::new();
        let mut i: usize = 0;
        proof {
            assert(obs_seq(kept@) =~= recent(v.take(0), nutc));
        }
        while i < self.observations.len()
            invariant
                i <= v.len(),
                v == obs_seq(self.observations@),
                self.observations@ == old(self).observations@,
                forall|k: int| 0 <= k < v.len() ==> seconds_of(#[trigger] self.observations@[k].last_seen_nutc) <= seconds_of(nutc) + 86400,
                obs_seq(kept@) == recent(v.take(i as int), nutc),
            decreases v.len() - i,
        {
            let o = &self.observations[i];
            proof {
                assert(v.take(i + 1).drop_last() =~= v.take(i as int));
                assert(v.take(i + 1).last() == obs_view(*o));
            }
            let s = crate::dx_context::slots_between(o.last_seen_nutc, nutc);
            if s <= 16 {
                let c = copy_obs(o);
                let ghost before = obs_seq(kept@);
                kept.push(c);
                proof {
                    assert(obs_seq(kept@) =~= before.push(obs_view(*o)));
                }
            }
            i = i + 1;
        }
        proof {
            assert(v.take(v.len() as int) =~= v);
        }
        self.observations = kept;
    }

    /// Observes a matched hit of a slot; gives the hit to report, if any.
    pub fn observe_matched_hit(&mut self, timestamp: &SlotTimestamp, hit: &DeepHit, gate: PhysicalAdmissionGate) -> (r: Option<DeepHit>)
        ensures
            ({
                let (obs, out) = observed(obs_seq(old(self).observations@), hit_view(*hit), timestamp.nutc, gate);
                &&& obs_seq(final(self).observations@) == obs
                &&& match r {
                    Some(h) => out == Some(hit_view(h)),
                    None => out is None,
                }
            }),
    {
        if hit.conf != DeepConfidence::TwoSlotMatched {
            return None;
        }
        let nutc = timestamp.nutc();
        let parity = crate::dx_context::slot_parity(timestamp);
        let norm = crate::dx_filter::normalize_message(hit.msg.as_str());
        let nc = crate::text::chars_of(norm.as_str());
        let ghost v = obs_seq(self.observations@);
        let ghost hv = hit_view(*hit);
        let mut k: usize = 0;
        while k < self.observations.len()
            invariant
                k <= v.len(),
                v == obs_seq(self.observations@),
                self.observations@ == old(self).observations@,
                nc@ == norm_of(hit.msg@),
                parity == (nutc / 5) % 2,
                nutc == timestamp.nutc,
                hv == hit_view(*hit),
                hv.6 == DeepConfidence::TwoSlotMatched,
                forall|j: int| 0 <= j < k ==> !corroborates(#[trigger] v[j], hv, nutc, parity, gate),
            decreases v.len() - k,
        {
            let o = &self.observations[k];
            let oc = crate::text::chars_of(o.msg_norm.as_str());
            if crate::text::eq_chars(&oc, &nc) && o.parity == parity && o.last_seen_nutc != nutc && diff(o.freq_mhz, hit.freq_mhz)
                <= gate.freq_tolerance_mhz as i128 && diff(o.dt_ms, hit.dt_ms) <= gate.dt_tolerance_ms as i128 {
                proof {
                    assert(corroborates(v[k as int], hv, nutc, parity, gate));
                    let c = choose|c: int|
                        0 <= c < v.len() && corroborates(#[trigger] v[c], hv, nutc, parity, gate) && forall|j: int|
                            0 <= j < c ==> !corroborates(#[trigger] v[j], hv, nutc, parity, gate);
                    assert(c == k) by {
                        if c < k {
                            assert(!corroborates(v[c], hv, nutc, parity, gate));
                        } else if c > k {
                            assert(!corroborates(v[k as int], hv, nutc, parity, gate));
                        }
                    }
                }
                let stat = if o.stat_milli <= hit.stat_milli {
                    o.stat_milli
                } else {
                    hit.stat_milli
                };
                let margin = if o.margin_milli <= hit.margin_milli {
                    o.margin_milli
                } else {
                    hit.margin_milli
                };
                let updated = MatchedObservation {
                    msg_norm: o.msg_norm.clone(),
                    parity: o.parity,
                    freq_mhz: hit.freq_mhz,
                    dt_ms: hit.dt_ms,
                    stat_milli: stat,
                    margin_milli: margin,
                    last_seen_nutc: nutc,
                };
                self.observations.set(k, updated);
                proof {
                    assert(first_corroborated(v, hv, nutc, parity, gate) == Some(k as int));
                    assert(obs_seq(self.observations@) =~= v.update(
                        k as int,
                        (v[k as int].0, v[k as int].1, hit.freq_mhz, hit.dt_ms, stat, margin, nutc),
                    ));
                    assert(observed(v, hv, timestamp.nutc, gate).0 == v.update(
                        k as int,
                        (v[k as int].0, v[k as int].1, hit.freq_mhz, hit.dt_ms, stat, margin, nutc),
                    ));
                }
                return Some(
                    DeepHit {
                        msg: hit.msg.clone(),
                        stat_milli: stat,
                        margin_milli: margin,
                        freq_mhz: hit.freq_mhz,
                        dt_ms: hit.dt_ms,
                        snr_milli: hit.snr_milli,
                        conf: DeepConfidence::TwoSlotMatched,
                    },
                );
            }
            k = k + 1;
        }
        let obs = MatchedObservation {
            msg_norm: norm,
            parity,
            freq_mhz: hit.freq_mhz,
            dt_ms: hit.dt_ms,
            stat_milli: hit.stat_milli,
            margin_milli: hit.margin_milli,
            last_seen_nutc: nutc,
        };
        let ghost ov = obs_view(obs);
        self.observations.push(obs);
        proof {
            assert(obs_seq(self.observations@) =~= v.push(ov));
        }
        None
    }
}

/// A matched hit is reported only on a second sighting: the first one is
/// noted, and the same hit seen again in a later slot of the same parity,
/// at the same place, is reported.
pub proof fn lemma_hit_reported_on_second_slot(obs: Seq<ObsView>, hit: HitView, nutc1: u32, nutc2: u32, gate: PhysicalAdmissionGate)
    requires
        hit.6 == DeepConfidence::TwoSlotMatched,
        first_corroborated(obs, hit, nutc1, ((nutc1 / 5) % 2) as usize, gate) is None,
        nutc1 != nutc2,
        (nutc1 / 5) % 2 == (nutc2 / 5) % 2,
        gate.freq_tolerance_mhz >= 0,
        gate.dt_tolerance_ms >= 0,
    ensures
        observed(obs, hit, nutc1, gate).1 is None,
        observed(observed(obs, hit, nutc1, gate).0, hit, nutc2, gate).1 is Some,
{
    let parity = ((nutc1 / 5) % 2) as usize;
    let obs1 = observed(obs, hit, nutc1, gate).0;
    let k = obs.len() as int;
    assert(obs1[k] == (norm_of(hit.0), parity, hit.3, hit.4, hit.1, hit.2, nutc1));
    assert(corroborates(obs1[k], hit, nutc2, parity, gate));
}

} // verus!
