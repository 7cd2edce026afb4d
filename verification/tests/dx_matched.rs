use ft8lib::dx_context::SlotTimestamp;
use ft8lib::dx_matched::{DeepConfidence, DeepHit, MatchedObservations, PhysicalAdmissionGate};

fn hit(msg: &str, freq_mhz: i64, dt_ms: i64, stat: i64) -> DeepHit {
    DeepHit {
        msg: msg.to_string(),
        stat_milli: stat,
        margin_milli: stat / 2,
        freq_mhz,
        dt_ms,
        snr_milli: Some(-18_000),
        conf: DeepConfidence::TwoSlotMatched,
    }
}

fn ts(label: &str) -> SlotTimestamp {
    SlotTimestamp::parse(label).unwrap()
}

#[test]
fn matched_hits_need_a_second_slot() {
    let gate = PhysicalAdmissionGate::new();
    let mut m = MatchedObservations::new();
    assert!(m.observe_matched_hit(&ts("120000"), &hit("CQ UA3QNA KO85", 1_000_000, 200, 900), gate).is_none());
    // The same slot again: no corroboration.
    assert!(m.observe_matched_hit(&ts("120000"), &hit("CQ UA3QNA KO85", 1_000_000, 200, 900), gate).is_none());
    // The next slot is of the other parity.
    assert!(m.observe_matched_hit(&ts("120015"), &hit("CQ UA3QNA KO85", 1_000_000, 200, 900), gate).is_none());
    let out = m
        .observe_matched_hit(&ts("120030"), &hit("CQ  UA3QNA KO85 ", 1_002_000, 400, 800), gate)
        .expect("corroborated");
    assert_eq!((out.freq_mhz, out.dt_ms, out.stat_milli, out.margin_milli), (1_002_000, 400, 800, 400));
    assert_eq!(out.msg, "CQ  UA3QNA KO85 ");
    assert_eq!(out.snr_milli, Some(-18_000));
}

#[test]
fn matched_hits_need_the_same_place_and_message() {
    let gate = PhysicalAdmissionGate::new();
    let mut m = MatchedObservations::new();
    m.observe_matched_hit(&ts("120000"), &hit("CQ UA3QNA KO85", 1_000_000, 200, 900), gate);
    assert!(m.observe_matched_hit(&ts("120030"), &hit("CQ UA3QNA KO85", 1_003_001, 200, 900), gate).is_none());
    assert!(m.observe_matched_hit(&ts("120100"), &hit("CQ UA3QNA KO86", 1_000_000, 200, 900), gate).is_none());
    assert!(m.observe_matched_hit(&ts("120130"), &hit("CQ UA3QNA KO85", 1_000_000, 501, 900), gate).is_none());
    let other = DeepHit { conf: DeepConfidence::StackedLlrMatched, ..hit("CQ UA3QNA KO85", 1_000_000, 200, 900) };
    assert!(m.observe_matched_hit(&ts("120200"), &other, gate).is_none());
    assert_eq!(m.observations.len(), 4);
}

#[test]
fn old_sightings_are_forgotten() {
    let gate = PhysicalAdmissionGate::new();
    let mut m = MatchedObservations::new();
    m.observe_matched_hit(&ts("120000"), &hit("CQ UA3QNA KO85", 1_000_000, 200, 900), gate);
    m.observe_matched_hit(&ts("120330"), &hit("CQ G4ABC IO91", 1_500_000, 200, 900), gate);
    m.age_matched_observations(120400);
    assert_eq!(m.observations.len(), 2);
    m.age_matched_observations(120415);
    assert_eq!(m.observations.len(), 1);
    assert_eq!(m.observations[0].msg_norm, "CQ G4ABC IO91");
    assert!(gate.passes_floor(4, 0) && !gate.passes_floor(3, 0));
}

fn normalized(msg: &str) -> String {
    msg.split_whitespace().collect::<Vec<_>>().join(" ").to_uppercase()
}

fn wide_gate() -> PhysicalAdmissionGate {
    PhysicalAdmissionGate { freq_tolerance_mhz: 3_000, dt_tolerance_ms: 300, min_nsync: 99, min_syncavemax_milli: 0 }
}

#[test]
fn matched_filter_hit_requires_two_slots_before_returning() {
    let mut m = MatchedObservations::new();
    let gate = wide_gate();
    let first = m.observe_matched_hit(&ts("140630"), &hit("K1JT BG5ATV -10", 1_000_000, 200, 150_000), gate);
    assert!(first.is_none());
    assert_eq!(m.observations.len(), 1);

    let second = m.observe_matched_hit(&ts("140700"), &hit("K1JT BG5ATV -10", 1_000_000, 200, 150_000), gate);
    let hit = second.expect("second same-parity matched observation should corroborate");
    assert_eq!(hit.conf, DeepConfidence::TwoSlotMatched);
    assert_eq!(normalized(&hit.msg), "K1JT BG5ATV -10");
}

#[test]
fn matched_filter_corroboration_requires_same_parity_and_physical_match() {
    let mut m = MatchedObservations::new();
    let gate = wide_gate();
    assert!(m.observe_matched_hit(&ts("140630"), &hit("K1JT BG5ATV -10", 1_000_000, 200, 150_000), gate).is_none());
    // Opposite parity.
    assert!(m.observe_matched_hit(&ts("140645"), &hit("K1JT BG5ATV -10", 1_000_000, 200, 150_000), gate).is_none());
    // Too far in frequency.
    assert!(m.observe_matched_hit(&ts("140700"), &hit("K1JT BG5ATV -10", 1_010_000, 200, 150_000), gate).is_none());
    let hit = m
        .observe_matched_hit(&ts("140730"), &hit("K1JT BG5ATV -10", 1_001_000, 250, 150_000), gate)
        .expect("same-parity physically compatible matched observation should corroborate");
    assert_eq!(hit.conf, DeepConfidence::TwoSlotMatched);
    assert_eq!(normalized(&hit.msg), "K1JT BG5ATV -10");
}

#[test]
fn matched_filter_corroboration_requires_same_normalized_message() {
    let mut m = MatchedObservations::new();
    let gate = wide_gate();
    assert!(m.observe_matched_hit(&ts("140630"), &hit("K1JT BG5ATV -10", 1_000_000, 200, 150_000), gate).is_none());
    assert!(m.observe_matched_hit(&ts("140700"), &hit("K1JT BG5ATV R-10", 1_001_000, 250, 150_000), gate).is_none());
    assert_eq!(m.observations.len(), 2);
}
