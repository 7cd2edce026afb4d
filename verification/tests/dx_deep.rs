use ft8lib::dx_context::{slot_parity, spend_crc_budget, DeepCrcBudget, DeepStackDiagnostics, SlotTimestamp};
use ft8lib::dx_deep::{freq_bin_of, DeepFieldObs, DeepStacks, StackCommit, StackOpen};
use ft8lib::dx_filter::DxTarget;
use ft8lib::dx_matched::PhysicalAdmissionGate;
use ft8lib::dx_stack::StackKey;
use ft8lib::dx_store::TargetContextStore;

type Field = [f32; 2];

fn hz(f: f64) -> i64 {
    (f * 1000.0).round() as i64
}

fn deep_obs(focus: f64, freq: f64, dt: f64, nsync: usize, syncavemax: f64) -> DeepFieldObs {
    DeepFieldObs {
        focus_mhz: hz(focus),
        freq_mhz: hz(freq),
        dt_ms: (dt * 1000.0).round() as i64,
        nsync,
        syncavemax_milli: (syncavemax * 1000.0).round() as i64,
    }
}

fn gate(freq_tol: f64, dt_tol: f64, min_nsync: usize, min_sync: f64) -> PhysicalAdmissionGate {
    PhysicalAdmissionGate {
        freq_tolerance_mhz: hz(freq_tol),
        dt_tolerance_ms: (dt_tol * 1000.0).round() as i64,
        min_nsync,
        min_syncavemax_milli: (min_sync * 1000.0).round() as i64,
    }
}

fn ts(label: &str) -> SlotTimestamp {
    SlotTimestamp::parse(label).unwrap()
}

/// One slot of one observation: plan it, then feed or open stacks.
fn observe(stacks: &mut DeepStacks<Field>, timestamp: &SlotTimestamp, obs: DeepFieldObs, gate: PhysicalAdmissionGate) {
    let plan = stacks.plan_slot(slot_parity(timestamp), &[obs], gate);
    let commits: Vec<StackCommit<Field>> = plan
        .candidates
        .iter()
        .map(|c| StackCommit { idx: c.idx, obs, field: [0.0; 2], hyp: None })
        .collect();
    let opens: Vec<StackOpen<Field>> = plan
        .opens
        .iter()
        .map(|(key, _)| StackOpen { key: *key, obs, field: [0.0; 2] })
        .collect();
    stacks.commit_slot(timestamp.nutc(), gate, &commits, &opens);
}

#[test]
fn deep_stack_ignores_fields_below_physical_floor() {
    let mut stacks: DeepStacks<Field> = DeepStacks::new();
    let gate = gate(3.0, 0.3, 4, 0.5);
    observe(&mut stacks, &ts("140630"), deep_obs(1000.0, 1000.0, 0.2, 3, 1.0), gate);
    assert_eq!(stacks.deep_stack_count(), 0);
}

#[test]
fn deep_stack_allows_multiple_physical_stacks_per_frequency_bucket() {
    let mut stacks: DeepStacks<Field> = DeepStacks::new();
    let gate = gate(3.0, 0.1, 4, 0.0);
    let t = ts("140630");
    observe(&mut stacks, &t, deep_obs(1000.0, 1000.1, 0.2, 5, 1.0), gate);
    observe(&mut stacks, &t, deep_obs(1000.0, 1000.4, 0.6, 5, 1.0), gate);
    assert_eq!(stacks.deep_stack_count(), 2);
    assert!(stacks.stacks().iter().all(|s| s.key().freq_bin == 1000));
}

#[test]
fn deep_crc_decode_budget_is_slot_bounded() {
    let mut store = TargetContextStore::new(DxTarget::new("DX1AAA"), Some("MY1AAA"), 0, None, false, hz(200.0), hz(3000.0));

    assert!(store.take_deep_crc_decode_budget(140630));
    assert!(store.take_deep_crc_decode_budget(140630));
    assert!(!store.take_deep_crc_decode_budget(140630));
    assert_eq!(store.deep_crc_budget_used(), 2);

    assert!(store.take_deep_crc_decode_budget(140645));
    assert_eq!(store.deep_crc_budget_used(), 1);
}

#[test]
fn stack_decode_candidate_prefers_deeper_stack_before_spending_crc_budget() {
    let store = TargetContextStore::new(DxTarget::new("BG5ATV"), Some("K1JT"), 0, None, false, hz(200.0), hz(3000.0));
    let key = StackKey { parity: slot_parity(&ts("140630")), freq_bin: 1000 };
    let gate = gate(3.0, 0.3, 1, 0.0);
    let shallow = deep_obs(1000.0, 1001.0, 0.2, 12, 9.0);
    let deep = deep_obs(1000.0, 999.0, 0.2, 4, 1.0);
    let mut stacks: DeepStacks<Field> = DeepStacks::new();
    stacks.commit_slot(140600, gate, &[], &[StackOpen { key, obs: shallow, field: [1.0; 2] }]);
    stacks.commit_slot(140545, gate, &[], &[StackOpen { key, obs: deep, field: [2.0; 2] }]);
    stacks.commit_slot(140600, gate, &[StackCommit { idx: 1, obs: deep, field: [2.0; 2], hyp: None }], &[]);

    let current = deep_obs(1000.0, 1000.0, 0.2, 8, 2.0);
    let candidate = stacks
        .best_stack_decode_candidate(0, key, current, gate)
        .expect("both stacks should be admissible");

    assert_eq!(candidate.idx, 1);
    assert_eq!(stacks.stacks()[candidate.idx].depth(), 2);
    assert_eq!(candidate.priority.depth, 3);
    assert_eq!(store.deep_crc_budget_used(), 0);
}

#[test]
fn deep_stack_diagnostics_count_budget_skips() {
    let timestamp = ts("140630");
    let parity = slot_parity(&timestamp);
    let gate = gate(3.0, 0.3, 1, 0.0);
    let mut stacks: DeepStacks<Field> = DeepStacks::new();
    let opens: Vec<StackOpen<Field>> = [990.0, 1000.0, 1010.0]
        .iter()
        .map(|&f| StackOpen {
            key: StackKey { parity, freq_bin: freq_bin_of(hz(f)) },
            obs: deep_obs(f, f, 0.2, 8, 2.0),
            field: [0.0; 2],
        })
        .collect();
    stacks.commit_slot(140600, gate, &[], &opens);

    let inputs: Vec<DeepFieldObs> = [990.0, 1000.0, 1010.0].iter().map(|&f| deep_obs(f, f, 0.2, 8, 2.0)).collect();
    let plan = stacks.plan_slot(parity, &inputs, gate);
    assert_eq!(plan.candidates.len(), 3);
    assert!(plan.opens.is_empty());

    let mut budget = DeepCrcBudget::new();
    let mut diagnostics = DeepStackDiagnostics::default();
    spend_crc_budget(&mut budget, &mut diagnostics, timestamp.nutc(), plan.candidates.len());
    assert_eq!(
        diagnostics,
        DeepStackDiagnostics { crc_candidates: 3, crc_attempts: 2, crc_skipped_budget: 1 }
    );
}

#[test]
fn slot_plan_runs_deeper_stacks_first_ties_in_observation_order() {
    let timestamp = ts("140630");
    let parity = slot_parity(&timestamp);
    let gate = gate(3.0, 0.3, 1, 0.0);
    let mut stacks: DeepStacks<Field> = DeepStacks::new();
    let opens: Vec<StackOpen<Field>> = [990.0, 1000.0, 1010.0]
        .iter()
        .map(|&f| StackOpen {
            key: StackKey { parity, freq_bin: freq_bin_of(hz(f)) },
            obs: deep_obs(f, f, 0.2, 8, 2.0),
            field: [0.0; 2],
        })
        .collect();
    stacks.commit_slot(140600, gate, &[], &opens);
    // The last stack gets a second slot.
    stacks.commit_slot(140615, gate, &[StackCommit { idx: 2, obs: opens[2].obs, field: [0.0; 2], hyp: None }], &[]);

    let inputs: Vec<DeepFieldObs> = [990.0, 1000.0, 1010.0, 1500.0].iter().map(|&f| deep_obs(f, f, 0.2, 8, 2.0)).collect();
    let plan = stacks.plan_slot(parity, &inputs, gate);
    let order: Vec<usize> = plan.candidates.iter().map(|c| c.input_idx).collect();
    assert_eq!(order, vec![2, 0, 1]);
    assert_eq!(plan.opens, vec![(StackKey { parity, freq_bin: 1500 }, 3)]);
}

#[test]
fn stale_stacks_age_out_after_sixteen_slots() {
    let gate = gate(3.0, 0.3, 1, 0.0);
    let mut stacks: DeepStacks<Field> = DeepStacks::new();
    let key = StackKey { parity: 0, freq_bin: 1000 };
    let o = deep_obs(1000.0, 1000.0, 0.2, 8, 2.0);
    stacks.commit_slot(140000, gate, &[], &[StackOpen { key, obs: o, field: [0.0; 2] }]);
    stacks.commit_slot(140200, gate, &[], &[StackOpen { key, obs: o, field: [0.0; 2] }]);
    // 16 slots after 14:00:00 is 14:04:00.
    stacks.age_deep_stacks(140400);
    assert_eq!(stacks.deep_stack_count(), 2);
    stacks.age_deep_stacks(140415);
    assert_eq!(stacks.deep_stack_count(), 1);
    assert_eq!(stacks.stacks()[0].last_seen_nutc(), 140200);
}

#[test]
fn focus_buckets_round_half_away_from_zero() {
    assert_eq!(freq_bin_of(1_000_499), 1000);
    assert_eq!(freq_bin_of(1_000_500), 1001);
    assert_eq!(freq_bin_of(-1_500), -2);
    assert_eq!(freq_bin_of(i64::MAX), i32::MAX);
}
