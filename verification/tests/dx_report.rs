use ft8lib::dx_context::{DeepStackDiagnostics, SlotTimestamp};
use ft8lib::dx_report::{
    dx_deep_engine_enabled, dx_deep_output_enabled, dx_focused_budget_expired,
    dx_hash_seed_calls, format_deep_report, push_normalized_call, DxDeepSwitches, DxExposure,
    DxSlotDeepReport, slot_deep_accounting,
};

#[test]
fn dx_deep_report_is_human_readable_and_count_based() {
    let report = format_deep_report(
        &SlotTimestamp::parse("140630").unwrap(),
        DxSlotDeepReport {
            foci: 2,
            fields: 3,
            hits: 1,
            emitted: 0,
            crc_candidates: 4,
            crc_attempts: 2,
            crc_skipped_budget: 2,
        },
    );

    assert_eq!(
        report,
        "dx-deep 140630: foci=2 fields=3 hits=1 emitted=0 crc_candidates=4 crc_attempts=2 crc_skipped=2"
    );
}

#[test]
fn deep_report_pads_the_hour_and_prints_large_counts() {
    let report = format_deep_report(
        &SlotTimestamp { nutc: 30015 },
        DxSlotDeepReport {
            foci: 12345,
            fields: 10,
            hits: 0,
            emitted: 7,
            crc_candidates: 100,
            crc_attempts: 9,
            crc_skipped_budget: 91,
        },
    );
    assert_eq!(
        report,
        "dx-deep 030015: foci=12345 fields=10 hits=0 emitted=7 crc_candidates=100 crc_attempts=9 crc_skipped=91"
    );
}

#[test]
fn dx_hash_seed_calls_keeps_target_calls_only_once() {
    assert_eq!(
        dx_hash_seed_calls(Some("F1MLZ"), Some(" f1mlz ")),
        vec!["F1MLZ".to_string()]
    );
}

#[test]
fn seed_calls_skip_empty_and_keep_order() {
    assert_eq!(
        dx_hash_seed_calls(Some(" ua3qna"), Some("f1mlz")),
        vec!["UA3QNA".to_string(), "F1MLZ".to_string()]
    );
    assert_eq!(dx_hash_seed_calls(Some("   "), None), Vec::<String>::new());
    let mut calls = vec!["K1JT".to_string()];
    push_normalized_call(&mut calls, Some(" k1jt"));
    push_normalized_call(&mut calls, None);
    push_normalized_call(&mut calls, Some("bg5atv"));
    assert_eq!(calls, vec!["K1JT".to_string(), "BG5ATV".to_string()]);
}

#[test]
fn dx_deep_output_is_experimental_opt_in() {
    let mut config = DxDeepSwitches::default();

    assert!(!dx_deep_output_enabled(&config));
    config.dx_deep_experimental_output = true;
    assert!(dx_deep_output_enabled(&config));
}

#[test]
fn deep_engine_runs_for_output_or_diagnostics() {
    let mut config = DxDeepSwitches::default();
    assert!(!dx_deep_engine_enabled(&config));
    config.dx_deep_diagnostics = true;
    assert!(dx_deep_engine_enabled(&config));
}

#[test]
fn dx_monitor_watchdog_is_opt_in_and_budget_based() {
    let mut config = DxDeepSwitches::default();

    assert!(!dx_focused_budget_expired(&config, 999 * 1_000_000_000));

    config.dx_monitor_watchdog_ms = Some(12_000);
    assert!(!dx_focused_budget_expired(&config, 11_999 * 1_000_000));
    assert!(dx_focused_budget_expired(&config, 12_000 * 1_000_000));
}

#[test]
fn exposure_accumulates_field_by_field_in_any_order() {
    let a = DxExposure {
        slots: 1,
        focus_trials: 2,
        field_trials: 3,
        hypothesis_trials: 4,
        stack_osd_candidates: 5,
        stack_osd_attempts: 6,
        stack_osd_skipped_budget: 7,
        deep_rows_emitted: 8,
    };
    let b = DxExposure {
        slots: 10,
        focus_trials: 20,
        field_trials: 30,
        hypothesis_trials: 40,
        stack_osd_candidates: 50,
        stack_osd_attempts: 60,
        stack_osd_skipped_budget: 70,
        deep_rows_emitted: 80,
    };
    let mut ab = a;
    ab.accumulate(b);
    let mut ba = b;
    ba.accumulate(a);
    assert_eq!(ab, ba);
    assert_eq!(ab.slots, 11);
    assert_eq!(ab.deep_rows_emitted, 88);
    let mut z = a;
    z.accumulate(DxExposure::default());
    assert_eq!(z, a);
}

#[test]
fn slot_accounting_counts_the_slot_and_the_growth_of_the_diagnostics() {
    let before = DeepStackDiagnostics { crc_candidates: 4, crc_attempts: 3, crc_skipped_budget: 1 };
    let after = DeepStackDiagnostics { crc_candidates: 7, crc_attempts: 5, crc_skipped_budget: 2 };
    let (exposure, report) = slot_deep_accounting(2, 3, 22, 1, 1, before, after);
    assert_eq!(
        exposure,
        DxExposure {
            slots: 1,
            focus_trials: 2,
            field_trials: 3,
            hypothesis_trials: 66,
            stack_osd_candidates: 3,
            stack_osd_attempts: 2,
            stack_osd_skipped_budget: 1,
            deep_rows_emitted: 1,
        }
    );
    assert_eq!(
        report,
        DxSlotDeepReport { foci: 2, fields: 3, hits: 1, emitted: 1, crc_candidates: 3, crc_attempts: 2, crc_skipped_budget: 1 }
    );
    // A diagnostics counter that went down counts as no growth.
    let (shrunk, _) = slot_deep_accounting(0, 0, 0, 0, 0, after, before);
    assert_eq!(shrunk.stack_osd_candidates, 0);
    let mut total = DxExposure::default();
    total.accumulate(exposure);
    total.accumulate(exposure);
    assert_eq!(total.slots, 2);
    assert_eq!(total.hypothesis_trials, 132);
}
