use ft8lib::dx_context::{ParityConfidence, SlotTimestamp, TxParity};
use ft8lib::dx_filter::DxTarget;
use ft8lib::dx_store::{deep_hit_to_row, emit_deep_hits_if_enabled, emit_target_row, TargetContextStore, DX_DEEP_SNR_UNAVAILABLE};
use ft8lib::dx_matched::{DeepConfidence, DeepHit};
use ft8lib::hybrid::StreamDecodedMessage;

fn row(freq: f64, msg: &str) -> StreamDecodedMessage {
    StreamDecodedMessage {
        freq_mhz: (freq * 1000.0).round() as i64,
        dt_ms: 200,
        snr: -10,
        msg: msg.to_string(),
        sync_milli: 0,
        itone: [0; 79],
    }
}

fn hz(f: f64) -> i64 {
    (f * 1000.0).round() as i64
}

fn store(target: &str, mycall: &str, seed: f64, hisgrid: Option<&str>, hound: bool, nfa: f64, nfb: f64) -> TargetContextStore {
    TargetContextStore::new(DxTarget::new(target), Some(mycall), hz(seed), hisgrid, hound, hz(nfa), hz(nfb))
}

fn foci(store: &TargetContextStore) -> Vec<f64> {
    store.selected_foci().into_iter().map(|f| f as f64 / 1000.0).collect()
}

fn ts(label: &str) -> SlotTimestamp {
    SlotTimestamp::parse(label).unwrap()
}

#[test]
fn inferred_parity_does_not_hard_skip_opposite_slots() {
    let mut store = store("UA3QNA", "F1MLZ", 1000.0, None, false, 200.0, 3000.0);
    store.harvest_listen(&ts("140630"), &[StreamDecodedMessage { freq_mhz: hz(1000.0), dt_ms: 0, snr: -5, msg: "UA3QNA F1MLZ R-05".to_string(), sync_milli: 0, itone: [0; 79] }]);

    assert!(matches!(store.tx_parity(), Some(TxParity { confidence: ParityConfidence::Inferred, .. })));
    assert!(store.should_run_focused(&ts("140630")));
    assert!(store.should_run_focused(&ts("140645")));

    store.harvest_listen(&ts("140700"), &[StreamDecodedMessage { freq_mhz: hz(1000.0), dt_ms: 0, snr: -5, msg: "F1MLZ UA3QNA -04".to_string(), sync_milli: 0, itone: [0; 79] }]);
    assert!(matches!(store.tx_parity(), Some(TxParity { confidence: ParityConfidence::Observed, .. })));
}

#[test]
fn observed_parity_ages_out_before_it_can_silently_skip_target_slots() {
    let mut store = store("UA3QNA", "F1MLZ", 1000.0, None, false, 200.0, 3000.0);
    let observed_ts = ts("140700");
    store.harvest_listen(&observed_ts, &[StreamDecodedMessage { freq_mhz: hz(1000.0), dt_ms: 0, snr: -5, msg: "F1MLZ UA3QNA -04".to_string(), sync_milli: 0, itone: [0; 79] }]);

    assert!(store.should_run_focused(&observed_ts));
    assert!(
        !store.should_run_focused(&SlotTimestamp { nutc: 140715 }),
        "fresh observed parity should still save focused/deep work on the opposite slot"
    );
    assert!(
        store.should_run_focused(&SlotTimestamp { nutc: 141115 }),
        "stale observed parity must degrade to sensitivity-first probing instead of hard-skipping forever"
    );
}

#[test]
fn frequency_selection_collapses_one_window_and_prefers_confidence() {
    let mut store = store("UA3QNA", "F1MLZ", 0.0, None, false, 200.0, 3000.0);
    let ts = ts("140630");
    store.harvest_listen(&ts, &[row(1152.0, "F1MLZ RA3ABG KO95")]);
    store.harvest_listen(&ts, &[row(1154.0, "F1MLZ UA3QNA -04")]);

    assert_eq!(foci(&store), vec![1154.0]);
}

#[test]
fn focus_selection_order_is_independent_of_harvest_order() {
    fn harvest_in_order(freqs: &[f64]) -> Vec<f64> {
        let mut s = store("UA3QNA", "F1MLZ", 0.0, None, false, 200.0, 3000.0);
        let rows: Vec<_> = freqs.iter().map(|&freq| row(freq, "F1MLZ UA3QNA -04")).collect();
        s.harvest_listen(&ts("140630"), &rows);
        foci(&s)
    }

    let ascending_input = harvest_in_order(&[700.0, 900.0, 1300.0, 1500.0]);
    let mixed_input = harvest_in_order(&[1500.0, 700.0, 1300.0, 900.0]);

    assert_eq!(ascending_input, vec![700.0, 900.0, 1300.0, 1500.0]);
    assert_eq!(mixed_input, ascending_input);
}

#[test]
fn qso_progress_probe_tracks_my_target_exchange_observe_only() {
    let mut store = store("UA3QNA", "F1MLZ", 0.0, None, false, 200.0, 3000.0);
    let ts = ts("140630");

    store.harvest_listen(&ts, &[row(1152.0, "F1MLZ UA3QNA -04")]);
    assert_eq!(store.qso_progress(), Some(2));

    store.harvest_listen(&ts, &[row(1152.0, "F1MLZ UA3QNA R-12")]);
    assert_eq!(store.qso_progress(), Some(3));

    store.harvest_listen(&ts, &[row(1152.0, "F1MLZ UA3QNA RR73")]);
    assert_eq!(store.qso_progress(), Some(5));
}

#[test]
fn qso_progress_probe_ignores_target_working_someone_else() {
    let mut store = store("UA3QNA", "F1MLZ", 0.0, None, false, 200.0, 3000.0);
    store.harvest_listen(&ts("140630"), &[row(1152.0, "RA3ABG UA3QNA -04")]);

    assert_eq!(store.qso_progress(), None);
}

#[test]
fn hard_grid_contradiction_suppresses_only_target_sender_rows() {
    let store = store("BG5ATV", "K1JT", 1000.0, Some("PM00"), false, 200.0, 3000.0);

    assert!(!store.should_emit_target_row(&row(1000.0, "CQ BG5ATV FN42")));
    assert!(store.should_emit_target_row(&row(1000.0, "BG5ATV K1JT FN42")));
    assert!(store.should_emit_target_row(&row(1000.0, "CQ BG5ATV PM00")));
}

#[test]
fn out_of_passband_seed_is_ignored() {
    let store = store("UA3QNA", "F1MLZ", 3500.0, None, false, 200.0, 3000.0);

    assert!(foci(&store).is_empty());
}

#[test]
fn in_passband_user_seed_is_pinned() {
    let mut store = store("UA3QNA", "F1MLZ", 1152.0, None, false, 200.0, 3000.0);
    store.harvest_listen(&ts("140630"), &[]);

    assert_eq!(foci(&store), vec![1152.0]);
}

#[test]
fn hound_mode_does_not_focus_hunter_rows() {
    let mut store = store("DX1AAA", "MY1AAA", 0.0, None, true, 200.0, 3000.0);
    let ts = ts("140630");

    store.harvest_listen(&ts, &[row(2100.0, "DX1AAA MY1AAA R-05")]);
    assert!(foci(&store).is_empty());

    store.harvest_listen(&ts, &[row(600.0, "MY1AAA DX1AAA -10")]);
    assert_eq!(foci(&store), vec![600.0]);
}

#[test]
fn fox_multistream_pre_places_full_60hz_grid_from_lowest() {
    let mut store = store("DX1AAA", "MY1AAA", 0.0, None, true, 200.0, 3000.0);
    let ts = ts("140630");

    store.harvest_listen(&ts, &[row(300.0, "MY1AAA DX1AAA -10")]);
    assert_eq!(foci(&store), vec![300.0]);

    store.harvest_listen(&ts, &[row(360.0, "OTHER DX1AAA -12")]);
    assert_eq!(foci(&store), vec![300.0, 360.0, 420.0, 480.0, 540.0]);
}

#[test]
fn fox_multistream_anchor_re_adjusts_to_dynamic_lowest() {
    let mut store = store("DX1AAA", "MY1AAA", 0.0, None, true, 200.0, 3000.0);
    let ts = ts("140630");

    store.harvest_listen(&ts, &[row(360.0, "MY1AAA DX1AAA -10")]);
    store.harvest_listen(&ts, &[row(420.0, "OTHER DX1AAA -12")]);
    assert_eq!(foci(&store), vec![360.0, 420.0, 480.0, 540.0, 600.0]);

    store.harvest_listen(&ts, &[row(300.0, "THIRD DX1AAA -08")]);
    assert_eq!(foci(&store), vec![300.0, 360.0, 420.0, 480.0, 540.0]);
}

#[test]
fn fox_multistream_grid_is_clipped_to_passband_top() {
    let mut store = store("DX1AAA", "MY1AAA", 0.0, None, true, 200.0, 1000.0);
    let ts = ts("140630");

    store.harvest_listen(&ts, &[row(900.0, "MY1AAA DX1AAA -10")]);
    store.harvest_listen(&ts, &[row(960.0, "OTHER DX1AAA -12")]);

    assert_eq!(foci(&store), vec![900.0, 960.0, 1020.0]);
}

#[test]
fn multistream_grid_is_hound_only() {
    let mut store = store("DX1AAA", "MY1AAA", 0.0, None, false, 200.0, 3000.0);
    let ts = ts("140630");

    store.harvest_listen(&ts, &[row(300.0, "MY1AAA DX1AAA -10")]);
    store.harvest_listen(&ts, &[row(360.0, "OTHER DX1AAA -12")]);
    assert_eq!(foci(&store), vec![300.0, 360.0]);
}

#[test]
fn target_grid_and_time_offset_come_from_the_target() {
    let mut store = store("BG5ATV", "K1JT", 0.0, None, false, 200.0, 3000.0);
    let ts = ts("140630");
    store.harvest_listen(&ts, &[row(1000.0, "K1JT BG5ATV pm00")]);
    assert_eq!(store.hisgrid(), Some("PM00".to_string()));
    assert_eq!(store.target_dt(), Some(200));
    store.harvest_focused(&ts, &[row(1000.0, "BG5ATV K1JT FN42")]);
    assert_eq!(store.hisgrid(), Some("PM00".to_string()));
}

#[test]
fn crc_budget_of_the_store() {
    let mut store = store("BG5ATV", "K1JT", 0.0, None, false, 200.0, 3000.0);
    assert!(store.take_deep_crc_decode_budget(140630));
    assert!(store.take_deep_crc_decode_budget(140630));
    assert!(!store.take_deep_crc_decode_budget(140630));
    assert!(store.take_deep_crc_decode_budget(140645));
    assert_eq!(store.deep_diagnostics().crc_attempts, 0);
}

#[test]
fn target_rows_are_shown_once() {
    let store = store("UA3QNA", "F1MLZ", 1000.0, None, false, 200.0, 3000.0);
    let mut emitted = Vec::new();
    assert!(emit_target_row(&store, &mut emitted, &row(1000.0, "CQ UA3QNA KO85")));
    assert_eq!(emitted.len(), 1);
    // The same signal again, 4 Hz off: not shown twice.
    assert!(!emit_target_row(&store, &mut emitted, &row(1004.0, "CQ UA3QNA KO85")));
    // Another station: not the target.
    assert!(!emit_target_row(&store, &mut emitted, &row(1500.0, "CQ G4ABC IO91")));
    // The target elsewhere in the band.
    assert!(emit_target_row(&store, &mut emitted, &row(1100.0, "F1MLZ UA3QNA -04")));
    assert_eq!(emitted.len(), 2);
}

fn deep_hit(snr_milli: Option<i64>) -> DeepHit {
    DeepHit {
        msg: "K1JT BG5ATV -10".to_string(),
        stat_milli: 123_500,
        margin_milli: 12_000,
        freq_mhz: 1_000_250,
        dt_ms: 420,
        snr_milli,
        conf: DeepConfidence::CrcConfirmedExperimental,
    }
}

#[test]
fn deep_row_marks_missing_snr() {
    let row = deep_hit_to_row(&deep_hit(None));
    assert_eq!(row.msg, "K1JT BG5ATV -10");
    assert_eq!(row.freq_mhz, 1_000_250);
    assert_eq!(row.dt_ms, 420);
    assert_eq!(row.snr, DX_DEEP_SNR_UNAVAILABLE);
    assert_eq!(row.sync_milli, 123_500);
    assert_eq!(row.itone, [0; 79]);
}

#[test]
fn deep_row_rounds_estimated_snr() {
    assert_eq!(deep_hit_to_row(&deep_hit(Some(-18_400))).snr, -18);
    assert_eq!(deep_hit_to_row(&deep_hit(Some(-18_500))).snr, -19);
    assert_eq!(deep_hit_to_row(&deep_hit(Some(2_500))).snr, 3);
}

#[test]
fn deep_rows_shown_only_with_experimental_output() {
    let context = store("BG5ATV", "K1JT", 1000.0, Some("PM00"), false, 900.0, 1100.0);
    let target = DxTarget::new("BG5ATV");
    let mut emitted = Vec::new();
    let mut focused = Vec::new();
    let hits = vec![deep_hit(Some(-18_400))];

    assert_eq!(emit_deep_hits_if_enabled(false, &context, &target, &mut emitted, &mut focused, &hits), 0);
    assert!(emitted.is_empty());
    assert!(focused.is_empty());

    assert_eq!(emit_deep_hits_if_enabled(true, &context, &target, &mut emitted, &mut focused, &hits), 1);
    assert_eq!(emitted.len(), 1);
    assert_eq!(focused.len(), 1);

    // The same signal again is not shown twice.
    assert_eq!(emit_deep_hits_if_enabled(true, &context, &target, &mut emitted, &mut focused, &hits), 0);
    assert_eq!(emitted.len(), 1);
}
