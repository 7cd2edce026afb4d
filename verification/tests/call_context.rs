use ft8lib::call_context::{qso_hint_from_shared_decode, ActiveCallContext, HintRow};
use ft8lib::hybrid_report::Provenance;

fn offer(rows: &mut Vec<HintRow>, msg: &str, freq: f64, snr: i32, provenance: Provenance) {
    rows.push(HintRow {
        message: msg.to_string(),
        freq_mhz: (freq * 1000.0).round() as i64,
        snr_db: snr,
        confirmed: provenance == Provenance::Regular,
    });
}

#[test]
fn active_call_context_keeps_bounded_best_confirmed_regular_hints() {
    let mut store = Vec::new();
    offer(&mut store, "CQ K1ABC FN42", 1000.0, -12, Provenance::Regular);
    offer(&mut store, "W9XYZ N0CALL -10", 1500.0, -3, Provenance::Regular);
    offer(&mut store, "K1ABC W1AW RR73", 900.0, -20, Provenance::Regular);

    let mut context = ActiveCallContext::new(2);
    context.update_from_evidence(&store);

    assert_eq!(context.hints().len(), 2);
    assert_eq!(context.hints()[0].hiscall, "N0CALL");
    assert_eq!(context.hints()[1].hiscall, "K1ABC");
}

#[test]
fn active_call_context_ignores_assisted_and_unresolved_hash_rows() {
    let mut store = Vec::new();
    offer(&mut store, "K1ABC W9XYZ RR73", 1200.0, -10, Provenance::A7Memory);
    offer(&mut store, "<...> US5VAC -13", 588.0, -13, Provenance::Regular);

    let mut context = ActiveCallContext::new(4);
    context.update_from_evidence(&store);

    assert!(context.hints().is_empty());
}

#[test]
fn hints_keep_the_best_per_call_across_slots() {
    let mut context = ActiveCallContext::new(3);
    let mut slot1 = Vec::new();
    offer(&mut slot1, "G4ABC K1ABC -15", 1000.0, -15, Provenance::Regular);
    offer(&mut slot1, "G4ABC W9XYZ -15", 1100.0, -15, Provenance::Regular);
    context.update_from_evidence(&slot1);
    // Equal scores go by call.
    assert_eq!(context.hints()[0].hiscall, "K1ABC");
    assert_eq!(context.hints()[1].hiscall, "W9XYZ");
    let mut slot2 = Vec::new();
    offer(&mut slot2, "CQ W9XYZ EN37", 1200.0, -9, Provenance::Regular);
    offer(&mut slot2, "N0CALL K1ABC R-20", 1300.0, -20, Provenance::Regular);
    context.update_from_evidence(&slot2);
    assert_eq!(context.hints().len(), 2);
    assert_eq!(context.hints()[0].hiscall, "W9XYZ");
    assert_eq!(context.hints()[0].score, -4);
    assert_eq!(context.hints()[0].nfqso_mhz, 1_200_000);
    assert_eq!(context.hints()[1].hiscall, "K1ABC");
    assert_eq!(context.hints()[1].score, -15);
}

#[test]
fn hints_from_rows() {
    let row = |msg: &str, snr: i32, confirmed: bool| HintRow {
        message: msg.to_string(),
        freq_mhz: 700_000,
        snr_db: snr,
        confirmed,
    };
    let h = qso_hint_from_shared_decode(&row("cq <k1abc> FN42", -10, true)).unwrap();
    assert_eq!((h.hiscall.as_str(), h.score, h.source_message.as_str()), ("K1ABC", -5, "cq <k1abc> FN42"));
    let h = qso_hint_from_shared_decode(&row("CQ K1ABC", -10, true)).unwrap();
    assert_eq!(h.score, -10);
    assert!(qso_hint_from_shared_decode(&row("CQ K1ABC FN42", -10, false)).is_none());
    assert!(qso_hint_from_shared_decode(&row("CQ DX K1ABC FN42", -10, true)).is_none());
    assert!(qso_hint_from_shared_decode(&row("K1ABC", -10, true)).is_none());
    assert!(qso_hint_from_shared_decode(&row("W9XYZ <...> RR73", -10, true)).is_none());
}
