use ft8lib::dx_context::{
    is_grid4, is_r_report, is_signal_report, observe_qso_progress, set_tx_parity,
    should_run_focused, slot_parity, slots_between, nutc_to_seconds, DeepCrcBudget,
    DeepStackDiagnostics, MessageRole, ParityConfidence, ProgressReason, SlotTimestamp, TxParity,
    harvest_grid, spend_crc_budget,
};
use ft8lib::dx_filter::{normalize_call, normalize_message, normalize_message_word, DxTarget};

fn chars(s: &str) -> Vec<char> {
    s.chars().collect()
}

#[test]
fn target_second_call_is_sender_parity() {
    let target = DxTarget::new("UA3QNA");
    let role = MessageRole::from_message("F1MLZ UA3QNA -04", &target, None);

    assert!(role.target_sender);
    assert!(!role.target_recipient);
}

#[test]
fn target_first_call_is_recipient_parity() {
    let target = DxTarget::new("UA3QNA");
    let role = MessageRole::from_message("UA3QNA F1MLZ R-05", &target, None);

    assert!(!role.target_sender);
    assert!(role.target_recipient);
}

#[test]
fn cq_dx_target_is_sender() {
    let target = DxTarget::new("DL8YHR");
    let role = MessageRole::from_message("CQ DX DL8YHR JO41", &target, None);

    assert!(role.target_sender);
}

#[test]
fn frequency_aging_survives_midnight_rollover() {
    assert_eq!(slots_between(235945, 0), 1);
    assert_eq!(slots_between(235945, 15), 2);
}

#[test]
fn target_matches_plain_and_resolved_braced_call() {
    let target = DxTarget::new("ea5/dh0yah");

    assert!(target.matches_message("RK4FF EA5/DH0YAH 73"));
    assert!(target.matches_message("<EA5/DH0YAH> RK4FF RR73"));
    assert!(target.matches_message("EA5/DH0YAH, RK4FF RR73"));
}

#[test]
fn target_does_not_match_substrings_or_unresolved_hash() {
    let target = DxTarget::new("K1ABC");

    assert!(!target.matches_message("CQ K1ABCDE FN42"));
    assert!(!target.matches_message("<...> K1XYZ -10"));
}

#[test]
fn empty_target_matches_nothing() {
    let target = DxTarget::new("   ");
    assert!(!target.matches_message("CQ K1ABC FN42"));
    assert!(!target.matches_word(""));
}

#[test]
fn target_matches_single_words() {
    let target = DxTarget::new(" k1abc ");
    assert!(target.matches_word("<K1ABC>"));
    assert!(target.matches_word("k1abc;"));
    assert!(!target.matches_word("K1ABCD"));
}

#[test]
fn message_words_are_normalized() {
    assert_eq!(normalize_message("  cq   <k1abc>  fn42; "), "CQ K1ABC FN42");
    assert_eq!(normalize_message("<...> k1xyz -10"), "<...> K1XYZ -10");
    assert_eq!(normalize_message_word(",<ea5/dh0yah>;"), "EA5/DH0YAH");
    assert_eq!(normalize_message_word("<>"), "");
    assert_eq!(normalize_call("  ua3qna "), chars("UA3QNA"));
}

#[test]
fn mycall_role_is_reported() {
    let target = DxTarget::new("UA3QNA");
    let mycall = DxTarget::new("F1MLZ");
    let role = MessageRole::from_message("F1MLZ UA3QNA -04", &target, Some(&mycall));
    assert!(role.contains_target);
    assert!(role.contains_mycall);
    let other = MessageRole::from_message("RA3ABG K1JT -04", &target, Some(&mycall));
    assert!(!other.contains_target && !other.contains_mycall);
}

#[test]
fn qso_progress_reads_the_exchange_token() {
    let target = DxTarget::new("UA3QNA");
    let mycall = DxTarget::new("F1MLZ");
    let cases = [
        ("F1MLZ UA3QNA -04", Some(2), ProgressReason::SignalReport),
        ("F1MLZ UA3QNA R-12", Some(3), ProgressReason::RReport),
        ("F1MLZ UA3QNA RR73", Some(5), ProgressReason::Rr73),
        ("F1MLZ UA3QNA 73", Some(5), ProgressReason::SeventyThree),
        ("F1MLZ UA3QNA RRR", Some(4), ProgressReason::Rrr),
        ("F1MLZ UA3QNA KO85", Some(1), ProgressReason::Grid),
        ("F1MLZ UA3QNA HELLO", None, ProgressReason::UnknownExchange),
        ("F1MLZ UA3QNA", None, ProgressReason::NoExchangeToken),
    ];
    for (msg, progress, reason) in cases {
        let role = MessageRole::from_message(msg, &target, Some(&mycall));
        let probe = observe_qso_progress(msg, role);
        assert_eq!(probe.inferred_progress, progress, "{msg}");
        assert_eq!(probe.reason, reason, "{msg}");
        assert_eq!(probe.last_message, chars(msg));
    }
    let role = MessageRole::from_message("RA3ABG UA3QNA -04", &target, Some(&mycall));
    let probe = observe_qso_progress("RA3ABG UA3QNA -04", role);
    assert_eq!(probe.inferred_progress, None);
    assert_eq!(probe.reason, ProgressReason::NotMyTargetQso);
}

#[test]
fn exchange_token_shapes() {
    assert!(is_grid4(&chars("ko85")));
    assert!(!is_grid4(&chars("KO8")));
    assert!(is_signal_report(&chars("+05")));
    assert!(!is_signal_report(&chars("R-05")));
    assert!(is_r_report(&chars("R-05")));
    assert!(!is_r_report(&chars("r-05")));
}

#[test]
fn grid_is_the_last_grid_word() {
    assert_eq!(harvest_grid("CQ BG5ATV pm00"), Some("PM00".to_string()));
    assert_eq!(harvest_grid("K1JT BG5ATV FN42 PM01"), Some("PM01".to_string()));
    assert_eq!(harvest_grid("K1JT BG5ATV -10"), None);
}

#[test]
fn slot_time_arithmetic() {
    assert_eq!(nutc_to_seconds(140630), 14 * 3600 + 6 * 60 + 30);
    assert_eq!(slots_between(140630, 140700), 2);
    assert_eq!(slots_between(140630, 140630), 0);
    assert_eq!(slot_parity(&SlotTimestamp { nutc: 140630 }), 0);
    assert_eq!(slot_parity(&SlotTimestamp { nutc: 140645 }), 1);
}

#[test]
fn slot_labels_parse() {
    assert_eq!(SlotTimestamp::parse("140630"), Some(SlotTimestamp { nutc: 140630 }));
    assert_eq!(SlotTimestamp::parse("210703_133430"), Some(SlotTimestamp { nutc: 133430 }));
    assert_eq!(SlotTimestamp::parse("14063"), None);
    assert_eq!(SlotTimestamp::parse("14a630"), None);
}

#[test]
fn observed_parity_replaces_inferred_and_ages_out() {
    let inferred = set_tx_parity(None, 1, ParityConfidence::Inferred, 140630);
    assert_eq!(
        inferred,
        Some(TxParity { parity: 1, confidence: ParityConfidence::Inferred, last_seen_nutc: 140630 })
    );
    let observed = set_tx_parity(inferred, 0, ParityConfidence::Observed, 140645);
    assert_eq!(observed.unwrap().parity, 0);
    let kept = set_tx_parity(observed, 1, ParityConfidence::Inferred, 140700);
    assert_eq!(kept, observed);
    let stale = set_tx_parity(observed, 1, ParityConfidence::Inferred, 141100);
    assert_eq!(stale.unwrap().parity, 1);
}

#[test]
fn focused_pass_follows_fresh_observed_parity_only() {
    let observed = Some(TxParity {
        parity: 0,
        confidence: ParityConfidence::Observed,
        last_seen_nutc: 140630,
    });
    assert!(should_run_focused(observed, &SlotTimestamp { nutc: 140700 }));
    assert!(!should_run_focused(observed, &SlotTimestamp { nutc: 140715 }));
    assert!(should_run_focused(observed, &SlotTimestamp { nutc: 141115 }));
    let inferred = Some(TxParity {
        parity: 0,
        confidence: ParityConfidence::Inferred,
        last_seen_nutc: 140630,
    });
    assert!(should_run_focused(inferred, &SlotTimestamp { nutc: 140715 }));
    assert!(should_run_focused(None, &SlotTimestamp { nutc: 140715 }));
}

#[test]
fn crc_budget_is_slot_bounded() {
    let mut budget = DeepCrcBudget::new();
    assert!(budget.take(140630));
    assert!(budget.take(140630));
    assert!(!budget.take(140630));
    assert!(budget.take(140645));
    assert_eq!(budget.used, 1);

    let mut budget = DeepCrcBudget::new();
    let mut diag = DeepStackDiagnostics::default();
    spend_crc_budget(&mut budget, &mut diag, 140630, 4);
    assert_eq!(diag.crc_candidates, 4);
    assert_eq!(diag.crc_attempts, 2);
    assert_eq!(diag.crc_skipped_budget, 2);
}
