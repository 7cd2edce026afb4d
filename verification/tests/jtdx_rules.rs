use ft8lib::ap_subpass::{
    is_nonstandard_call, is_qso_candidate_ap_type, jtdx_ap_subpass_allowed,
    normalized_config_call, ApCallFlags, ApClassifier, ApContext, ApSettings,
};
use ft8lib::jtdx_calls::{
    deep_message_mentions_mycall_late, extract_call, is_cq_like, is_hashable_callsign_token,
    is_standard_context_call, message_base_two_calls, msgroot, normalized_context_call,
};
use ft8lib::jtdx_state::{DecodeSource, LastRxMsgText};

#[test]
fn configured_calls_are_normalized() {
    assert_eq!(normalized_config_call(Some(" <k1jt> ")), Some("K1JT".to_string()));
    assert_eq!(normalized_config_call(Some("AB")), None);
    assert_eq!(normalized_config_call(None), None);
    assert!(!is_nonstandard_call("K1JT"));
    assert!(!is_nonstandard_call("   "));
    assert!(is_nonstandard_call("<K1JT>"));
    assert!(is_nonstandard_call("EA5/DH0YAH"));
    assert!(is_nonstandard_call("ABCDEFG"));
    assert!(is_nonstandard_call("k1jt"));
}

#[test]
fn call_flags_from_the_configuration() {
    let std = ApCallFlags::from_calls(Some("K1JT"), Some("BG5ATV"));
    assert!(std.lapmyc && !std.lnomycall && std.lmycallstd);
    assert!(!std.lnohiscall && std.lhiscallstd);
    let nonstd = ApCallFlags::from_calls(Some("EA5/DH0YAH"), None);
    assert!(nonstd.lapmyc && !nonstd.lmycallstd);
    assert!(nonstd.lnohiscall && !nonstd.lhiscallstd);
    let none = ApCallFlags::from_calls(None, None);
    assert!(none.lnomycall && !none.lapmyc);
}

#[test]
fn qso_candidate_types() {
    for t in [3, 6, 11, 14, 21, 23, 24, 41, 44] {
        assert!(is_qso_candidate_ap_type(t));
    }
    for t in [1, 2, 7, 10, 15, 22, 25, 40, 45] {
        assert!(!is_qso_candidate_ap_type(t));
    }
}

#[test]
fn ap_subpasses_for_a_standard_pair() {
    let settings = ApSettings::default();
    let context = ApContext::default();
    let classifier = ApClassifier::default();
    let calls = ApCallFlags::from_calls(Some("K1JT"), Some("BG5ATV"));
    let allowed = |t: i32, classifier: ApClassifier, context: ApContext| {
        jtdx_ap_subpass_allowed(&settings, context, classifier, calls, false, true, 1, false, t)
    };
    assert!(allowed(1, classifier, context));
    assert!(!allowed(31, classifier, context));
    assert!(!allowed(3, classifier, context));
    let type3 = ApClassifier { lqsosigtype3: true, ..classifier };
    assert!(allowed(3, type3, context));
    let decoded = ApContext { lqsomsgdcd: true, ..context };
    assert!(!allowed(3, type3, decoded));
    assert!(!jtdx_ap_subpass_allowed(
        &settings, context, type3, calls, true, true, 1, false, 3
    ));
    assert!(!jtdx_ap_subpass_allowed(
        &settings, context, classifier, calls, false, false, 1, false, 1
    ));
}

#[test]
fn hound_without_mycall_skips_qso_types() {
    let settings = ApSettings { lhound: true, ..ApSettings::default() };
    let calls = ApCallFlags::from_calls(None, Some("BG5ATV"));
    let stop = ApContext { stophint: true, ..ApContext::default() };
    let cq = ApClassifier { lcqsignal: true, ..ApClassifier::default() };
    assert!(!jtdx_ap_subpass_allowed(&settings, stop, cq, calls, false, true, 1, false, 5));
    assert!(jtdx_ap_subpass_allowed(&settings, stop, cq, calls, false, true, 1, false, 1));
    assert!(jtdx_ap_subpass_allowed(&settings, stop, cq, calls, false, true, 1, false, 31));
    assert!(!jtdx_ap_subpass_allowed(&settings, stop, cq, calls, false, true, 1, true, 31));
}

#[test]
fn qso_candidate_signal_limits_subpasses() {
    let settings = ApSettings::default();
    let calls = ApCallFlags::from_calls(Some("K1JT"), Some("BG5ATV"));
    let qso = ApClassifier { lqsocandave: true, lqsosigtype3: true, ..ApClassifier::default() };
    let ctx = ApContext::default();
    assert!(!jtdx_ap_subpass_allowed(&settings, ctx, qso, calls, false, true, 4, false, 3));
    assert!(jtdx_ap_subpass_allowed(&settings, ctx, qso, calls, false, true, 9, false, 3));
    assert!(!jtdx_ap_subpass_allowed(&settings, ctx, qso, calls, false, true, 9, false, 1));
}

#[test]
fn last_received_text_keeps_37_bytes() {
    let text = LastRxMsgText::from_str("K1JT BG5ATV RR73");
    assert_eq!(text.as_str(), "K1JT BG5ATV RR73");
    let long = "ABCDEFGHIJ".repeat(4);
    assert_eq!(LastRxMsgText::from_str(&long).as_str(), &long[..37]);
    let split = format!("{}é", "A".repeat(36));
    assert_eq!(LastRxMsgText::from_str(&split).as_str(), "");
    let whole = format!("{}é", "A".repeat(35));
    assert_eq!(LastRxMsgText::from_str(&whole).as_str(), whole);
    assert_eq!(LastRxMsgText::from_str("").as_str(), "");
    assert_ne!(DecodeSource::Ft8s, DecodeSource::Ft8sd);
}

#[test]
fn cq_like_messages() {
    assert!(is_cq_like("CQ K1ABC FN42"));
    assert!(is_cq_like("DE K1ABC"));
    assert!(is_cq_like("QRZ K1ABC"));
    assert!(!is_cq_like("CQDX K1ABC"));
}

#[test]
fn call_of_a_message() {
    assert_eq!(extract_call("CQ K1ABC FN42"), Some("K1ABC".to_string()));
    assert_eq!(extract_call("CQ DX K1ABC FN42"), Some("K1ABC".to_string()));
    assert_eq!(extract_call("CQ POTA K1ABC FN42"), Some("K1ABC".to_string()));
    assert_eq!(extract_call("CQ K1AB FN42"), Some("K1AB".to_string()));
    assert_eq!(extract_call("CQ W1A FN42"), Some("W1A".to_string()));
    assert_eq!(extract_call("CQ 3DA K1ABC"), Some("K1ABC".to_string()));
    assert_eq!(extract_call("K1JT BG5ATV -10"), Some("BG5ATV".to_string()));
    assert_eq!(extract_call("AB C"), None);
    assert_eq!(extract_call("CQ"), None);
    assert_eq!(extract_call("   "), None);
}

#[test]
fn context_calls() {
    assert_eq!(normalized_context_call(Some("<k1jt>")), Some("K1JT".to_string()));
    assert!(is_standard_context_call(Some("k1jt")));
    assert!(!is_standard_context_call(Some("EA5/DH0YAH")));
    assert!(!is_standard_context_call(Some("AB")));
    assert!(!is_standard_context_call(None));
}

#[test]
fn hashable_tokens() {
    assert!(is_hashable_callsign_token("K1JT"));
    assert!(is_hashable_callsign_token("<K1JT>"));
    assert!(is_hashable_callsign_token("EA5/DH0YAH"));
    assert!(!is_hashable_callsign_token("FN42"));
    assert!(!is_hashable_callsign_token("RR73"));
    assert!(!is_hashable_callsign_token("cq"));
    assert!(!is_hashable_callsign_token("ABC"));
    assert!(!is_hashable_callsign_token("K1"));
    assert!(!is_hashable_callsign_token("<...>"));
}

#[test]
fn message_roots_and_mentions() {
    assert_eq!(message_base_two_calls("K1JT BG5ATV -10"), Some("K1JT BG5ATV".to_string()));
    assert_eq!(message_base_two_calls("K1JT BG5ATV"), None);
    assert_eq!(msgroot(Some(" K1JT "), Some("BG5ATV")), Some("K1JT BG5ATV ".to_string()));
    assert_eq!(msgroot(Some("K1"), Some("BG5ATV")), None);
    assert_eq!(msgroot(None, Some("BG5ATV")), None);
    assert!(deep_message_mentions_mycall_late(Some("K1JT"), "BG5ATV K1JT RR73"));
    assert!(!deep_message_mentions_mycall_late(Some("K1J"), "BG5ATV K1J RR73"));
    assert!(!deep_message_mentions_mycall_late(Some("K1JT"), "K1JT BG5ATV"));
    assert!(!deep_message_mentions_mycall_late(Some("K1JT"), " K1JT BG5ATV"));
    assert!(!deep_message_mentions_mycall_late(None, "BG5ATV K1JT RR73"));
}
