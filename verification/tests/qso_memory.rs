use ft8lib::ft8_mod1::{
    call_dt_xdt, clear_sd_candidate, find_sd_candidate, is_duplicate_decode, jtdx_stream_provenance,
    last_rx_is_rrr, prepare_qso_memory, rejects_special_deep_decode, reset_decode_arrays,
    restore_lastrx_from_incall, result_variants, rotate_odd_even_memory, save_call_dt,
    save_decode_state, save_incall, save_odd_even_message, should_save_odd_even_message,
    update_deep_false_state, update_qso_memory, Ft8Mod1, record_ft8b_result, JtdxDecode, QsoSettings,
    is_qso_thread,
};
use ft8lib::hybrid_report::Provenance;
use ft8lib::jtdx_state::DecodeSource;
use ft8lib::passes::{BandConfig, IntervalKind};

const MY: Option<&str> = Some("K1ABC");
const HIS: Option<&str> = Some("W9XYZ");

#[test]
fn new_memory_has_fixed_tables() {
    let m = Ft8Mod1::new();
    assert_eq!(m.allmessages.len(), 200);
    assert_eq!(m.calldteven.len(), 150);
    assert_eq!(m.incall.len(), 30);
    assert_eq!(m.even.len(), 130);
    assert_eq!(m.msgsrcvd.len(), 130);
    assert!(!m.lastrxmsg.lstate);
}

#[test]
fn recorded_decodes_are_duplicates() {
    let mut m = Ft8Mod1::new();
    assert!(is_duplicate_decode(&m, false, "   ", -5, 1_000_000, 1));
    assert!(!is_duplicate_decode(&m, false, "CQ W9XYZ EN37", -5, 1_000_000, 1));
    save_decode_state(&mut m, "CQ W9XYZ EN37", -5, 1_000_000);
    assert_eq!((m.ndecodes, m.nmsg), (1, 1));
    assert!(is_duplicate_decode(&m, false, " CQ W9XYZ EN37 ", -5, 1_000_000, 1));
    // Stronger and 44 Hz away: a duplicate only with several threads.
    assert!(!is_duplicate_decode(&m, false, "CQ W9XYZ EN37", -2, 1_044_000, 1));
    assert!(is_duplicate_decode(&m, false, "CQ W9XYZ EN37", -2, 1_044_000, 4));
    // 45 Hz away and weaker: a duplicate only with duplicates hidden.
    assert!(!is_duplicate_decode(&m, false, "CQ W9XYZ EN37", -9, 1_045_000, 4));
    assert!(is_duplicate_decode(&m, true, "CQ W9XYZ EN37", -9, 1_045_000, 4));
    assert!(!is_duplicate_decode(&m, true, "CQ W9XYZ EN37", -2, 1_045_000, 4));
    reset_decode_arrays(&mut m);
    assert_eq!(m.ndecodes, 0);
    assert!(!is_duplicate_decode(&m, true, "CQ W9XYZ EN37", -9, 1_000_000, 4));
}

#[test]
fn odd_even_tables_rotate() {
    let mut m = Ft8Mod1::new();
    save_odd_even_message(&mut m, MY, "W9XYZ G4ABC -10", 1_500_000, 300, IntervalKind::Even, 1, false, false, DecodeSource::Regular);
    assert!(m.even[0].lstate);
    assert_eq!(m.even[0].msg, "W9XYZ G4ABC -10");
    rotate_odd_even_memory(&mut m, IntervalKind::Even);
    assert!(!m.even[0].lstate);
    assert!(m.evencopy[0].lstate);
    assert_eq!((m.evencopy[0].freq_mhz, m.evencopy[0].dt_ms), (1_500_000, 300));
    // A candidate within 3 Hz and 190 ms may repeat it.
    assert_eq!(find_sd_candidate(&m, IntervalKind::Even, 1_502_000, 480), Some(0));
    assert_eq!(find_sd_candidate(&m, IntervalKind::Even, 1_503_000, 300), None);
    assert_eq!(find_sd_candidate(&m, IntervalKind::Odd, 1_500_000, 300), None);
    clear_sd_candidate(&mut m, IntervalKind::Even, Some(0));
    assert_eq!(find_sd_candidate(&m, IntervalKind::Even, 1_500_000, 300), None);
    rotate_odd_even_memory(&mut m, IntervalKind::Other);
    assert!(!m.evencopy[0].lstate && m.evencopy[0].msg.is_empty());
}

#[test]
fn which_decodes_the_interval_tables_keep() {
    let regular = DecodeSource::Regular;
    assert!(should_save_odd_even_message(MY, "W9XYZ G4ABC -10", 1, false, false, regular));
    assert!(should_save_odd_even_message(MY, "CQ PJ4/K1ABC", 4, false, true, regular));
    assert!(!should_save_odd_even_message(MY, "K1ABC W9XYZ -10", 1, false, false, regular));
    assert!(!should_save_odd_even_message(MY, "W9XYZ <G4ABC> -10", 1, false, false, regular));
    assert!(!should_save_odd_even_message(MY, "W9XYZ G4ABC/P -10", 1, false, false, regular));
    assert!(should_save_odd_even_message(MY, "CQ G4ABC/P IO91", 1, false, false, regular));
    assert!(!should_save_odd_even_message(MY, "W9XYZ G4ABC -10", 0, false, false, regular));
    assert!(should_save_odd_even_message(MY, "W9XYZ G4ABC -10", 0, false, false, DecodeSource::Ft8sd));
    assert!(should_save_odd_even_message(MY, "W9XYZ G4ABC -10", 1, false, false, DecodeSource::Ft8s));
    assert!(!should_save_odd_even_message(MY, "W9XYZ G4ABC -10", 1, true, false, regular));
}

#[test]
fn calls_heard_and_messages_to_me() {
    let mut m = Ft8Mod1::new();
    save_call_dt(&mut m, "CQ W9XYZ EN37", 400, IntervalKind::Odd, false);
    save_call_dt(&mut m, "G4ABC N0CALL R-10", 700, IntervalKind::Odd, false);
    assert_eq!(m.calldtodd[0].call2, "N0CALL");
    assert_eq!(m.calldtodd[1].call2, "W9XYZ");
    assert_eq!(m.calldtodd.len(), 150);
    assert_eq!(call_dt_xdt(&m, Some(" W9XYZ "), IntervalKind::Odd), Some(400));
    assert_eq!(call_dt_xdt(&m, Some("W9XYZ"), IntervalKind::Even), None);
    assert_eq!(call_dt_xdt(&m, Some("  "), IntervalKind::Odd), None);
    save_call_dt(&mut m, "CQ W9XYZ EN37", 400, IntervalKind::Odd, true);
    assert_eq!(m.calldtodd[0].call2, "N0CALL");

    save_incall(&mut m, MY, "K1ABC W9XYZ -12", 250);
    save_incall(&mut m, MY, "W9XYZ K1ABC -12", 250);
    assert_eq!(m.incall[0].msg, "K1ABC W9XYZ -12");
    assert_eq!(m.incall[1].msg, "");
    assert_eq!(m.incall.len(), 30);
    assert!(restore_lastrx_from_incall(&mut m, MY, HIS));
    assert!(m.lastrxmsg.lstate);
    assert_eq!((m.lastrxmsg.lastmsg.as_str(), m.lastrxmsg.xdt_ms), ("K1ABC W9XYZ -12", 250));
}

#[test]
fn qso_memory_follows_the_qso() {
    let mut m = Ft8Mod1::new();
    update_qso_memory(
        &mut m, MY, HIS, true, 1_500_000, "K1ABC W9XYZ RRR", 1_501_000, 200,
        IntervalKind::Even, 1, false, false, DecodeSource::Regular,
    );
    assert!(m.lqsomsgdcd);
    assert!(last_rx_is_rrr(&m, MY, HIS));
    assert_eq!(m.lasthcall, "W9XYZ");
    assert_eq!(m.incall[0].msg, "K1ABC W9XYZ RRR");
    // A new QSO partner: the last message is forgotten.
    prepare_qso_memory(&mut m, MY, Some("G4ABC"), false, false, IntervalKind::Even);
    assert!(!m.lastrxmsg.lstate);
    // Back to him: looked up again among the messages to me.
    prepare_qso_memory(&mut m, MY, HIS, false, true, IntervalKind::Even);
    assert!(m.lastrxmsg.lstate);
    assert_eq!(m.lastrxmsg.lastmsg, "K1ABC W9XYZ RRR");
    // Without his call everything is cleared.
    prepare_qso_memory(&mut m, MY, None, false, true, IntervalKind::Even);
    assert!(!m.lastrxmsg.lstate);
    assert!(m.lasthcall.is_empty());

    // Off the QSO frequency only the tables change.
    let mut far = Ft8Mod1::new();
    update_qso_memory(
        &mut far, MY, HIS, true, 1_500_000, "K1ABC W9XYZ RRR", 1_502_000, 200,
        IntervalKind::Even, 1, false, false, DecodeSource::Regular,
    );
    assert!(!far.lqsomsgdcd && !far.lastrxmsg.lstate);
}

#[test]
fn deep_decodes_and_replies_to_others() {
    let mut m = Ft8Mod1::new();
    assert!(!rejects_special_deep_decode(&m, MY, DecodeSource::Ft8s, "W9XYZ G4ABC -10"));
    assert!(rejects_special_deep_decode(&m, MY, DecodeSource::Ft8s, "W9XYZ K1ABC -10"));
    assert!(!rejects_special_deep_decode(&m, MY, DecodeSource::Ft8s, "K1ABC W9XYZ -10"));
    assert!(!rejects_special_deep_decode(&m, MY, DecodeSource::Regular, "W9XYZ K1ABC -10"));
    // His call answering someone else at the QSO frequency.
    update_deep_false_state(&mut m, MY, HIS, 2, 1_500_000, 1_501_000, 1, DecodeSource::Regular, "G4ABC W9XYZ R-10");
    assert!(m.lrepliedother);
    assert_eq!(m.msgsrcvd[0], "G4ABC W9XYZ");
    assert!(rejects_special_deep_decode(&m, MY, DecodeSource::Ft8s, "W9XYZ G4ABC -10"));
    assert!(rejects_special_deep_decode(&m, MY, DecodeSource::Ft8sd, "G4ABC W9XYZ RR73"));
    assert!(!rejects_special_deep_decode(&m, MY, DecodeSource::Ft8sd, "N0CALL W9XYZ RR73"));

    let mut cq = Ft8Mod1::new();
    update_deep_false_state(&mut cq, MY, HIS, 3, 1_500_000, 1_500_500, 1, DecodeSource::Regular, "CQ DX W9XYZ EN37");
    assert!(cq.lrepliedother);
    assert!(cq.msgsrcvd[0].is_empty());
    // Away from the QSO frequency nothing is concluded.
    let mut far = Ft8Mod1::new();
    update_deep_false_state(&mut far, MY, HIS, 3, 1_500_000, 1_503_000, 1, DecodeSource::Regular, "CQ W9XYZ EN37");
    assert!(!far.lrepliedother);
    // A decode already recorded nearby changes nothing.
    let mut seen = Ft8Mod1::new();
    save_decode_state(&mut seen, "G4ABC W9XYZ R-10", -3, 1_510_000);
    update_deep_false_state(&mut seen, MY, HIS, 2, 1_500_000, 1_501_000, 1, DecodeSource::Regular, "G4ABC W9XYZ R-10");
    assert!(!seen.lrepliedother);
}

#[test]
fn variants_and_provenance() {
    assert_eq!(result_variants("A B C", "D E F", true), vec!["A B C".to_string(), "D E F".to_string()]);
    assert_eq!(result_variants("A B C", "  ", true), vec!["A B C".to_string()]);
    assert_eq!(result_variants("A B C", "D E F", false), vec!["A B C".to_string()]);
    assert_eq!(jtdx_stream_provenance(DecodeSource::Regular, 0), Provenance::Regular);
    assert_eq!(jtdx_stream_provenance(DecodeSource::Regular, 3), Provenance::A7Memory);
    assert_eq!(jtdx_stream_provenance(DecodeSource::Ft8sd, 0), Provenance::JtdxDeep);
}

fn decode(msg37: &str, msg37_2: &str, l_special: bool, source: DecodeSource) -> JtdxDecode {
    JtdxDecode {
        msg37: msg37.to_string(),
        msg37_2: msg37_2.to_string(),
        l_special,
        source,
        i3: 1,
        iaptype: 0,
        nsnr: -8,
        freq_mhz: 1_500_500,
        dt_ms: 100,
        l_free_text: false,
        l_hashmsg: false,
    }
}

#[test]
fn decodes_are_taken_in_once() {
    let settings = QsoSettings {
        in_thread: true,
        nfqso_mhz: 1_500_000,
        nqso_progress: 2,
        hide_dupes: false,
        numthreads: 1,
    };
    let mut m = Ft8Mod1::new();
    let d = decode("K1ABC W9XYZ R-12", "", false, DecodeSource::Regular);
    let out = record_ft8b_result(&mut m, MY, HIS, &settings, &d, IntervalKind::Odd, None);
    assert_eq!(out, vec!["K1ABC W9XYZ R-12".to_string()]);
    assert_eq!(m.ndecodes, 1);
    assert!(m.lqsomsgdcd && m.lastrxmsg.lstate);
    let again = record_ft8b_result(&mut m, MY, HIS, &settings, &d, IntervalKind::Odd, None);
    assert!(again.is_empty());
    assert_eq!(m.ndecodes, 1);

    // A special decode reports both of its texts.
    let special = decode("W9XYZ RR73; G4ABC <K1ABC> -08", "G4ABC K1ABC -08", true, DecodeSource::Regular);
    let out = record_ft8b_result(&mut m, MY, HIS, &settings, &special, IntervalKind::Odd, None);
    assert_eq!(out.len(), 2);
    assert_eq!(m.ndecodes, 3);

    // A matched-filter decode after a reply to someone else is refused.
    let mut other = Ft8Mod1::new();
    other.lrepliedother = true;
    let deep = decode("K1ABC W9XYZ RR73", "", false, DecodeSource::Ft8s);
    assert!(record_ft8b_result(&mut other, MY, HIS, &settings, &deep, IntervalKind::Odd, None).is_empty());
    assert!(!other.lft8sdec);
    let mut fresh = Ft8Mod1::new();
    assert_eq!(record_ft8b_result(&mut fresh, MY, HIS, &settings, &deep, IntervalKind::Odd, None).len(), 1);
    assert!(fresh.lft8sdec);
}

#[test]
fn qso_thread_needs_the_qso_frequency_in_the_decoded_band() {
    let wide = BandConfig { nfa: 200, nfb: 3000, nfqso: 1500, ..BandConfig::default() };
    assert!(is_qso_thread(&wide));
    assert!(!is_qso_thread(&BandConfig { nfqso: 3500, ..wide }));
    assert!(is_qso_thread(&BandConfig { filter: true, ..wide }));
}
