use ft8lib::hybrid::{
    is_same_signal, merge_decodes, merge_decodes_with_source, normalized_message,
    normalized_message_word, DecodeSource, StreamDecodedMessage,
};
use ft8lib::hybrid_report::{
    classify_message, divergence_report_from_evidence, has_representation_only_diff, is_grid4,
    is_r_report, is_report, snr_bucket, DecoderId, Evidence, HybridDivergenceReport,
    MessageClass, Provenance, QsoContextOpportunityReport, SharedDecode, SharedDecodeCandidate,
    SharedEvidenceStore, SnrBucket,
};

fn decoded(freq: f64, dt: f64, msg: &str) -> StreamDecodedMessage {
    StreamDecodedMessage {
        freq_mhz: (freq * 1000.0).round() as i64,
        dt_ms: (dt * 1000.0).round() as i64,
        snr: 0,
        msg: msg.to_string(),
        sync_milli: 0,
        itone: [0; 79],
    }
}

#[test]
fn merge_decodes_deduplicates_hash_brace_display_variants() {
    let wsjtx = [decoded(1205.0, 0.6, "EA5/DH0YAH <RK4FF> RR73")];
    let jtdx = [decoded(1206.0, 0.8, "EA5/DH0YAH RK4FF RR73")];

    let merged = merge_decodes_with_source(&wsjtx, &jtdx);

    assert_eq!(merged.len(), 1);
    assert_eq!(merged[0].source, DecodeSource::Both);
    assert_eq!(merged[0].decode.msg, "EA5/DH0YAH <RK4FF> RR73");
}

#[test]
fn merge_decodes_keeps_unresolved_hash_marker_distinct() {
    let wsjtx = [decoded(1205.0, 0.6, "EA5/DH0YAH <...> RR73")];
    let jtdx = [decoded(1206.0, 0.8, "EA5/DH0YAH RK4FF RR73")];

    let merged = merge_decodes_with_source(&wsjtx, &jtdx);

    assert_eq!(merged.len(), 2);
}

#[test]
fn merge_keeps_far_signals_apart_and_orders_first_decoder_first() {
    let wsjtx = [decoded(1000.0, 0.5, "CQ K1ABC FN42"), decoded(1500.0, 0.5, "W9XYZ N0CALL -20")];
    let jtdx = [
        decoded(1006.0, 0.5, "CQ K1ABC FN42"),
        decoded(1501.0, 0.9, "W9XYZ N0CALL -20"),
        decoded(1500.0, 0.6, "w9xyz n0call -20"),
        decoded(2000.0, 0.1, "K1JT BG5ATV -10"),
    ];
    let merged = merge_decodes_with_source(&wsjtx, &jtdx);
    let sources: Vec<DecodeSource> = merged.iter().map(|row| row.source).collect();
    assert_eq!(
        sources,
        vec![
            DecodeSource::Wsjtx,
            DecodeSource::Both,
            DecodeSource::Jtdx,
            DecodeSource::Jtdx,
            DecodeSource::Jtdx
        ]
    );
    let msgs: Vec<String> = merge_decodes(&wsjtx, &jtdx).into_iter().map(|d| d.msg).collect();
    assert_eq!(msgs[0], "CQ K1ABC FN42");
    assert_eq!(msgs[2], "CQ K1ABC FN42");
    assert_eq!(msgs[4], "K1JT BG5ATV -10");
}

#[test]
fn repeated_second_decoder_rows_mark_their_first_row() {
    let jtdx = [decoded(800.0, 0.1, "K1JT BG5ATV -10"), decoded(801.0, 0.2, "K1JT BG5ATV -10")];
    let merged = merge_decodes_with_source(&[], &jtdx);
    assert_eq!(merged.len(), 1);
    assert_eq!(merged[0].source, DecodeSource::Both);
}

#[test]
fn merge_normalization_and_signal_window() {
    assert_eq!(normalized_message("ea5/dh0yah   <rk4ff>  rr73"), "EA5/DH0YAH RK4FF RR73");
    assert_eq!(normalized_message_word("<...>"), "<...>");
    assert_eq!(normalized_message_word("<>"), "<>");
    assert!(is_same_signal(&decoded(1000.0, 0.5, "A"), &decoded(1005.0, 0.7, "B")));
    assert!(!is_same_signal(&decoded(1000.0, 0.5, "A"), &decoded(1005.5, 0.5, "A")));
    assert!(!is_same_signal(&decoded(1000.0, 0.5, "A"), &decoded(1000.0, 0.81, "A")));
}

fn offer(
    store: &mut SharedEvidenceStore,
    source: DecoderId,
    provenance: Provenance,
    msg: &str,
    freq: f64,
    snr: i32,
) {
    store.offer(SharedDecodeCandidate {
        source,
        provenance,
        message: msg.to_string(),
        freq_mhz: (freq * 1000.0).round() as i64,
        dt_ms: 500,
        snr_db: snr,
    });
}

#[test]
fn divergence_report_counts_unique_rows_by_decoder_and_shape() {
    let mut store = SharedEvidenceStore::new();
    offer(&mut store, DecoderId::WSJTX, Provenance::Regular, "CQ K1ABC FN42", 1000.0, -12);
    offer(&mut store, DecoderId::JTDX, Provenance::JtdxDeep, "W9XYZ N0CALL -20", 1500.0, -21);

    let report = divergence_report_from_evidence(&store);

    assert_eq!(report.total_rows, 2);
    assert_eq!(report.wsjtx_unique_rows, 1);
    assert_eq!(report.jtdx_unique_rows, 1);
    assert_eq!(report.message_class_count(MessageClass::Cq), 1);
    assert_eq!(report.message_class_count(MessageClass::Report), 1);
    assert_eq!(report.snr_bucket_count(SnrBucket::VeryWeak), 1);
}

#[test]
fn divergence_report_keeps_shared_rows_out_of_unique_buckets() {
    let mut store = SharedEvidenceStore::new();
    offer(&mut store, DecoderId::WSJTX, Provenance::Regular, "EA5/DH0YAH <RK4FF> RR73", 1205.0, -4);
    offer(&mut store, DecoderId::JTDX, Provenance::Regular, "EA5/DH0YAH RK4FF RR73", 1206.0, -4);

    let report = divergence_report_from_evidence(&store);

    assert_eq!(report.total_rows, 1);
    assert_eq!(report.shared_rows, 1);
    assert_eq!(report.wsjtx_unique_rows, 0);
    assert_eq!(report.jtdx_unique_rows, 0);
}

#[test]
fn shared_row_with_different_texts_is_a_representation_diff() {
    let mut store = SharedEvidenceStore::new();
    offer(&mut store, DecoderId::WSJTX, Provenance::Regular, "EA5/DH0YAH <RK4FF> RR73", 1205.0, -4);
    offer(&mut store, DecoderId::JTDX, Provenance::Regular, "EA5/DH0YAH RK4FF RR73", 1206.0, -4);
    offer(&mut store, DecoderId::WSJTX, Provenance::A7Memory, "CQ K1ABC FN42", 700.0, 3);
    let report = divergence_report_from_evidence(&store);
    assert_eq!(report.representation_only_diffs, 1);
    assert_eq!(report.decoder_count(DecoderId::WSJTX), 1);
    assert_eq!(report.provenance_count(Provenance::A7Memory), 1);
    assert_eq!(report.provenance_count(Provenance::Regular), 0);
    assert_eq!(report.snr_bucket_count(SnrBucket::Strong), 1);
    let rows = store.rows();
    assert_eq!(rows[0].sources, vec![DecoderId::WSJTX, DecoderId::JTDX]);
    assert_eq!(rows[0].evidence.len(), 2);
}

#[test]
fn whitespace_only_differences_are_not_representation_diffs() {
    let row = SharedDecode {
        sources: vec![DecoderId::WSJTX, DecoderId::JTDX],
        evidence: vec![
            Evidence { provenance: Provenance::Regular, message: "K1JT  BG5ATV -10".to_string() },
            Evidence { provenance: Provenance::Regular, message: "K1JT BG5ATV -10 ".to_string() },
        ],
        message: "K1JT BG5ATV -10".to_string(),
        freq_mhz: 1_000_000,
        dt_ms: 0,
        snr_db: -10,
    };
    assert!(!has_representation_only_diff(&row));
}

#[test]
fn report_merge_adds_key_by_key() {
    let mut a = HybridDivergenceReport::default();
    a.total_rows = 2;
    a.unique_by_message_class[0] = 1;
    let mut b = HybridDivergenceReport::default();
    b.total_rows = 3;
    b.unique_by_message_class[0] = 4;
    b.unique_by_snr_bucket[3] = 2;
    a.merge(b);
    assert_eq!(a.total_rows, 5);
    assert_eq!(a.message_class_count(MessageClass::Cq), 5);
    assert_eq!(a.snr_bucket_count(SnrBucket::Strong), 2);
}

#[test]
fn message_classes() {
    assert_eq!(classify_message("cq K1ABC FN42"), MessageClass::Cq);
    assert_eq!(classify_message("<...> K1ABC RR73"), MessageClass::Hash);
    assert_eq!(classify_message("K1ABC W9XYZ rr73"), MessageClass::Rr73);
    assert_eq!(classify_message("K1ABC W9XYZ RRR"), MessageClass::Rrr);
    assert_eq!(classify_message("K1ABC W9XYZ 73"), MessageClass::SeventyThree);
    assert_eq!(classify_message("K1ABC W9XYZ R-05"), MessageClass::RReport);
    assert_eq!(classify_message("K1ABC W9XYZ +05"), MessageClass::Report);
    assert_eq!(classify_message("K1ABC W9XYZ fn42"), MessageClass::Grid);
    assert_eq!(classify_message("   "), MessageClass::FreeTextOrOther);
    assert_eq!(classify_message("HELLO WORLD"), MessageClass::FreeTextOrOther);
    assert!(is_grid4(&"FN42".chars().collect::<Vec<_>>()));
    assert!(is_report(&"-20".chars().collect::<Vec<_>>()));
    assert!(is_r_report(&"R+20".chars().collect::<Vec<_>>()));
}

#[test]
fn snr_buckets() {
    assert_eq!(snr_bucket(-21), SnrBucket::VeryWeak);
    assert_eq!(snr_bucket(-20), SnrBucket::Weak);
    assert_eq!(snr_bucket(-16), SnrBucket::Weak);
    assert_eq!(snr_bucket(-15), SnrBucket::Mid);
    assert_eq!(snr_bucket(-1), SnrBucket::Mid);
    assert_eq!(snr_bucket(0), SnrBucket::Strong);
}

#[test]
fn qso_context_opportunity_report_tracks_bounded_hints_per_slot() {
    let hints = vec![("K1ABC", 1000.0, "CQ K1ABC FN42", -7), ("N0CALL", 1500.0, "W9XYZ N0CALL -10", -3)];
    let mut report = QsoContextOpportunityReport::default();
    report.observe_slot(0);
    report.observe_slot(hints.len());

    assert_eq!(report.slots_with_hints, 1);
    assert_eq!(report.total_hints, 2);
    assert_eq!(report.max_hints_in_slot, 2);
}

#[test]
fn merged_rows_keep_their_tones_and_sync() {
    let mut a = decoded(1205.0, 0.6, "K1ABC W9XYZ -10");
    a.itone = [3; 79];
    a.sync_milli = 12_500;
    let mut b = decoded(1800.0, 0.1, "CQ DL1ABC JO62");
    b.itone[5] = 6;
    let merged = merge_decodes_with_source(&[a.clone()], &[b.clone()]);
    assert_eq!(merged.len(), 2);
    assert_eq!(merged[0].decode.itone, [3; 79]);
    assert_eq!(merged[0].decode.sync_milli, 12_500);
    assert_eq!(merged[1].decode.itone[5], 6);
}
