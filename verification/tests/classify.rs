use ft8lib::classify::{classify_signal, jtdx_sync_gate, ClassifyConfig, SymbolTones, SyncGate, ToneHints};

fn tones(fill: u8) -> SymbolTones {
    SymbolTones { best: [fill; 79], s256_peak9: 0, s256_peak: 0 }
}

#[test]
fn cq_by_tone_score_and_by_correlation_peak() {
    let config = ClassifyConfig::default();
    let hints = ToneHints::default();
    let mut cq = tones(7);
    for k in 7..15 {
        cq.best[k] = 0;
    }
    let r = classify_signal(&cq, &config, None, None, 1_000_000, false, 0, &hints);
    assert!(r.lcqsignal);
    assert!(!r.lmycsignal && !r.lqsosig && !r.ldxcsig);
    assert_eq!((r.nmic, r.nweak, r.nsubpasses), (0, 1, 3));

    let plain = tones(7);
    let r = classify_signal(&plain, &config, None, None, 1_000_000, false, 0, &hints);
    assert!(!r.lcqsignal);
    assert_eq!(r.nsubpasses, 1);

    let peak = SymbolTones { s256_peak9: 4, s256_peak: 6, ..tones(7) };
    assert!(classify_signal(&peak, &config, None, None, 1_000_000, false, 0, &hints).lcqsignal);
    let off_peak = SymbolTones { s256_peak9: 4, s256_peak: 5, ..tones(7) };
    assert!(!classify_signal(&off_peak, &config, None, None, 1_000_000, false, 0, &hints).lcqsignal);
    let lag5 = SymbolTones { s256_peak9: 5, ..tones(7) };
    assert!(classify_signal(&lag5, &config, None, None, 1_000_000, false, 0, &hints).lcqsignal);

    // Near the QSO frequency the weak-signal count doubles.
    let near = ClassifyConfig { nfqso_mhz: 1_001_000, ..config };
    assert_eq!(classify_signal(&plain, &near, None, None, 1_000_000, false, 0, &hints).nweak, 2);
}

#[test]
fn my_call_and_qso_candidates() {
    let best = tones(3);
    let hints = ToneHints { idtonemyc: Some([3; 58]), ..ToneHints::default() };
    let config = ClassifyConfig::default();
    let r = classify_signal(&best, &config, Some("K1ABC"), None, 1_000_000, false, 0, &hints);
    assert!(r.lmycsignal);
    assert_eq!((r.nmic, r.nsubpasses), (9, 6));
    let r = classify_signal(&best, &config, Some("K1ABC/P"), None, 1_000_000, false, 0, &hints);
    assert!(r.lmycsignal);
    assert_eq!(r.nsubpasses, 1);
    let r = classify_signal(&best, &config, None, None, 1_000_000, false, 0, &hints);
    assert!(!r.lmycsignal);

    let qso_hints = ToneHints {
        idtonemyc: Some([3; 58]),
        idtone56: vec![[3; 58]],
        ..ToneHints::default()
    };
    let qso_config = ClassifyConfig { nfqso_mhz: 1_500_000, napwid_mhz: 50_000, ..config };
    let r = classify_signal(&best, &qso_config, Some("K1ABC"), Some("W9XYZ"), 1_510_000, false, 0, &qso_hints);
    assert!(r.lqsosig && r.lqsosigtype3 && r.ldxcsig && r.lqsocandave);
    assert!(!r.lcqdxcsig && !r.lqso73 && !r.lqsorr73 && !r.lqsorrr);
    assert_eq!(r.nsubpasses, 9);
    // Once the QSO message was decoded the QSO classes are off.
    let r = classify_signal(&best, &qso_config, Some("K1ABC"), Some("W9XYZ"), 1_510_000, true, 0, &qso_hints);
    assert!(!r.lqsosig && !r.lqsocandave);
    assert_eq!(r.nsubpasses, 6);
    // Half the AP width away it is no QSO candidate.
    let r = classify_signal(&best, &qso_config, Some("K1ABC"), Some("W9XYZ"), 1_525_000, false, 0, &qso_hints);
    assert!(r.lqsosig && !r.lqsocandave);
}

#[test]
fn qso_end_messages() {
    let best = tones(3);
    let mut idtone56 = vec![[3; 58]; 56];
    let config = ClassifyConfig { nfqso_mhz: 1_500_000, napwid_mhz: 50_000, nqso_progress: 3, ..ClassifyConfig::default() };
    let hints = ToneHints { idtone56: idtone56.clone(), ..ToneHints::default() };
    let r = classify_signal(&best, &config, Some("K1ABC"), Some("W9XYZ"), 1_500_000, false, 0, &hints);
    assert!(r.lqsorrr && !r.lqso73 && !r.lqsorr73);
    idtone56[54] = [5; 58];
    idtone56[53] = [5; 58];
    let hints = ToneHints { idtone56: idtone56.clone(), ..ToneHints::default() };
    let r = classify_signal(&best, &config, Some("K1ABC"), Some("W9XYZ"), 1_500_000, false, 0, &hints);
    assert!(r.lqso73 && !r.lqsorr73 && !r.lqsorrr);
    let early = ClassifyConfig { nqso_progress: 2, ..config };
    let r = classify_signal(&best, &early, Some("K1ABC"), Some("W9XYZ"), 1_500_000, false, 0, &hints);
    assert!(!r.lqso73);
}

#[test]
fn nonstandard_dx_call_signals() {
    let best = tones(3);
    let mut cq = [3; 58];
    cq[0] = 6;
    let hints = ToneHints {
        idtonecqdxcns: Some(cq),
        idtonedxcns73: Some([3; 58]),
        ..ToneHints::default()
    };
    let config = ClassifyConfig { nfqso_mhz: 1_500_000, napwid_mhz: 50_000, ..ClassifyConfig::default() };
    let r = classify_signal(&best, &config, None, Some("PJ4/W9XYZ"), 1_500_000, false, 0, &hints);
    assert!(r.ldxcsig && r.lcqdxcnssig);
    let r = classify_signal(&best, &config, None, Some("W9XYZ"), 1_500_000, false, 0, &hints);
    assert!(!r.ldxcsig && !r.lcqdxcnssig);
}

#[test]
fn hound_view_of_fox_reports() {
    let best = tones(3);
    let hints = ToneHints {
        idtonefox73: Some([5; 58]),
        idtonespec: Some([3; 58]),
        ..ToneHints::default()
    };
    let config = ClassifyConfig { nfqso_mhz: 1_000_000, lhound: true, nqso_progress: 3, ..ClassifyConfig::default() };
    let r = classify_signal(&best, &config, None, None, 1_060_500, false, 0, &hints);
    assert!(r.lfoxspecrpt && !r.lfoxstdr73);
    assert_eq!(r.nfoxspecrpt, 12);
    let r = classify_signal(&best, &config, None, None, 1_064_000, false, 0, &hints);
    assert!(!r.lfoxspecrpt);
    assert_eq!(r.nfoxspecrpt, 0);

    let fox73 = ToneHints {
        idtonefox73: Some([3; 58]),
        idtonespec: Some([5; 58]),
        ..ToneHints::default()
    };
    let r = classify_signal(&best, &config, None, None, 1_000_000, false, 0, &fox73);
    assert!(!r.lfoxspecrpt && r.lfoxstdr73);
}

#[test]
fn sync_gate_of_candidates() {
    let plain = tones(7);
    let ranks = [10, 2, 1, 0, 0, 0, 0, 0];
    // Seven Costas tones pass; fewer only for a CQ candidate.
    assert_eq!(
        jtdx_sync_gate(&plain, false, 7, 0, ranks, 1_000_000, 1_000_000, false, false),
        Some(SyncGate { lapcqonly: false, lskipnotap: false })
    );
    assert_eq!(jtdx_sync_gate(&plain, false, 6, 9, ranks, 1_000_000, 1_000_000, false, true), None);
    assert_eq!(jtdx_sync_gate(&plain, true, 6, 4, ranks, 1_000_000, 1_000_000, false, true), None);
    assert_eq!(
        jtdx_sync_gate(&plain, true, 6, 5, ranks, 1_000_000, 1_000_000, false, true),
        Some(SyncGate { lapcqonly: true, lskipnotap: false })
    );
    // A CQ score of 7 lets a weak CQ candidate through; 6.5 does not.
    let mut cq = tones(7);
    for k in 7..14 {
        cq.best[k] = 0;
    }
    let mut weak = tones(7);
    for k in 7..13 {
        weak.best[k] = 0;
    }
    weak.best[16] = 0;
    assert_eq!(jtdx_sync_gate(&weak, true, 4, 0, ranks, 1_000_000, 1_000_000, false, true), None);
    assert_eq!(
        jtdx_sync_gate(&cq, true, 4, 0, ranks, 1_000_000, 1_000_000, false, true),
        Some(SyncGate { lapcqonly: true, lskipnotap: false })
    );
    assert_eq!(jtdx_sync_gate(&plain, true, 4, 0, ranks, 1_000_000, 1_000_000, false, true), None);
    // Costas tones ranked low: the decode without AP is skipped.
    let low = [5, 1, 1, 0, 1, 2, 1, 1];
    assert_eq!(
        jtdx_sync_gate(&plain, false, 8, 0, low, 1_000_000, 1_000_000, false, true),
        Some(SyncGate { lapcqonly: false, lskipnotap: true })
    );
    // Away from the QSO frequency the soft check decides.
    assert_eq!(jtdx_sync_gate(&plain, false, 8, 0, ranks, 1_000_000, 1_002_000, false, false), None);
    assert!(jtdx_sync_gate(&plain, false, 8, 0, ranks, 1_000_000, 1_001_999, false, false).is_some());
    assert_eq!(jtdx_sync_gate(&plain, false, 8, 0, ranks, 1_000_000, 1_000_000, true, false), None);
}
