use ft8lib::ap_subpass::{ApCallFlags, ApClassifier};
use ft8lib::ft8b_plan::{
    ap_llr_source, ap_ndeep, jtdx_config_calls_standard, jtdx_qso_plan, nsubpasses_with_csold,
    plan_ap_subpasses, qso_attempts, regular_llr_source, DepthConfig, DepthSignal, MetricSet,
    QsoContext, QsoPlan, sync8d_metric, Sync8dContext, Sync8dMetric,
};

fn plan(nqso: usize, xdt0_ms: i64, lvirtual2: bool, lvirtual3: bool) -> QsoPlan {
    QsoPlan { nqso, xdt0_ms, lvirtual2, lvirtual3 }
}

#[test]
fn qso_attempt_lists() {
    assert_eq!(qso_attempts(plan(1, 0, false, false)), vec![1]);
    assert_eq!(qso_attempts(plan(2, 0, false, false)), vec![1, 2]);
    assert_eq!(qso_attempts(plan(3, 0, false, false)), vec![1, 2, 3]);
    assert_eq!(qso_attempts(plan(4, 0, false, false)), vec![1, 4]);
    assert_eq!(qso_attempts(plan(7, 0, false, false)), vec![1]);
    assert_eq!(qso_attempts(plan(3, 0, true, false)), vec![2]);
    assert_eq!(qso_attempts(plan(3, 0, false, true)), vec![2, 3]);
}

fn qso_context() -> QsoContext {
    QsoContext { nlasttx: 2, levenint: true, ..QsoContext::default() }
}

#[test]
fn qso_plan_near_the_qso_frequency() {
    let band = (200_000, 3_000_000, 1_500_000);
    // A candidate 2 Hz off the QSO frequency gets the second message only.
    let p = jtdx_qso_plan(band.0, band.1, band.2, Some("W9XYZ"), 1_502_000, 300, qso_context());
    assert_eq!(p, plan(2, 300, false, false));
    // Right on it, with his call set, a late candidate stands for the
    // previous interval at the last reception's time.
    let ctx = QsoContext { last_rx_xdt_ms: Some(400), ..qso_context() };
    let p = jtdx_qso_plan(band.0, band.1, band.2, Some("W9XYZ"), 1_500_050, 5_000, ctx);
    assert_eq!(p, plan(2, 400, true, false));
    // Without interval memory the virtual flags are cleared.
    let ctx = QsoContext { last_rx_xdt_ms: Some(400), levenint: false, ..qso_context() };
    let p = jtdx_qso_plan(band.0, band.1, band.2, Some("W9XYZ"), 1_500_050, 5_000, ctx);
    assert_eq!(p, plan(2, 400, false, false));
    // An early one stands for the next interval at the call's time.
    let ctx = QsoContext { call_dt_xdt_ms: Some(-100), ..qso_context() };
    let p = jtdx_qso_plan(band.0, band.1, band.2, Some("W9XYZ"), 1_500_000, -5_000, ctx);
    assert_eq!(p, plan(3, -100, false, true));
}

#[test]
fn qso_plan_outside_the_qso_thread() {
    let ctx = QsoContext { has_sd_msg: true, ..qso_context() };
    // QSO frequency outside the band: only the stored message try.
    let p = jtdx_qso_plan(200_000, 1_000_000, 1_500_000, Some("W9XYZ"), 1_500_000, 0, ctx);
    assert_eq!(p, plan(4, 0, false, false));
    // Too far off in frequency for the second message.
    let p = jtdx_qso_plan(200_000, 3_000_000, 1_500_000, Some("W9XYZ"), 1_502_510, 0, qso_context());
    assert_eq!(p, plan(1, 0, false, false));
    // A last reception too far off in time.
    let ctx = QsoContext { last_rx_xdt_ms: Some(200), ..qso_context() };
    let p = jtdx_qso_plan(200_000, 3_000_000, 1_500_000, None, 1_500_000, 380, ctx);
    assert_eq!(p, plan(1, 380, false, false));
    let p = jtdx_qso_plan(200_000, 3_000_000, 1_500_000, None, 1_500_000, 379, ctx);
    assert_eq!(p, plan(2, 379, false, false));
}

#[test]
fn ap_subpass_plans() {
    let standard = ApCallFlags::from_calls(Some("K1ABC"), Some("W9XYZ"));
    assert!(plan_ap_subpasses(false, 0, false, standard).is_empty());
    let first = plan_ap_subpasses(true, 0, false, standard);
    let expected: Vec<(usize, i32)> = vec![
        (17, 2), (18, 2), (19, 2), (20, 1), (21, 1), (22, 1), (23, 31), (24, 31), (25, 31),
        (26, 36), (27, 36), (28, 36), (29, 35), (30, 35), (31, 35),
    ];
    assert_eq!(first, expected);
    let hound = plan_ap_subpasses(true, 9, true, standard);
    assert!(hound.is_empty());
    let hound1 = plan_ap_subpasses(true, 1, true, standard);
    assert_eq!(hound1[0], (5, 21));
    assert_eq!(hound1.len(), 12);
}

#[test]
fn subpasses_with_stored_spectra() {
    let qso = ApClassifier { lqsocandave: true, lmycsignal: true, ..ApClassifier::default() };
    let my = ApClassifier { lmycsignal: true, lcqsignal: true, ..ApClassifier::default() };
    let cq = ApClassifier { lcqsignal: true, ..ApClassifier::default() };
    assert_eq!(nsubpasses_with_csold(&qso, 3, true), 11);
    assert_eq!(nsubpasses_with_csold(&my, 3, true), 8);
    assert_eq!(nsubpasses_with_csold(&cq, 3, true), 5);
    assert_eq!(nsubpasses_with_csold(&ApClassifier::default(), 3, true), 3);
    assert_eq!(nsubpasses_with_csold(&qso, 3, false), 3);
}

#[test]
fn ap_search_depths() {
    let config = DepthConfig {
        nagain: false,
        lhound: false,
        nfqso_mhz: 1_500_000,
        nftx_mhz: 1_800_000,
        napwid_mhz: 50_000,
    };
    let qso = DepthSignal { lqsosig: true, ..DepthSignal::default() };
    let dx = DepthSignal { ldxcsig: true, ..DepthSignal::default() };
    assert_eq!(ap_ndeep(&config, Some("K1ABC"), None, qso, false, false, 1_520_000, 3), 4);
    assert_eq!(ap_ndeep(&config, Some("K1ABC"), None, qso, false, false, 1_550_000, 3), 3);
    assert_eq!(ap_ndeep(&config, Some("K1ABC"), None, qso, false, false, 1_790_000, 3), 4);
    assert_eq!(ap_ndeep(&config, None, None, qso, false, false, 1_790_000, 3), 3);
    assert_eq!(ap_ndeep(&config, Some("K1ABC"), None, qso, false, false, 1_520_000, 0), 3);
    assert_eq!(ap_ndeep(&config, Some("K1ABC"), Some("W9XYZ"), qso, false, false, 1_520_000, 3), 3);
    assert_eq!(ap_ndeep(&config, None, None, dx, false, true, 1_520_000, 3), 4);
    assert_eq!(ap_ndeep(&config, None, None, dx, false, false, 1_520_000, 3), 3);
    let hound = DepthConfig { lhound: true, ..config };
    assert_eq!(ap_ndeep(&hound, None, None, dx, false, true, 1_520_000, 3), 3);
    let again = DepthConfig { nagain: true, ..config };
    assert_eq!(ap_ndeep(&again, None, None, qso, false, false, 1_520_000, 3), 5);
}

#[test]
fn metric_sets_of_sub_passes() {
    assert_eq!(regular_llr_source(false, 1, 1, 1), MetricSet::D);
    assert_eq!(regular_llr_source(true, 1, 1, 1), MetricSet::A);
    assert_eq!(regular_llr_source(true, 2, 2, 1), MetricSet::D);
    assert_eq!(regular_llr_source(true, 2, 2, 2), MetricSet::A);
    assert_eq!(regular_llr_source(true, 2, 1, 2), MetricSet::B);
    assert_eq!(regular_llr_source(true, 2, 1, 3), MetricSet::C);
    assert_eq!(regular_llr_source(true, 2, 1, 4), MetricSet::D);
    assert_eq!(ap_llr_source(5, 1), MetricSet::C);
    assert_eq!(ap_llr_source(6, 1), MetricSet::B);
    assert_eq!(ap_llr_source(7, 1), MetricSet::A);
    assert_eq!(ap_llr_source(10, 1), MetricSet::A);
    assert_eq!(ap_llr_source(10, 5), MetricSet::B);
    assert_eq!(ap_llr_source(13, 4), MetricSet::B);
    assert_eq!(ap_llr_source(11, 4), MetricSet::C);
}

#[test]
fn standard_call_pairs() {
    assert!(jtdx_config_calls_standard(Some("k1abc"), Some("<W9XYZ>")));
    assert!(!jtdx_config_calls_standard(Some("K1ABC"), Some("W9XYZ/P")));
    assert!(!jtdx_config_calls_standard(Some("K1ABC"), None));
    assert!(!jtdx_config_calls_standard(Some("AB"), Some("W9XYZ")));
}

#[test]
fn fine_sync_sum_follows_the_pass() {
    let ctx = |ipass: usize, lastsync: bool| Sync8dContext {
        ipass,
        lastsync,
        iqso: 0,
        lcq: false,
        lcallsstd: true,
        lcqcand: false,
    };
    for ipass in [1, 5, 9] {
        assert_eq!(sync8d_metric(&ctx(ipass, false)), Sync8dMetric::Magnitude);
    }
    for ipass in [2, 6, 7, 0, 10] {
        assert_eq!(sync8d_metric(&ctx(ipass, false)), Sync8dMetric::Power);
    }
    for ipass in [3, 4, 8] {
        assert_eq!(sync8d_metric(&ctx(ipass, false)), Sync8dMetric::PairAveragedAbs);
    }
    assert_eq!(sync8d_metric(&ctx(1, true)), Sync8dMetric::Power);
    assert_eq!(sync8d_metric(&ctx(3, true)), Sync8dMetric::Power);
}
