use ft8lib::dx_context::SlotTimestamp;
use ft8lib::passes::{
    active_jtdx_decode_band, jtdx_decode_bands, jtdx_numthreads, jtdx_section_order, npass,
    subtract_policy, BandConfig, IntervalKind, JtdxDecodeBand, PassConfig, SubtractPolicy,
    SyncMetricMode,
};

#[test]
fn pass_count_follows_cycles() {
    let mut config = PassConfig { swl: false, nft8cycles: 2, nft8swlcycles: 3 };
    assert_eq!(npass(&config), 6);
    config.swl = true;
    assert_eq!(npass(&config), 9);
    config.nft8swlcycles = 1;
    assert_eq!(npass(&config), 3);
    config.nft8swlcycles = 7;
    assert_eq!(npass(&config), 3);
}

#[test]
fn subtraction_stops_late_and_on_third_of_three() {
    let config = PassConfig { swl: false, nft8cycles: 1, nft8swlcycles: 1 };
    assert_eq!(subtract_policy(&config, 3, 3), SubtractPolicy::Disabled);
    assert_eq!(subtract_policy(&config, 3, 6), SubtractPolicy::Enabled);
    assert_eq!(subtract_policy(&config, 5, 9), SubtractPolicy::Enabled);
    assert_eq!(subtract_policy(&config, 6, 9), SubtractPolicy::Disabled);
    let swl = PassConfig { swl: true, nft8cycles: 1, nft8swlcycles: 1 };
    assert_eq!(subtract_policy(&swl, 3, 3), SubtractPolicy::Enabled);
}

#[test]
fn sync_metric_cycles_over_passes() {
    assert_eq!(SyncMetricMode::for_ipass(1), SyncMetricMode::Amplitude);
    assert_eq!(SyncMetricMode::for_ipass(5), SyncMetricMode::Power);
    assert_eq!(SyncMetricMode::for_ipass(9), SyncMetricMode::AbsSum);
    assert_eq!(SyncMetricMode::for_ipass(0), SyncMetricMode::Amplitude);
    assert_eq!(SyncMetricMode::for_ipass(12), SyncMetricMode::Amplitude);
}

#[test]
fn interval_of_a_slot() {
    assert_eq!(IntervalKind::from_timestamp(&SlotTimestamp { nutc: 140630 }), IntervalKind::Even);
    assert_eq!(IntervalKind::from_timestamp(&SlotTimestamp { nutc: 140600 }), IntervalKind::Even);
    assert_eq!(IntervalKind::from_timestamp(&SlotTimestamp { nutc: 140645 }), IntervalKind::Odd);
    assert_eq!(IntervalKind::from_timestamp(&SlotTimestamp { nutc: 140631 }), IntervalKind::Other);
}

#[test]
fn thread_count_from_cores_and_settings() {
    let auto = BandConfig::default();
    assert_eq!(jtdx_numthreads(&auto, 1), 1);
    assert_eq!(jtdx_numthreads(&auto, 4), 3);
    assert_eq!(jtdx_numthreads(&auto, 8), 6);
    assert_eq!(jtdx_numthreads(&auto, 64), 24);
    let filtered = BandConfig { filter: true, ..BandConfig::default() };
    assert_eq!(jtdx_numthreads(&filtered, 16), 8);
    let again = BandConfig { nagain: true, ..BandConfig::default() };
    assert_eq!(jtdx_numthreads(&again, 16), 4);
    let user = BandConfig { jtdx_threads: 4, ..BandConfig::default() };
    assert_eq!(jtdx_numthreads(&user, 2), 2);
    assert_eq!(jtdx_numthreads(&user, 8), 4);
    let too_many = BandConfig { jtdx_threads: 30, ..BandConfig::default() };
    assert_eq!(jtdx_numthreads(&too_many, 8), 1);
}

#[test]
fn band_narrows_around_the_qso_frequency() {
    let base = BandConfig { nfa: 200, nfb: 3000, nfqso: 1500, ..BandConfig::default() };
    assert_eq!(active_jtdx_decode_band(&base), (200, 3000));
    let filtered = BandConfig { filter: true, ..base };
    assert_eq!(active_jtdx_decode_band(&filtered), (1440, 1560));
    let hound = BandConfig { filter: true, lhound: true, ..base };
    assert_eq!(active_jtdx_decode_band(&hound), (1210, 1790));
    let again = BandConfig { nagain: true, ..base };
    assert_eq!(active_jtdx_decode_band(&again), (1475, 1525));
    let outside = BandConfig { filter: true, nfqso: 3500, ..base };
    assert_eq!(active_jtdx_decode_band(&outside), (200, 3000));
}

#[test]
fn sections_are_searched_from_the_middle_out() {
    assert_eq!(jtdx_section_order(0), Vec::<usize>::new());
    assert_eq!(jtdx_section_order(1), vec![0]);
    assert_eq!(jtdx_section_order(3), vec![0, 1, 2]);
    assert_eq!(jtdx_section_order(4), vec![1, 2, 0, 3]);
    assert_eq!(jtdx_section_order(5), vec![2, 1, 3, 0, 4]);
    assert_eq!(jtdx_section_order(6), vec![2, 3, 1, 4, 0, 5]);
    for n in 0..25 {
        let mut order = jtdx_section_order(n);
        order.sort();
        assert_eq!(order, (0..n).collect::<Vec<_>>());
    }
}

#[test]
fn band_is_cut_into_sections() {
    let bands = jtdx_decode_bands(200, 3000, 4);
    let b = |index: usize, nfa: i32, nfb: i32| JtdxDecodeBand { index, nfa, nfb, numthreads: 4 };
    assert_eq!(
        bands,
        vec![b(1, 901, 1600), b(2, 1601, 2300), b(0, 200, 900), b(3, 2301, 3000)]
    );
    assert_eq!(
        jtdx_decode_bands(200, 3000, 1),
        vec![JtdxDecodeBand { index: 0, nfa: 200, nfb: 3000, numthreads: 1 }]
    );
    assert_eq!(
        jtdx_decode_bands(1000, 1001, 8),
        vec![JtdxDecodeBand { index: 0, nfa: 1000, nfb: 1001, numthreads: 1 }]
    );
    let three = jtdx_decode_bands(1000, 1005, 3);
    assert_eq!(
        three,
        vec![
            JtdxDecodeBand { index: 0, nfa: 1000, nfb: 1002, numthreads: 3 },
            JtdxDecodeBand { index: 1, nfa: 1003, nfb: 1004, numthreads: 3 },
            JtdxDecodeBand { index: 2, nfa: 1005, nfb: 1005, numthreads: 3 },
        ]
    );
}

#[test]
fn band_plan_holds_near_the_ends_of_i32() {
    let top = BandConfig { nfa: i32::MAX - 100, nfb: i32::MAX, nfqso: i32::MAX, ..BandConfig::default() };
    assert_eq!(active_jtdx_decode_band(&top), (i32::MAX - 100, i32::MAX));
    let filtered = BandConfig { filter: true, nfqso: i32::MAX - 60, ..top };
    assert_eq!(active_jtdx_decode_band(&filtered), (i32::MAX - 100, i32::MAX));
    let low = jtdx_decode_bands(i32::MIN, i32::MIN + 1000, 2);
    assert_eq!(
        low,
        vec![
            JtdxDecodeBand { index: 0, nfa: i32::MIN, nfb: i32::MIN + 500, numthreads: 2 },
            JtdxDecodeBand { index: 1, nfa: i32::MIN + 501, nfb: i32::MIN + 1000, numthreads: 2 },
        ]
    );
    let wide = jtdx_decode_bands(-1_000_000_000, 1_000_000_000, 2);
    assert_eq!(wide[0].nfb, 0);
    assert_eq!(wide[1].nfa, 1);
}
