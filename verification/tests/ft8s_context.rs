use ft8lib::ft8s_context::{
    ft8s_base_matches, ft8s_considers, ft8s_context, ft8s_match_rejected, ft8s_peak_rejected,
    ft8s_rx_slowness, ft8s_search_range, Ft8sContext,
};

#[test]
fn hint_decoder_needs_his_call_and_a_live_qso() {
    assert!(ft8s_context("K1JT", "BG5ATV", 2, true, None).is_none());
    assert!(ft8s_context("K1JT", " AB ", 2, false, None).is_none());
    assert!(ft8s_context("K1JT", "BG5ATV", 6, false, None).is_none());
    assert!(ft8s_context("K1JT", "BG5ATV", 0, false, None).is_none());
    assert!(ft8s_context("K1JT", "BG5ATV", 1, false, None).is_some());
}

#[test]
fn last_message_sets_the_qso_state() {
    let rrr = ft8s_context("K1JT", "BG5ATV", 4, false, Some(" K1JT BG5ATV RRR ")).unwrap();
    assert!(rrr.lmycall && rrr.lhiscall && rrr.lrrr && !rrr.lr73 && !rrr.lgrid);
    assert_eq!(ft8s_search_range(&rrr, 4), (53, 56));

    let r73 = ft8s_context("K1JT", "BG5ATV", 4, false, Some("K1JT BG5ATV RR73")).unwrap();
    assert!(r73.lr73 && !r73.lrrr);
    assert!(ft8s_peak_rejected(&r73, 53) && !ft8s_peak_rejected(&r73, 54));

    let report = ft8s_context("K1JT", "BG5ATV", 3, false, Some("K1JT BG5ATV -12")).unwrap();
    assert!(report.lastreport && !report.lastrrprt && !report.lgrid);
    assert!(!ft8s_considers(&report, 30) && ft8s_considers(&report, 10) && ft8s_considers(&report, 53));

    let rreport = ft8s_context("K1JT", "BG5ATV", 3, false, Some("K1JT BG5ATV R-12")).unwrap();
    assert!(rreport.lastrrprt && !rreport.lastreport);
    assert_eq!(ft8s_search_range(&rreport, 3), (26, 56));
    assert!(ft8s_peak_rejected(&rreport, 52));

    let grid = ft8s_context("K1JT", "BG5ATV", 3, false, Some("K1JT BG5ATV PM00")).unwrap();
    assert!(grid.lgrid);
    assert_eq!(ft8s_search_range(&grid, 3), (26, 53));

    let calling = ft8s_context("K1JT", "BG5ATV", 2, false, Some("W9XYZ BG5ATV -05")).unwrap();
    assert!(calling.lcallingrprt && !calling.lmycall);
    assert_eq!(ft8s_search_range(&calling, 2), (26, 52));
    assert_eq!(ft8s_rx_slowness(&calling, 2, 3), 1);

    let fresh = ft8s_context("K1JT", "BG5ATV", 2, false, None).unwrap();
    assert!(fresh.lcallingrprt);
    let quiet = ft8s_context("K1JT", "BG5ATV", 3, false, None).unwrap();
    assert_eq!(
        quiet,
        Ft8sContext {
            lmycall: false,
            lhiscall: false,
            lrrr: false,
            lr73: false,
            lcallingrprt: false,
            lastrrprt: false,
            lastreport: false,
            lgrid: false
        }
    );
    assert_eq!(ft8s_search_range(&quiet, 3), (0, 56));
    assert_eq!(ft8s_search_range(&quiet, 1), (0, 26));
    assert_eq!(ft8s_rx_slowness(&quiet, 3, 0), 1);
    assert_eq!(ft8s_rx_slowness(&quiet, 3, 9), 3);
    assert_eq!(ft8s_rx_slowness(&quiet, 3, 2), 2);
}

#[test]
fn match_counts_and_integer_refusals() {
    let a = [3i32; 58];
    let mut b = [3i32; 58];
    for k in [0usize, 4, 8, 12, 18, 30] {
        b[k] = 7;
    }
    assert_eq!(ft8s_base_matches(&a, &b), (6, 14));
    let quiet = ft8s_context("K1JT", "BG5ATV", 3, false, None).unwrap();
    assert!(ft8s_match_rejected(&quiet, 1, 0, 10, 20));
    assert!(!ft8s_match_rejected(&quiet, 3, 0, 10, 20));
    assert!(ft8s_match_rejected(&quiet, 3, 4, 10, 7));
}
