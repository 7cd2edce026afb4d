use ft8lib::wsjt_ap::{
    apply_wsjt_ap_mask, is_acceptable_unpacked_message, wsjt_npasses, wsjt_pass_iaptype,
    wsjt_pass_metric, WsjtApOptions, MRRR,
};

fn options(ncontest: usize) -> WsjtApOptions {
    let mut apsym = [1i8; 58];
    for (k, s) in apsym.iter_mut().enumerate() {
        if k % 3 == 0 {
            *s = -1;
        }
    }
    WsjtApOptions {
        ncontest,
        nfqso_mhz: 1_500_000,
        nftx_mhz: 1_200_000,
        napwid_mhz: 50_000,
        apsym,
        aph10: [1; 10],
    }
}

#[test]
fn cq_pass_fixes_the_cq_and_i3_bits() {
    let plan = apply_wsjt_ap_mask(&options(0), 1, 900_000).expect("the CQ pass runs");
    let masked: Vec<usize> = (0..174).filter(|&i| plan.mask[i]).collect();
    let mut expected: Vec<usize> = (0..29).collect();
    expected.extend([74, 75, 76]);
    assert_eq!(masked, expected);
    assert_eq!(plan.sign[26], 1);
    assert_eq!(plan.sign[0], -1);
    assert_eq!((plan.sign[74], plan.sign[75], plan.sign[76]), (-1, -1, 1));
    assert_eq!(plan.sign[100], 0);
}

#[test]
fn passes_that_do_not_run() {
    assert!(apply_wsjt_ap_mask(&options(6), 1, 900_000).is_none());
    assert!(apply_wsjt_ap_mask(&options(7), 1, 950_001).is_none());
    assert!(apply_wsjt_ap_mask(&options(7), 1, 950_000).is_some());
    // Far from both the QSO and the transmit frequency.
    assert!(apply_wsjt_ap_mask(&options(0), 3, 1_300_000).is_none());
    assert!(apply_wsjt_ap_mask(&options(0), 3, 1_250_000).is_some());
    assert!(apply_wsjt_ap_mask(&options(0), 2, 1_300_000).is_some());
    // Without my call's symbols.
    let mut unset = options(0);
    unset.apsym[0] = 99;
    assert!(apply_wsjt_ap_mask(&unset, 2, 1_500_000).is_none());
    assert!(apply_wsjt_ap_mask(&unset, 1, 1_500_000).is_some());
    let mut no_dx = options(0);
    no_dx.apsym[29] = 99;
    assert!(apply_wsjt_ap_mask(&no_dx, 3, 1_500_000).is_none());
    assert!(apply_wsjt_ap_mask(&options(7), 5, 900_000).is_none());
    assert!(apply_wsjt_ap_mask(&options(0), 7, 1_500_000).is_none());
}

#[test]
fn qso_end_pass_fixes_the_whole_message() {
    let ap = options(0);
    let plan = apply_wsjt_ap_mask(&ap, 4, 1_500_000).unwrap();
    for i in 0..77 {
        assert!(plan.mask[i], "bit {i}");
    }
    assert!(!plan.mask[77]);
    for i in 0..58 {
        assert_eq!(plan.sign[i], ap.apsym[i], "bit {i}");
    }
    for (k, &b) in MRRR.iter().enumerate() {
        assert_eq!(plan.sign[58 + k], if b == 0 { -1 } else { 1 });
    }
    // Field Day: his call's bits and a masked, sign-free field.
    let fd = apply_wsjt_ap_mask(&options(3), 3, 1_500_000).unwrap();
    assert!(fd.mask[71] && fd.mask[72] && fd.mask[73]);
    assert_eq!((fd.sign[71], fd.sign[72], fd.sign[73]), (0, 0, 0));
    assert!(!fd.mask[56] && fd.mask[28]);
    assert_eq!(fd.sign[28 + 27], ap.apsym[29 + 27]);
}

#[test]
fn unpacked_messages_kept() {
    assert!(is_acceptable_unpacked_message("K1ABC W9XYZ R-10", 1, 0));
    assert!(!is_acceptable_unpacked_message("K1ABC/R W9XYZ R-10", 1, 0));
    assert!(!is_acceptable_unpacked_message("TU; K1ABC W9XYZ 599 NJ", 3, 0));
    assert!(is_acceptable_unpacked_message("K1ABC/R W9XYZ R-10", 1, 3));
    assert!(is_acceptable_unpacked_message("K1ABC/R W9XYZ R-10", 4, 0));
    assert!(!is_acceptable_unpacked_message("   ", 0, 0));
}

#[test]
fn pass_plans() {
    assert_eq!(wsjt_npasses(false, 0, 50, false, 3), 5);
    assert_eq!(wsjt_npasses(true, 0, 49, false, 3), 5);
    assert_eq!(wsjt_npasses(true, 0, 50, false, 3), 13);
    assert_eq!(wsjt_npasses(true, 0, 50, false, 5), 11);
    assert_eq!(wsjt_npasses(true, 0, 50, true, 5), 7);
    assert_eq!(wsjt_npasses(false, 7, 50, false, 0), 9);
    assert_eq!(wsjt_npasses(true, 6, 50, false, 3), 5);
    assert_eq!(wsjt_pass_iaptype(false, 3, 6), 3);
    assert_eq!(wsjt_pass_iaptype(false, 3, 9), 4);
    assert_eq!(wsjt_pass_iaptype(false, 3, 13), 6);
    assert_eq!(wsjt_pass_iaptype(false, 5, 8), 1);
    assert_eq!(wsjt_pass_iaptype(true, 5, 8), 1);
    assert_eq!(wsjt_pass_iaptype(false, 0, 10), 0);
    assert_eq!(
        (1..=9).map(wsjt_pass_metric).collect::<Vec<_>>(),
        vec![0, 1, 2, 3, 4, 0, 2, 0, 2]
    );
}

#[test]
fn pass_tables_are_read_only_on_the_ap_path() {
    // Without AP the QSO progress is never looked up.
    assert_eq!(wsjt_npasses(false, 0, 50, false, 9), 5);
    assert_eq!(wsjt_npasses(true, 0, 49, false, 9), 5);
    assert_eq!(wsjt_npasses(true, 0, 50, true, 9), 7);
    assert_eq!(wsjt_pass_iaptype(true, 9, 0), 1);
}
