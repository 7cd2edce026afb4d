use ft8lib::signal_memory::{SignalKind, SignalMemory};

#[test]
fn kept_signals_are_found_in_the_next_interval_of_the_same_parity() {
    let mut m: SignalMemory<u32> = SignalMemory::new();
    m.begin_slot();
    m.remember_tmp(SignalKind::Cq, 1_000_000, 500, 7);
    m.remember_tmp(SignalKind::MyCall, 1_200_000, 300, 8);
    m.remember_tmp(SignalKind::Qso, 1_500_000, 100, 9);
    m.finish_slot(true, false, true, false);
    assert!(m.tmpcqsig.is_empty() && m.tmpmycsig.is_empty() && m.tmpqsosig.is_none());
    assert_eq!(m.find_old(SignalKind::Cq, true, false, 1_001_900, 540), Some(7));
    assert_eq!(m.find_old(SignalKind::Cq, true, false, 1_002_000, 500), None);
    assert_eq!(m.find_old(SignalKind::Cq, true, false, 1_000_000, 550), None);
    assert_eq!(m.find_old(SignalKind::Cq, false, true, 1_000_000, 500), None);
    assert_eq!(m.find_old(SignalKind::MyCall, true, false, 1_200_000, 300), Some(8));
    assert_eq!(m.find_old(SignalKind::Qso, true, false, 1_500_000, 100), Some(9));
    assert_eq!(m.find_old(SignalKind::Qso, false, false, 1_500_000, 100), None);

    // Without my call only the CQ signals are kept; a decoded QSO message
    // keeps the QSO signal out.
    let mut odd: SignalMemory<u32> = SignalMemory::new();
    odd.remember_tmp(SignalKind::MyCall, 1_200_000, 300, 8);
    odd.remember_tmp(SignalKind::Qso, 1_500_000, 100, 9);
    odd.finish_slot(false, true, false, false);
    assert_eq!(odd.find_old(SignalKind::MyCall, false, true, 1_200_000, 300), None);
    let mut decoded: SignalMemory<u32> = SignalMemory::new();
    decoded.remember_tmp(SignalKind::Qso, 1_500_000, 100, 9);
    decoded.finish_slot(false, true, true, true);
    assert_eq!(decoded.find_old(SignalKind::Qso, false, true, 1_500_000, 100), None);
}

#[test]
fn slot_tables_are_bounded_and_overlaid() {
    let mut m: SignalMemory<u32> = SignalMemory::new();
    for k in 0..25u32 {
        m.remember_tmp(SignalKind::Cq, 1_000_000 + 10_000 * k as i64, 0, k);
    }
    assert_eq!(m.tmpcqsig.len(), 20);
    for k in 0..7u32 {
        m.remember_tmp(SignalKind::MyCall, 1_000_000, 0, k);
    }
    assert_eq!(m.tmpmycsig.len(), 5);
    m.finish_slot(true, false, false, false);
    assert_eq!(m.evencq.len(), 20);
    m.remember_tmp(SignalKind::Cq, 2_000_000, 0, 99);
    m.finish_slot(true, false, false, false);
    assert_eq!(m.evencq.len(), 20);
    assert_eq!(m.evencq[0].cs, 99);
    assert_eq!(m.evencq[1].cs, 1);
}

#[test]
fn decodes_of_the_slot() {
    let mut m: SignalMemory<u32> = SignalMemory::new();
    m.remember_decoded_message(" CQ W9XYZ EN37 ", 1_000_000, 200, "K1ABC", true);
    m.remember_decoded_message("K1ABC W9XYZ -10", 1_300_000, 200, " K1ABC ", true);
    m.remember_decoded_message("K1ABC W9XYZ -10", 1_400_000, 200, "K1ABC", false);
    assert_eq!(m.tmpcqdec.len(), 1);
    assert_eq!(m.tmpmyc.len(), 1);
    assert!(m.has_decoded_tmp(SignalKind::Cq, 1_004_900, 249));
    assert!(!m.has_decoded_tmp(SignalKind::Cq, 1_005_000, 200));
    assert!(m.has_decoded_tmp(SignalKind::MyCall, 1_300_000, 200));
    assert!(!m.has_decoded_tmp(SignalKind::MyCall, 1_400_000, 200));
    assert!(!m.has_decoded_tmp(SignalKind::Qso, 1_000_000, 200));
    m.begin_slot();
    assert!(!m.has_decoded_tmp(SignalKind::Cq, 1_000_000, 200));
}
