use ft8lib::callsign::{
    callsign_q_reject, chkspecial8_call_reject, field_day_call_region_can_use_section,
    looks_like_standard_6_call, strip_hash_leading_call, strip_portable_suffix,
};
use ft8lib::chkfalse8::{
    accept_ap_type2_message, accept_ap_type40_message, accept_late_cq_grid_check,
    rejects_ap_qso_grid_message, rejects_first_hash_grid_message, rejects_post_label_protocol_shape,
};
use ft8lib::chkgrid::{chkgrid, grid_requires_call_check, is_grid4};
use ft8lib::filtersfree::filtersfree;

fn chars(s: &str) -> Vec<char> {
    s.chars().collect()
}

#[test]
fn free_text_shapes() {
    assert!(filtersfree("/ABC"));
    assert!(!filtersfree("TNX FER QSO"));
    assert!(!filtersfree("73 GL"));
    assert!(filtersfree("HELLO.."));
    assert!(filtersfree("A B"));
    assert!(!filtersfree("/ABC       73"));
}

#[test]
fn call_shapes() {
    assert!(callsign_q_reject("Q1ABC"));
    assert!(callsign_q_reject("12ABC"));
    assert!(callsign_q_reject("1ABC"));
    assert!(callsign_q_reject(""));
    assert!(!callsign_q_reject("K1ABC"));
    assert!(!callsign_q_reject("<k1abc>"));
    assert!(chkspecial8_call_reject("q1"));
    assert!(!chkspecial8_call_reject("K1"));
    assert_eq!(strip_portable_suffix(&chars("K1ABC/R")), chars("K1ABC"));
    assert_eq!(strip_portable_suffix(&chars("K1ABC/P")), chars("K1ABC"));
    assert_eq!(strip_portable_suffix(&chars("K1ABC/M")), chars("K1ABC/M"));
    assert!(looks_like_standard_6_call(&chars("BG5ATV")));
    assert!(!looks_like_standard_6_call(&chars("K1ABCD")));
    assert!(!looks_like_standard_6_call(&chars("W1AW")));
    assert!(field_day_call_region_can_use_section(&chars("k1abc")));
    assert!(field_day_call_region_can_use_section(&chars("AL7X")));
    assert!(!field_day_call_region_can_use_section(&chars("AM1X")));
    assert!(field_day_call_region_can_use_section(&chars("VE3ABC")));
    assert!(!field_day_call_region_can_use_section(&chars("G4ABC")));
    assert_eq!(strip_hash_leading_call(&chars("<...> K1ABC RR73")), chars("K1ABC"));
    assert_eq!(strip_hash_leading_call(&chars("<...><...> K1ABC 73 ")), chars("K1ABC 73"));
}

#[test]
fn grid_checks() {
    assert!(is_grid4("FN42"));
    assert!(!is_grid4("fn42"));
    assert!(!is_grid4("ZZ99"));
    let check = chkgrid("K1ABC", " fn42 ");
    assert!(check.lgvalid);
    assert!(!check.lwrongcall);
    assert!(!chkgrid("K1ABC", "ZZ99").lgvalid);
}

#[test]
fn label_shapes_rejected_at_once() {
    let words = ["K1JT", "BG5ATV", "FN42"];
    assert!(rejects_post_label_protocol_shape("K1JT BG5ATV FN42", &words, 2, 0, 0));
    assert!(!rejects_post_label_protocol_shape("K1JT BG5ATV/P FN42", &words, 2, 0, 0));
    assert!(!rejects_post_label_protocol_shape("K1JT BG5ATV FN42", &words, 1, 0, 0));
    let hashed = ["K1JT", "<...>", "FN42"];
    assert!(rejects_post_label_protocol_shape("K1JT <...> FN42", &hashed, 1, 0, 2));
    assert!(!rejects_post_label_protocol_shape("K1JT <...> FN42", &hashed, 1, 0, 0));
    let rover = ["K1JT/R", "BG5ATV", "FN42"];
    assert!(rejects_post_label_protocol_shape("K1JT/R BG5ATV FN42", &rover, 4, 0, 0));
    assert!(!rejects_post_label_protocol_shape("K1JT/R BG5ATV FN42", &rover, 4, 1, 0));
}

#[test]
fn late_cq_grid_check() {
    assert!(accept_late_cq_grid_check(&["CQ", "DX", "K1ABC", "FN42"], 1, 0));
    assert!(accept_late_cq_grid_check(&["CQ", "POTA", "K1ABC", "FN42"], 1, 0));
    assert!(accept_late_cq_grid_check(&["CQ", "POTA", "K1ABC", "FN42"], 1, 1));
}

#[test]
fn ap_type2_and_type40_messages() {
    assert!(!accept_ap_type2_message(&["K1JT"]));
    assert!(!accept_ap_type2_message(&["K1JT", "QA1ABC", "FN42"]));
    assert!(!accept_ap_type2_message(&["K1JT", "BG5ATV", "ABCD"]));
    assert!(accept_ap_type2_message(&["K1JT", "BG5ATV", "R", "FN42"]));
    assert!(!accept_ap_type2_message(&["K1JT", "BG5ATV", "R", "XX11"]));
    assert!(accept_ap_type2_message(&["K1JT", "BG5ATV/P", "-10"]));
    assert!(accept_ap_type40_message(&["K1JT", "BG5ATV", "FN42"]));
    assert!(!accept_ap_type40_message(&["K1JT", "0A1ABC"]));
    assert!(accept_ap_type40_message(&["K1JT", "BG5ATV", "R"]));
}

#[test]
fn ap_qso_grid_rules() {
    // Only a decode of my QSO with a grid other than his is judged.
    assert!(!rejects_ap_qso_grid_message(&["K1ABC", "W9XYZ"], 3, "K1ABC", "W9XYZ", ""));
    assert!(!rejects_ap_qso_grid_message(&["G4ABC", "W9XYZ", "EN37"], 3, "K1ABC", "W9XYZ", ""));
    assert!(!rejects_ap_qso_grid_message(&["K1ABC", "W9XYZ", "EN37"], 3, "K1ABC", "W9XYZ", "EN37"));
    assert!(!rejects_ap_qso_grid_message(&["K1ABC", "W9XYZ", "-10"], 3, "K1ABC", "W9XYZ", ""));
    assert!(!rejects_ap_qso_grid_message(&["K1ABC", "W9XYZ", "EN37"], 3, " K1ABC ", "W9XYZ", ""));
    assert!(!rejects_ap_qso_grid_message(&["K1ABC", "W9XYZ", "EN37"], 3, "", "W9XYZ", ""));
    // Type 21 refuses any grid but RR73.
    assert!(rejects_ap_qso_grid_message(&["K1ABC", "W9XYZ", "R", "EN37"], 21, "K1ABC", "W9XYZ", ""));
    assert!(!rejects_ap_qso_grid_message(&["K1ABC", "W9XYZ", "RR73"], 21, "K1ABC", "W9XYZ", ""));
    assert!(!rejects_ap_qso_grid_message(&["K1ABC", "W9XYZ", "R"], 21, "K1ABC", "W9XYZ", ""));
}

#[test]
fn first_hash_grid_rules() {
    assert!(!rejects_first_hash_grid_message(&["<...>", "QA1ABC", "FN42"], 1, false, "K1ABC", "W9XYZ"));
    assert!(!rejects_first_hash_grid_message(&["<...>", "QA1ABC", "FN42"], 2, true, "K1ABC", "W9XYZ"));
    assert!(!rejects_first_hash_grid_message(&["K1ABC", "QA1ABC", "FN42"], 1, true, "K1ABC", "W9XYZ"));
    assert!(!rejects_first_hash_grid_message(&["<...>", "QA1ABC/P", "FN42"], 1, true, "K1ABC", "W9XYZ"));
    assert!(!rejects_first_hash_grid_message(&["<...>", "W9XYZ", "FN42"], 1, true, "K1ABC", " W9XYZ "));
    assert_eq!(
        rejects_first_hash_grid_message(&["<...>", "QA1ABC", "FN42"], 1, true, "K1ABC", "W9XYZ"),
        callsign_q_reject("QA1ABC")
    );
    assert!(!rejects_first_hash_grid_message(&["<...>", "G4ABC", "IO91"], 1, true, "K1ABC", "W9XYZ"));
    assert!(!rejects_first_hash_grid_message(&["<...>", "G4ABC", "-10"], 1, true, "K1ABC", "W9XYZ"));
}

#[test]
fn grid_call_check_table_and_short_grids() {
    let g = |s: &str| grid_requires_call_check(&chars(s));
    assert!(g("AA00"));
    assert!(!g("FN42"));
    assert!(!g("EC41"));
    assert!(g("EC42"));
    assert!(!g("PM00"));
    assert!(g("1A00"));
    assert!(!g("AA0"));
    assert!(!g(""));
    // Only the first four characters are read.
    assert!(g("EC42XX"));
    assert!(!g("FN42AB"));
}
