use ft8lib::ap_plan::{
    ap_mask_from_packed, ap_template, ap_types_for_config, base_call, hound_cq_type4_mask, Ft8ApSet,
    hound_special_template, ihashcall_bits, ApMaskSource, ApTemplate,
};
use ft8lib::ap_subpass::ApCallFlags;
use ft8lib::hybrid_report::is_context_call;
use ft8lib::jtdx_calls::{delbraces, msgparser, strip_non_hash_braces};

#[test]
fn call_hashes() {
    assert_eq!(ihashcall_bits("KA1ABC", 10), 180);
    assert_eq!(ihashcall_bits("K1ABC", 12), 2851);
    assert_eq!(ihashcall_bits("k1abc", 12), 2851);
    assert_eq!(ihashcall_bits("", 22), 0);
    assert_eq!(ihashcall_bits("W9XYZ/P", 22), 2375244);
    assert_eq!(ihashcall_bits("ABCDEFGHIJKLMN", 10), ihashcall_bits("ABCDEFGHIJK", 10));
    assert_eq!(ihashcall_bits("ABCDEFGHIJK", 10), 525);
}

#[test]
fn base_calls() {
    assert_eq!(base_call(Some(" <ea5/dh0yah> ")), Some("DH0YAH".to_string()));
    assert_eq!(base_call(Some("K1ABC/P")), Some("K1ABC".to_string()));
    assert_eq!(base_call(Some("K1AB/QRP")), Some("K1AB".to_string()));
    assert_eq!(base_call(Some("AB")), None);
    assert_eq!(base_call(None), None);
}

#[test]
fn hound_templates_and_mask() {
    assert_eq!(hound_special_template("K1ABC", Some("W9XYZ")), "K1ABC RR73; K1ABC <W9XYZ> -16");
    assert_eq!(hound_special_template("K1ABC", None), "K1ABC RR73; K1ABC <K1ABC> -16");
    let plan = hound_cq_type4_mask();
    for i in 0..174 {
        assert_eq!(plan.apmask[i], if (71..77).contains(&i) { 1 } else { 0 });
    }
    for i in 0..77 {
        assert_eq!(plan.message77[i], if i == 73 || i == 74 { 1 } else { 0 });
    }
}

#[test]
fn ap_type_lists() {
    let std = ApCallFlags::from_calls(Some("K1JT"), Some("BG5ATV"));
    let types = ap_types_for_config(false, std);
    assert_eq!(&types[0..6], &[2, 2, 2, 1, 1, 1]);
    assert!(types.iter().all(|&t| t != 0));
    assert_eq!(types.len(), 105);
    let hound = ap_types_for_config(true, std);
    assert_eq!(hound, vec![1, 1, 1, 111, 111, 111, 21, 21, 21, 22, 22, 22, 31, 31, 31, 36, 36, 36, 21, 21, 21, 22, 22, 22, 23, 23, 23, 24, 24, 24]);
    let nonstd_mine = ApCallFlags::from_calls(Some("EA5/DH0YAH"), Some("BG5ATV"));
    assert_eq!(&ap_types_for_config(false, nonstd_mine)[0..3], &[40, 40, 40]);
    let nonstd_his = ApCallFlags::from_calls(Some("K1JT"), Some("EA5/DH0YAH"));
    assert_eq!(&ap_types_for_config(false, nonstd_his)[15..18], &[11, 11, 11]);
}

#[test]
fn brace_removal() {
    let w: Vec<char> = "<K1ABC>".chars().collect();
    assert_eq!(strip_non_hash_braces(&w), Some("K1ABC".chars().collect()));
    let h: Vec<char> = "<...>".chars().collect();
    assert_eq!(strip_non_hash_braces(&h), None);
    let plain: Vec<char> = "K1ABC".chars().collect();
    assert_eq!(strip_non_hash_braces(&plain), None);
    assert_eq!(delbraces("W9XYZ  <K1ABC> RR73"), "W9XYZ K1ABC RR73");
    assert_eq!(delbraces("<...> <K1ABC> <W9XYZ>"), "<...> K1ABC <W9XYZ>");
    assert_eq!(delbraces("A B C <K1ABC>"), "A B C <K1ABC>");
}

#[test]
fn special_message_pairs() {
    assert_eq!(
        msgparser("K1ABC RR73; W9XYZ <KH1/KH7Z> -08"),
        Some(("K1ABC KH1/KH7Z RR73".to_string(), "W9XYZ KH1/KH7Z -08".to_string()))
    );
    assert_eq!(
        msgparser("K1ABC RR73; W9XYZ <...> -08"),
        Some(("K1ABC <...> RR73".to_string(), "W9XYZ <...> -08".to_string()))
    );
    assert_eq!(msgparser("K1ABC RR73; W9XYZ"), None);
}

#[test]
fn context_calls_of_hints() {
    assert!(is_context_call("K1ABC"));
    assert!(is_context_call(" <N0CALL> "));
    assert!(is_context_call("EA5/DH0YAH"));
    assert!(!is_context_call("RR73"));
    assert!(!is_context_call("FN"));
    assert!(!is_context_call("ABCD"));
    assert!(!is_context_call("K1-ABC"));
}

fn packed_template(
    mycall: Option<&str>,
    hiscall: Option<&str>,
    hisgrid: Option<&str>,
    lhound: bool,
    iaptype: i32,
) -> Option<(String, Vec<(usize, usize)>, usize)> {
    match ap_template(mycall, hiscall, hisgrid, lhound, iaptype) {
        Some(ApMaskSource::Packed(t)) => Some((t.template, t.ranges, t.expected_i3)),
        _ => None,
    }
}

#[test]
fn ap_templates_of_standard_calls() {
    let my = Some("k1abc");
    let his = Some(" W9XYZ ");
    assert_eq!(
        packed_template(my, his, None, false, 1),
        Some(("CQ K1ABC AA00".to_string(), vec![(0, 29), (74, 77)], 1))
    );
    assert_eq!(
        packed_template(my, his, None, false, 2),
        Some(("K1ABC K1ABC AA00".to_string(), vec![(0, 29), (74, 77)], 1))
    );
    assert_eq!(
        packed_template(my, his, None, false, 3),
        Some(("K1ABC W9XYZ +00".to_string(), vec![(0, 58), (74, 77)], 1))
    );
    assert_eq!(
        packed_template(my, his, None, false, 6),
        Some(("K1ABC W9XYZ RR73".to_string(), vec![(0, 77)], 1))
    );
    assert_eq!(
        packed_template(my, his, None, false, 13),
        Some(("<K1ABC> W9XYZ 73".to_string(), vec![(0, 77)], 4))
    );
    assert_eq!(
        packed_template(my, his, None, false, 42),
        Some(("K1ABC <W9XYZ> RRR".to_string(), vec![(0, 77)], 4))
    );
    assert_eq!(
        packed_template(my, his, Some(" en37xx"), false, 31),
        Some(("CQ W9XYZ EN37".to_string(), vec![(0, 77)], 1))
    );
    assert_eq!(
        packed_template(my, his, Some("EN"), false, 31),
        Some(("CQ W9XYZ AA00".to_string(), vec![(0, 58), (74, 77)], 1))
    );
    // The raw lower-case call is not standard, so his call stands first.
    assert_eq!(
        packed_template(my, his, None, false, 35),
        Some(("W9XYZ W9XYZ 73".to_string(), vec![(29, 77)], 1))
    );
    assert_eq!(
        packed_template(Some("K1ABC"), his, None, false, 35),
        Some(("K1ABC W9XYZ 73".to_string(), vec![(29, 77)], 1))
    );
}

#[test]
fn ap_templates_of_nonstandard_and_hound_calls() {
    assert_eq!(
        packed_template(Some("K1ABC"), Some("PJ4/W9XYZ"), None, false, 31),
        Some(("CQ PJ4/W9XYZ".to_string(), vec![(0, 77)], 4))
    );
    assert_eq!(
        packed_template(Some("K1ABC"), Some("PJ4/W9XYZ"), None, false, 35),
        Some(("<W9XYZ> PJ4/W9XYZ 73".to_string(), vec![(13, 77)], 4))
    );
    assert_eq!(
        packed_template(Some("K1ABC"), Some("PJ4/W9XYZ"), None, true, 36),
        Some(("K1ABC W9XYZ RR73".to_string(), vec![(29, 77)], 1))
    );
    assert_eq!(
        packed_template(Some("K1ABC/P"), Some("W9XYZ"), None, false, 36),
        Some(("W9XYZ W9XYZ RR73".to_string(), vec![(29, 77)], 1))
    );
    assert_eq!(
        packed_template(Some("K1ABC"), None, None, false, 40),
        Some(("<K1ABC> ZZ1ZZZ -15".to_string(), vec![(0, 29), (74, 77)], 1))
    );
    assert_eq!(
        packed_template(Some("K1ABC/P"), Some("W9XYZ"), None, true, 21),
        Some(("K1ABC W9XYZ -15".to_string(), vec![(0, 58), (74, 77)], 1))
    );
    assert_eq!(
        packed_template(Some("K1ABC"), Some("W9XYZ"), None, true, 24),
        Some((
            "K1ABC RR73; K1ABC <W9XYZ> -16".to_string(),
            vec![(0, 28), (56, 66), (71, 77)],
            0
        ))
    );
    assert!(matches!(
        ap_template(Some("K1ABC"), None, None, true, 111),
        Some(ApMaskSource::HoundCqType4)
    ));
    assert!(ap_template(None, Some("W9XYZ"), None, false, 2).is_none());
    assert!(ap_template(Some("K1ABC"), None, None, false, 3).is_none());
    assert!(ap_template(Some("K1ABC"), Some("W9XYZ"), None, false, 7).is_none());
}

#[test]
fn ap_masks_from_packed_bits() {
    let template = ApTemplate {
        template: "CQ K1ABC AA00".to_string(),
        ranges: vec![(0, 29), (74, 77), (70, 100)],
        expected_i3: 1,
    };
    let mut packed = vec![0u8; 77];
    packed[3] = 1;
    packed[76] = 1;
    let plan = ap_mask_from_packed(&template, &packed).expect("a valid packing");
    assert_eq!(plan.message77.to_vec(), packed);
    for i in 0..174 {
        let expected = if i < 29 || (70..77).contains(&i) { 1 } else { 0 };
        assert_eq!(plan.apmask[i], expected, "bit {i}");
    }
    assert!(ap_mask_from_packed(&template, &packed[..76]).is_none());
    packed[75] = 1;
    assert!(ap_mask_from_packed(&template, &packed).is_none());
}

#[test]
fn ap_set_keeps_the_first_mask_of_each_type() {
    let cq = hound_cq_type4_mask();
    let mut other = hound_cq_type4_mask();
    other.apmask[0] = 1;
    let set = Ft8ApSet::from_plans(&[(4, Some(cq)), (2, None), (4, Some(other))]);
    assert_eq!(set.get(4).map(|p| p.apmask[0]), Some(0));
    assert!(set.get(2).is_none());
    assert!(set.get(7).is_none());
}
