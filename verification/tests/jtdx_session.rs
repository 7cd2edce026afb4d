use ft8lib::jtdx_calls::hash_call;
use ft8lib::jtdx_session::JtdxStreamDecodeSession;

fn calls(list: &[&str]) -> Vec<String> {
    list.iter().map(|c| c.to_string()).collect()
}

#[test]
fn new_session_is_implemented_and_empty() {
    let session = JtdxStreamDecodeSession::new();
    assert!(session.is_implemented());
    assert!(session.export_regular_hash_calls().is_empty());
    assert_eq!(session.state.ndecodes, 0);
}

#[test]
fn regular_hash_calls_export_sorted_once() {
    let mut session = JtdxStreamDecodeSession::new();
    session.record_regular_hash_calls(&calls(&["PJ4/K1ABC", "W9XYZ", "K1ABC"]));
    session.record_regular_hash_calls(&calls(&["W9XYZ", "DL1ABC/P"]));
    assert_eq!(
        session.export_regular_hash_calls(),
        calls(&["DL1ABC/P", "K1ABC", "PJ4/K1ABC", "W9XYZ"])
    );
}

#[test]
fn export_does_not_depend_on_recording_order() {
    let mut a = JtdxStreamDecodeSession::new();
    let mut b = JtdxStreamDecodeSession::new();
    a.record_regular_hash_calls(&calls(&["ZL2AB", "A1B", "M0XYZ", "A1B"]));
    b.record_regular_hash_calls(&calls(&["M0XYZ"]));
    b.record_regular_hash_calls(&calls(&["A1B", "ZL2AB"]));
    assert_eq!(a.export_regular_hash_calls(), b.export_regular_hash_calls());
    let mut sorted = a.export_regular_hash_calls();
    sorted.sort();
    assert_eq!(sorted, a.export_regular_hash_calls());
}

#[test]
fn only_hashable_tokens_are_recorded_in_kept_form() {
    let mut session = JtdxStreamDecodeSession::new();
    session.record_regular_hash_calls(&calls(&["CQ", "<k1abc>", "FN42", "RR73", "ab", "<...>", "W1AW/7", "DX"]));
    assert_eq!(session.export_regular_hash_calls(), calls(&["K1ABC", "W1AW/7"]));
}

#[test]
fn hash_call_gives_kept_form_of_hashable_tokens() {
    assert_eq!(hash_call("<pj4/k1abc>"), Some("PJ4/K1ABC".to_string()));
    assert_eq!(hash_call("K1ABC"), Some("K1ABC".to_string()));
    assert_eq!(hash_call("FN42"), None);
    assert_eq!(hash_call("ABCDE"), None);
    assert_eq!(hash_call("73"), None);
}
