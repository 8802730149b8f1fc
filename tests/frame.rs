use socketio_server::frame::{decode_frame, encode_frame};

fn parts(s: &str) -> Option<(char, String, String)> {
    let chars: Vec<char> = s.chars().collect();
    decode_frame(&chars).map(|f| (f.kind, f.ns.iter().collect(), f.body.iter().collect()))
}

#[test]
fn frame_with_count_namespace_and_ack() {
    assert_eq!(
        parts("51-/chat,7[\"a\"]"),
        Some(('5', "/chat".to_string(), "[\"a\"]".to_string()))
    );
}

#[test]
fn frame_zero_count_is_skipped() {
    assert_eq!(parts("50-x,{}"), Some(('5', "/x".to_string(), "{}".to_string())));
}

#[test]
fn frame_long_count_is_skipped() {
    assert_eq!(parts("599999999999-[]"), Some(('5', "/".to_string(), "[]".to_string())));
}

#[test]
fn frame_digits_without_dash_are_ack_id() {
    assert_eq!(parts("212[\"e\"]"), Some(('2', "/".to_string(), "[\"e\"]".to_string())));
    assert_eq!(parts("2chat,12[\"e\",1]"), Some(('2', "/chat".to_string(), "[\"e\",1]".to_string())));
}

#[test]
fn frame_namespace_without_comma_keeps_payload() {
    assert_eq!(parts("2/chat[\"a\"]"), Some(('2', "/chat".to_string(), "[\"a\"]".to_string())));
}

#[test]
fn frame_empty() {
    assert_eq!(parts(""), None);
    assert_eq!(parts("1"), Some(('1', "/".to_string(), "".to_string())));
}

#[test]
fn frame_encode() {
    let ns: Vec<char> = "/chat".chars().collect();
    let body: Vec<char> = "[1]".chars().collect();
    let text: String = encode_frame(2, &ns, &body).iter().collect();
    assert_eq!(text, "2/chat,[1]");
    let slash: Vec<char> = vec!['/'];
    let text: String = encode_frame(0, &slash, &vec![]).iter().collect();
    assert_eq!(text, "0");
}
