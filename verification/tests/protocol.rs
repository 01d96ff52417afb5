use tts_air::client::client_reply;
use tts_air::handshake::origin_allowed;
use tts_air::json::{
    build_info_json, build_record_frame, build_reply_json, build_tts_message_json, escape_json,
    format_i64,
};

#[test]
fn info_frame_connected() {
    let s = build_info_json("0.1.0", true);
    assert_eq!(
        s,
        "{\"method\":\"info\",\"args\":{\"proxy_version\":\"0.1.0\",\"is_connected\":true}}"
    );
}

#[test]
fn info_frame_disconnected() {
    let s = build_info_json("0.1.0", false);
    assert_eq!(
        s,
        "{\"method\":\"info\",\"args\":{\"proxy_version\":\"0.1.0\",\"is_connected\":false}}"
    );
}

#[test]
fn message_frame_plain() {
    let s = build_tts_message_json("hello");
    assert_eq!(s, "{\"method\":\"tts_message\",\"args\":{\"message\":\"hello\"}}");
}

#[test]
fn escape_specials() {
    assert_eq!(escape_json("a\"b"), "a\\\"b");
    assert_eq!(escape_json("a\\b"), "a\\\\b");
    assert_eq!(escape_json("a\nb\tc\rd"), "a\\nb\\tc\\rd");
    assert_eq!(escape_json("\u{8}\u{c}"), "\\b\\f");
    assert_eq!(escape_json("\u{1f}\u{1}"), "\\u001f\\u0001");
    assert_eq!(escape_json("héllo\u{1F600}"), "héllo\u{1F600}");
}

#[test]
fn escape_matches_serde_json() {
    let tricky = "a\"b\\c\nd\u{1f}é\u{1F600}\u{0}";
    let quoted = serde_json::to_string(&serde_json::Value::String(tricky.to_string())).unwrap();
    let expected = format!(
        "{{\"method\":\"tts_message\",\"args\":{{\"message\":{}}}}}",
        quoted
    );
    assert_eq!(build_tts_message_json(tricky), expected);
}

#[test]
fn record_frame_replaces_invalid_utf8() {
    let record = vec![0x68, 0x69, 0xFF];
    let s = build_record_frame(&record);
    assert_eq!(
        s,
        "{\"method\":\"tts_message\",\"args\":{\"message\":\"hi\u{FFFD}\"}}"
    );
}

#[test]
fn reply_frame_exact() {
    assert_eq!(build_reply_json(42), "{\"id\":42,\"data\":\"\"}");
    assert_eq!(build_reply_json(0), "{\"id\":0,\"data\":\"\"}");
    assert_eq!(build_reply_json(-7), "{\"id\":-7,\"data\":\"\"}");
}

#[test]
fn format_i64_extremes() {
    assert_eq!(format_i64(i64::MAX), "9223372036854775807");
    assert_eq!(format_i64(i64::MIN), "-9223372036854775808");
    assert_eq!(format_i64(10), "10");
}

#[test]
fn round_trip_integer_id() {
    let r = client_reply("{\"id\":42}");
    assert_eq!(r, Some("{\"id\":42,\"data\":\"\"}".to_string()));
}

#[test]
fn round_trip_non_integer_id_gets_no_reply() {
    assert_eq!(client_reply("{\"id\":\"x\"}"), None);
}

#[test]
fn reply_ignores_malformed_and_idless_frames() {
    assert_eq!(client_reply("{id:}"), None);
    assert_eq!(client_reply("not json"), None);
    assert_eq!(client_reply("{\"x\":1}"), None);
    assert_eq!(client_reply("{\"id\":4.5}"), None);
    assert_eq!(client_reply("[1,2,3]"), None);
}

#[test]
fn reply_tolerates_extra_members() {
    let r = client_reply("{\"id\":-3,\"extra\":[true,null]}");
    assert_eq!(r, Some("{\"id\":-3,\"data\":\"\"}".to_string()));
}

#[test]
fn allowed_origins_pass() {
    assert!(origin_allowed(&"https://d4.wartide.net".to_string()));
    assert!(origin_allowed(&"null".to_string()));
}

#[test]
fn other_origins_fail() {
    assert!(!origin_allowed(&"https://d4.wartide.net.evil".to_string()));
    assert!(!origin_allowed(&"http://d4.wartide.net".to_string()));
    assert!(!origin_allowed(&"".to_string()));
    assert!(!origin_allowed(&"NULL".to_string()));
}
