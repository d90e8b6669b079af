use chat_ledger::codec::{
    decode_line, encode_line, role_name_str, transcript_block, transcript_text,
};
use chat_ledger::turn::{ChatGptMessage, Role};

fn msg(role: Role, content: &str) -> ChatGptMessage {
    ChatGptMessage::new(role, String::from(content))
}

#[test]
fn role_names() {
    assert_eq!(role_name_str(Role::User), "user");
    assert_eq!(role_name_str(Role::Assistant), "assistant");
    assert_eq!(role_name_str(Role::System), "system");
}

#[test]
fn encode_exact_user_line() {
    let line = encode_line(&msg(Role::User, "Hello"));
    assert_eq!(line, "{\"role\":\"user\",\"content\":\"Hello\"}");
}

#[test]
fn encode_exact_empty_content() {
    let line = encode_line(&msg(Role::System, ""));
    assert_eq!(line, "{\"role\":\"system\",\"content\":\"\"}");
}

#[test]
fn encode_exact_escapes() {
    let line = encode_line(&msg(Role::Assistant, "a\"b\\c\nd\te\u{1}"));
    assert_eq!(
        line,
        "{\"role\":\"assistant\",\"content\":\"a\\\"b\\\\c\\nd\\te\\u0001\"}"
    );
}

#[test]
fn encode_passes_unicode_through() {
    let line = encode_line(&msg(Role::User, "h\u{e9}llo \u{2603}"));
    assert_eq!(line, "{\"role\":\"user\",\"content\":\"h\u{e9}llo \u{2603}\"}");
}

#[test]
fn decode_canonical_line() {
    let m = decode_line("{\"role\":\"user\",\"content\":\"Hello\"}").unwrap();
    assert_eq!(m.role, Role::User);
    assert_eq!(m.content, "Hello");
}

#[test]
fn decode_swapped_member_order() {
    let m = decode_line("{\"content\":\"x\",\"role\":\"assistant\"}").unwrap();
    assert_eq!(m.role, Role::Assistant);
    assert_eq!(m.content, "x");
}

#[test]
fn decode_simple_escapes() {
    let m = decode_line("{\"role\":\"user\",\"content\":\"a\\\"b\\\\c\\/d\\be\\ff\\ng\\rh\\ti\"}")
        .unwrap();
    assert_eq!(m.content, "a\"b\\c/d\u{8}e\u{c}f\ng\rh\ti");
}

#[test]
fn decode_unicode_escape() {
    let m = decode_line("{\"role\":\"user\",\"content\":\"\\u0041\\u00e9\\u2603\"}").unwrap();
    assert_eq!(m.content, "A\u{e9}\u{2603}");
}

#[test]
fn decode_uppercase_hex_escape() {
    let m = decode_line("{\"role\":\"user\",\"content\":\"\\u001F\"}").unwrap();
    assert_eq!(m.content, "\u{1f}");
}

#[test]
fn decode_rejects_unknown_role() {
    assert!(decode_line("{\"role\":\"robot\",\"content\":\"hi\"}").is_none());
}

#[test]
fn decode_rejects_capitalized_role() {
    assert!(decode_line("{\"role\":\"User\",\"content\":\"hi\"}").is_none());
}

#[test]
fn decode_rejects_missing_member() {
    assert!(decode_line("{\"role\":\"user\"}").is_none());
}

#[test]
fn decode_rejects_repeated_member() {
    assert!(decode_line("{\"role\":\"user\",\"role\":\"user\"}").is_none());
}

#[test]
fn decode_rejects_unknown_member() {
    assert!(decode_line("{\"role\":\"user\",\"extra\":\"hi\"}").is_none());
}

#[test]
fn decode_rejects_trailing_text() {
    assert!(decode_line("{\"role\":\"user\",\"content\":\"hi\"} ").is_none());
}

#[test]
fn decode_rejects_unclosed_string() {
    assert!(decode_line("{\"role\":\"user\",\"content\":\"hi}").is_none());
}

#[test]
fn decode_rejects_raw_control_character() {
    assert!(decode_line("{\"role\":\"user\",\"content\":\"a\tb\"}").is_none());
}

#[test]
fn decode_rejects_bad_escape() {
    assert!(decode_line("{\"role\":\"user\",\"content\":\"a\\qb\"}").is_none());
}

#[test]
fn decode_rejects_surrogate_escape() {
    assert!(decode_line("{\"role\":\"user\",\"content\":\"\\ud83d\\ude00\"}").is_none());
}

#[test]
fn decode_rejects_empty_input() {
    assert!(decode_line("").is_none());
    assert!(decode_line("{}").is_none());
}

#[test]
fn decode_inverts_encode() {
    let cases = [
        msg(Role::User, "plain"),
        msg(Role::Assistant, ""),
        msg(Role::System, "quotes \" and \\ and \u{7f}"),
        msg(Role::User, "line\nbreaks\r\nand\ttabs"),
        msg(Role::Assistant, "control \u{0} \u{1f} \u{b} chars"),
        msg(Role::User, "unicode h\u{e9}llo \u{2603} \u{1f600}"),
    ];
    for m in cases.iter() {
        let back = decode_line(&encode_line(m)).unwrap();
        assert_eq!(back.role, m.role);
        assert_eq!(back.content, m.content);
    }
}

#[test]
fn encoder_output_is_plain_json() {
    let line = encode_line(&msg(Role::System, "x \"y\"\nz"));
    let v: serde_json::Value = serde_json::from_str(&line).unwrap();
    assert_eq!(v["role"].as_str().unwrap(), "system");
    assert_eq!(v["content"].as_str().unwrap(), "x \"y\"\nz");
}

#[test]
fn decoder_reads_serde_json_output() {
    let mut obj = serde_json::Map::new();
    obj.insert(
        String::from("role"),
        serde_json::Value::String(String::from("assistant")),
    );
    obj.insert(
        String::from("content"),
        serde_json::Value::String(String::from("hi\tthere \u{2603}")),
    );
    let line = serde_json::to_string(&serde_json::Value::Object(obj)).unwrap();
    let m = decode_line(&line).unwrap();
    assert_eq!(m.role, Role::Assistant);
    assert_eq!(m.content, "hi\tthere \u{2603}");
}

#[test]
fn transcript_block_is_content_and_blank_line() {
    assert_eq!(transcript_block(&msg(Role::User, "hi")), "hi\n\n");
    assert_eq!(transcript_block(&msg(Role::Assistant, "")), "\n\n");
}

#[test]
fn transcript_text_concatenates_blocks() {
    let v = vec![msg(Role::User, "q"), msg(Role::Assistant, "a")];
    assert_eq!(transcript_text(&v), "q\n\na\n\n");
    let empty: Vec<ChatGptMessage> = Vec::new();
    assert_eq!(transcript_text(&empty), "");
}
