use rume_core::messages::ChatMessage;
use rume_core::wire::{decode_room_message, encode_chat_message};

fn chat(user: &str, room: &str, text: &str) -> ChatMessage {
    ChatMessage {
        user: user.to_string(),
        room: room.to_string(),
        message: text.to_string(),
    }
}

#[test]
fn decode_a_plain_frame() {
    let frame = "{\"UserId\":\"alice\",\"ChatroomName\":\"lobby\",\"Content\":\"hi\",\"Timestamp\":\"1970-01-01T00:00:10Z\"}";
    let m = decode_room_message(frame).expect("well-formed frame");
    assert_eq!(m.user, "alice");
    assert_eq!(m.room, "lobby");
    assert_eq!(m.message, "hi");
    assert_eq!(m.timestamp, 10_000);
}

#[test]
fn decode_reads_rfc3339_instants() {
    let frame = "{\"UserId\":\"a\",\"ChatroomName\":\"r\",\"Content\":\"c\",\"Timestamp\":\"2001-09-09T01:46:40.555Z\"}";
    let m = decode_room_message(frame).expect("well-formed frame");
    assert_eq!(m.timestamp, 1_000_000_000_555);
    let frame = "{\"UserId\":\"a\",\"ChatroomName\":\"r\",\"Content\":\"c\",\"Timestamp\":\"1969-12-31T23:59:59Z\"}";
    let m = decode_room_message(frame).expect("well-formed frame");
    assert_eq!(m.timestamp, -1_000);
}

#[test]
fn decode_accepts_any_field_order_and_whitespace() {
    let frame = " { \"Timestamp\" : \"1970-01-01T00:00:01Z\" ,\n\t\"Content\":\"text\", \"UserId\":\"bob\", \"ChatroomName\":\"den\" } ";
    let m = decode_room_message(frame).expect("well-formed frame");
    assert_eq!(m.user, "bob");
    assert_eq!(m.room, "den");
    assert_eq!(m.message, "text");
    assert_eq!(m.timestamp, 1_000);
}

#[test]
fn decode_honours_string_escapes() {
    let frame = "{\"UserId\":\"a\\\\b\",\"ChatroomName\":\"r\",\"Content\":\"line\\nbreak \\\"quoted\\\" \\u0041\\u00e9 \\/slash\\ttab\",\"Timestamp\":\"1970-01-01T00:00:00Z\"}";
    let m = decode_room_message(frame).expect("well-formed frame");
    assert_eq!(m.user, "a\\b");
    assert_eq!(m.message, "line\nbreak \"quoted\" A\u{e9} /slash\ttab");
    assert_eq!(m.timestamp, 0);
}

#[test]
fn decode_keeps_non_ascii_content() {
    let frame = "{\"UserId\":\"søren\",\"ChatroomName\":\"καφέ\",\"Content\":\"héllo ☕\",\"Timestamp\":\"1970-01-01T00:00:00Z\"}";
    let m = decode_room_message(frame).expect("well-formed frame");
    assert_eq!(m.user, "søren");
    assert_eq!(m.room, "καφέ");
    assert_eq!(m.message, "héllo ☕");
}

#[test]
fn decode_rejects_malformed_frames() {
    // no object at all
    assert!(decode_room_message("").is_none());
    assert!(decode_room_message("hello").is_none());
    // missing field
    assert!(decode_room_message(
        "{\"UserId\":\"a\",\"ChatroomName\":\"r\",\"Content\":\"c\"}"
    )
    .is_none());
    // repeated field instead of the four expected ones
    assert!(decode_room_message(
        "{\"UserId\":\"a\",\"UserId\":\"b\",\"Content\":\"c\",\"Timestamp\":\"1970-01-01T00:00:00Z\"}"
    )
    .is_none());
    // unknown key in place of an expected one
    assert!(decode_room_message(
        "{\"UserId\":\"a\",\"ChatroomName\":\"r\",\"Subject\":\"c\",\"Timestamp\":\"1970-01-01T00:00:00Z\"}"
    )
    .is_none());
    // trailing text after the record
    assert!(decode_room_message(
        "{\"UserId\":\"a\",\"ChatroomName\":\"r\",\"Content\":\"c\",\"Timestamp\":\"1970-01-01T00:00:00Z\"}x"
    )
    .is_none());
    // unterminated string
    assert!(decode_room_message(
        "{\"UserId\":\"a\",\"ChatroomName\":\"r\",\"Content\":\"c\",\"Timestamp\":\"1970-01-01T00:00:00Z"
    )
    .is_none());
}

#[test]
fn decode_rejects_bad_escapes_and_timestamps() {
    // surrogate escape
    assert!(decode_room_message(
        "{\"UserId\":\"a\",\"ChatroomName\":\"r\",\"Content\":\"\\ud800\",\"Timestamp\":\"1970-01-01T00:00:00Z\"}"
    )
    .is_none());
    // bad hex digit
    assert!(decode_room_message(
        "{\"UserId\":\"a\",\"ChatroomName\":\"r\",\"Content\":\"\\u00zz\",\"Timestamp\":\"1970-01-01T00:00:00Z\"}"
    )
    .is_none());
    // unknown escape
    assert!(decode_room_message(
        "{\"UserId\":\"a\",\"ChatroomName\":\"r\",\"Content\":\"\\q\",\"Timestamp\":\"1970-01-01T00:00:00Z\"}"
    )
    .is_none());
    // raw control character
    assert!(decode_room_message(
        "{\"UserId\":\"a\",\"ChatroomName\":\"r\",\"Content\":\"a\u{1}b\",\"Timestamp\":\"1970-01-01T00:00:00Z\"}"
    )
    .is_none());
    // timestamp that is no RFC 3339 instant
    assert!(decode_room_message(
        "{\"UserId\":\"a\",\"ChatroomName\":\"r\",\"Content\":\"c\",\"Timestamp\":\"yesterday\"}"
    )
    .is_none());
}

#[test]
fn encode_a_plain_intent() {
    let frame = encode_chat_message(&chat("me", "lobby", "hello"));
    assert_eq!(
        frame,
        "{\"User\":\"me\",\"ChatroomName\":\"lobby\",\"Message\":\"hello\"}"
    );
}

#[test]
fn encode_escapes_quotes_backslashes_and_controls() {
    let frame = encode_chat_message(&chat("a\"b", "c\\d", "line\nbreak\ttab\r\u{8}\u{c}\u{1}\u{1f}"));
    assert_eq!(
        frame,
        "{\"User\":\"a\\\"b\",\"ChatroomName\":\"c\\\\d\",\"Message\":\"line\\nbreak\\ttab\\r\\b\\f\\u0001\\u001f\"}"
    );
}

#[test]
fn encode_passes_non_ascii_through() {
    let frame = encode_chat_message(&chat("søren", "καφέ", "héllo ☕"));
    assert_eq!(
        frame,
        "{\"User\":\"søren\",\"ChatroomName\":\"καφέ\",\"Message\":\"héllo ☕\"}"
    );
}

#[test]
fn escaping_round_trips_through_decode() {
    // an inbound frame whose content uses every named escape comes back as
    // the characters the escapes stand for
    let content = "\"\\/\u{8}\u{c}\n\r\t\u{1}";
    let mut escaped = String::new();
    for c in content.chars() {
        match c {
            '"' => escaped.push_str("\\\""),
            '\\' => escaped.push_str("\\\\"),
            '\u{8}' => escaped.push_str("\\b"),
            '\u{c}' => escaped.push_str("\\f"),
            '\n' => escaped.push_str("\\n"),
            '\r' => escaped.push_str("\\r"),
            '\t' => escaped.push_str("\\t"),
            c if (c as u32) < 0x20 => escaped.push_str(&format!("\\u{:04x}", c as u32)),
            c => escaped.push(c),
        }
    }
    let frame = format!(
        "{{\"UserId\":\"a\",\"ChatroomName\":\"r\",\"Content\":\"{}\",\"Timestamp\":\"1970-01-01T00:00:00Z\"}}",
        escaped
    );
    let m = decode_room_message(&frame).expect("well-formed frame");
    assert_eq!(m.message, content);
}
