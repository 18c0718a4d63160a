use chat::codec::{
    decode_chat_message, decode_new_chat_message, decode_subscription, encode_chat_message,
    encode_new_chat_message, encode_subscription,
};
use chat::ids::{encode_uuid, encode_uuid_underscored, parse_uuid, ChatId};
use chat::messages::{ChatMessage, NewChatMessage, SerializableDuration, SubscriptionData};
use chat::numbers::{format_i64, format_u64, parse_i64_dec, parse_i64_flexible, parse_u64_dec};
use chat::text::{escape, unescape};

fn sample_id_bytes() -> Vec<u8> {
    vec![
        0x67, 0xe5, 0x50, 0x44, 0x10, 0xb1, 0x42, 0x6f, 0x92, 0x47, 0xbb, 0x68, 0x0e, 0x5f, 0xe0,
        0xc8,
    ]
}

fn sample_id() -> ChatId {
    ChatId::from_bytes(sample_id_bytes()).unwrap()
}

const SAMPLE_UUID: &str = "67e55044-10b1-426f-9247-bb680e5fe0c8";

#[test]
fn uuid_encodes_hyphenated_lowercase() {
    let encoded = encode_uuid(&sample_id());
    assert_eq!(encoded, SAMPLE_UUID.as_bytes().to_vec());
}

#[test]
fn uuid_round_trips() {
    let encoded = encode_uuid(&sample_id());
    let parsed = parse_uuid(&encoded).unwrap();
    assert_eq!(parsed.as_bytes(), &sample_id_bytes());
}

#[test]
fn uuid_rejects_uppercase_and_bad_shapes() {
    assert!(parse_uuid(b"67E55044-10b1-426f-9247-bb680e5fe0c8").is_none());
    assert!(parse_uuid(b"67e55044-10b1-426f-9247-bb680e5fe0c").is_none());
    assert!(parse_uuid(b"67e55044x10b1-426f-9247-bb680e5fe0c8").is_none());
    assert!(parse_uuid(b"").is_none());
}

#[test]
fn uuid_underscored_matches_table_suffix() {
    let encoded = encode_uuid_underscored(&sample_id());
    assert_eq!(encoded, "67e55044_10b1_426f_9247_bb680e5fe0c8".as_bytes().to_vec());
}

#[test]
fn decimal_formats_and_parses() {
    assert_eq!(format_u64(0), b"0".to_vec());
    assert_eq!(format_u64(18446744073709551615), b"18446744073709551615".to_vec());
    assert_eq!(format_i64(-9223372036854775808), b"-9223372036854775808".to_vec());
    assert_eq!(format_i64(42), b"42".to_vec());
    assert_eq!(parse_u64_dec(b"18446744073709551615"), Some(18446744073709551615));
    assert_eq!(parse_u64_dec(b"18446744073709551616"), None);
    assert_eq!(parse_u64_dec(b"007"), None);
    assert_eq!(parse_u64_dec(b""), None);
    assert_eq!(parse_i64_dec(b"-9223372036854775808"), Some(i64::MIN));
    assert_eq!(parse_i64_dec(b"-9223372036854775809"), None);
    assert_eq!(parse_i64_dec(b"9223372036854775807"), Some(i64::MAX));
    assert_eq!(parse_i64_dec(b"9223372036854775808"), None);
    assert_eq!(parse_i64_dec(b"-0"), None);
    assert_eq!(parse_i64_dec(b"12x"), None);
}

#[test]
fn flexible_parse_mirrors_str_parse() {
    assert_eq!(parse_i64_flexible(b"007"), Some(7));
    assert_eq!(parse_i64_flexible(b"+42"), Some(42));
    assert_eq!(parse_i64_flexible(b"-0"), Some(0));
    assert_eq!(parse_i64_flexible(b"0000000000000000000000005"), Some(5));
    assert_eq!(parse_i64_flexible(b"9223372036854775808"), None);
    assert_eq!(parse_i64_flexible(b"-9223372036854775808"), Some(i64::MIN));
    assert_eq!(parse_i64_flexible(b""), None);
    assert_eq!(parse_i64_flexible(b"+"), None);
    assert_eq!(parse_i64_flexible(b"1 2"), None);
}

#[test]
fn escape_spells_controls_and_round_trips() {
    let text = b"a\"b\\c\nd\te\rf\x08g\x0ch\x01i".to_vec();
    let escaped = escape(&text);
    assert_eq!(
        escaped,
        b"a\\\"b\\\\c\\nd\\te\\rf\\bg\\fh\\u0001i".to_vec()
    );
    assert_eq!(unescape(&escaped), Some(text));
}

#[test]
fn unescape_rejects_non_canonical() {
    assert!(unescape(b"a\"b").is_none());
    assert!(unescape(b"a\\x").is_none());
    assert!(unescape(b"a\\").is_none());
    assert!(unescape(b"\\u000a").is_none());
    assert!(unescape(b"\\u0041").is_none());
    assert!(unescape(b"raw\x07ctl").is_none());
}

#[test]
fn subscription_envelope_exact_bytes() {
    let d = SubscriptionData { chat_id: sample_id(), user_id: 42 };
    let payload = encode_subscription(&d);
    assert_eq!(
        payload,
        format!("{{\"chat_id\":\"{}\",\"user_id\":42}}", SAMPLE_UUID).into_bytes()
    );
}

#[test]
fn subscription_envelope_round_trips() {
    let d = SubscriptionData { chat_id: sample_id(), user_id: -7 };
    let payload = encode_subscription(&d);
    let back = decode_subscription(&payload).unwrap();
    assert_eq!(back.user_id, -7);
    assert_eq!(back.chat_id.as_bytes(), &sample_id_bytes());
}

#[test]
fn subscription_decode_drops_malformed() {
    assert!(decode_subscription(b"").is_none());
    assert!(decode_subscription(b"{}").is_none());
    let spaced =
        format!("{{\"chat_id\": \"{}\",\"user_id\":42}}", SAMPLE_UUID).into_bytes();
    assert!(decode_subscription(&spaced).is_none());
    let trailing =
        format!("{{\"chat_id\":\"{}\",\"user_id\":42}} ", SAMPLE_UUID).into_bytes();
    assert!(decode_subscription(&trailing).is_none());
    let bad_int =
        format!("{{\"chat_id\":\"{}\",\"user_id\":04}}", SAMPLE_UUID).into_bytes();
    assert!(decode_subscription(&bad_int).is_none());
}

#[test]
fn chat_message_envelope_exact_bytes() {
    let m = ChatMessage {
        chat_id: sample_id(),
        sender_id: 7,
        date: SerializableDuration { millis: 1700000000123 },
        msg_text: b"hi".to_vec(),
    };
    let payload = encode_chat_message(&m);
    assert_eq!(
        payload,
        format!(
            "{{\"chat_id\":\"{}\",\"sender_id\":7,\"date\":1700000000123,\"msg_text\":\"hi\"}}",
            SAMPLE_UUID
        )
        .into_bytes()
    );
}

#[test]
fn chat_message_envelope_round_trips() {
    let m = ChatMessage {
        chat_id: sample_id(),
        sender_id: -3,
        date: SerializableDuration { millis: -1 },
        msg_text: b"quote \" backslash \\ newline \n".to_vec(),
    };
    let payload = encode_chat_message(&m);
    let back = decode_chat_message(&payload).unwrap();
    assert_eq!(back.sender_id, -3);
    assert_eq!(back.date.millis, -1);
    assert_eq!(back.msg_text, m.msg_text);
    assert_eq!(back.chat_id.as_bytes(), &sample_id_bytes());
}

#[test]
fn chat_message_decode_drops_malformed() {
    assert!(decode_chat_message(b"").is_none());
    let missing_field =
        format!("{{\"chat_id\":\"{}\",\"sender_id\":7}}", SAMPLE_UUID).into_bytes();
    assert!(decode_chat_message(&missing_field).is_none());
    let reordered = format!(
        "{{\"sender_id\":7,\"chat_id\":\"{}\",\"date\":1,\"msg_text\":\"hi\"}}",
        SAMPLE_UUID
    )
    .into_bytes();
    assert!(decode_chat_message(&reordered).is_none());
}

#[test]
fn chat_message_envelope_is_json_serde_agrees() {
    let m = ChatMessage {
        chat_id: sample_id(),
        sender_id: 7,
        date: SerializableDuration { millis: 1700000000123 },
        msg_text: b"tab\there \"quoted\"".to_vec(),
    };
    let payload = encode_chat_message(&m);
    let v: serde_json::Value = serde_json::from_slice(&payload).unwrap();
    assert_eq!(v.get("chat_id").unwrap().as_str().unwrap(), SAMPLE_UUID);
    assert_eq!(v.get("sender_id").unwrap().as_i64().unwrap(), 7);
    assert_eq!(v.get("date").unwrap().as_i64().unwrap(), 1700000000123);
    assert_eq!(v.get("msg_text").unwrap().as_str().unwrap(), "tab\there \"quoted\"");
}

#[test]
fn new_chat_message_round_trips() {
    let m = NewChatMessage { chat_id: sample_id(), msg_text: b"hello".to_vec() };
    let payload = encode_new_chat_message(&m);
    assert_eq!(
        payload,
        format!("{{\"chat_id\":\"{}\",\"msg_text\":\"hello\"}}", SAMPLE_UUID).into_bytes()
    );
    let back = decode_new_chat_message(&payload).unwrap();
    assert_eq!(back.msg_text, b"hello".to_vec());
    assert_eq!(back.chat_id.as_bytes(), &sample_id_bytes());
    assert!(decode_new_chat_message(b"{\"msg_text\":\"hello\"}").is_none());
}
