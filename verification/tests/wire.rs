//! The envelope codec observed from outside: exact frames, the round
//! trip, the alternate kind words, and every way a frame can be
//! malformed.

use tensor_trade_stream::codec::{decode, encode, DecodeError};
use tensor_trade_stream::envelope::{Payload, PayloadKind};

fn bytes(s: &str) -> Vec<u8> {
    s.as_bytes().to_vec()
}

#[test]
fn encode_stop_is_exact() {
    let p = Payload::stop(bytes("abc"));
    assert_eq!(encode(&p), bytes(r#"{"id":"abc","type":"stop","payload":null}"#));
}

#[test]
fn encode_init_is_exact() {
    let p = Payload::init(bytes("c-1"));
    assert_eq!(encode(&p), bytes(r#"{"id":"c-1","type":"connection_init","payload":null}"#));
}

#[test]
fn encode_subscribe_carries_query_verbatim() {
    let p = Payload::subscribe(bytes("s1"), bytes(r#"{"query":"sub { x }"}"#));
    assert_eq!(
        encode(&p),
        bytes(r#"{"id":"s1","type":"subscribe","payload":{"query":"sub { x }"}}"#)
    );
}

#[test]
fn round_trip_data_envelope() {
    let p = Payload {
        id: bytes("4f0c"),
        kind: PayloadKind::Data,
        body: Some(bytes(r#"{"n": 1, "xs": [true, null, "a}b"]}"#)),
    };
    let back = decode(&encode(&p)).expect("well-formed envelope must decode");
    assert_eq!(back.id, p.id);
    assert_eq!(back.kind, p.kind);
    assert_eq!(back.body, p.body);
}

#[test]
fn round_trip_bodyless_envelope() {
    for k in [PayloadKind::Init, PayloadKind::Stop, PayloadKind::Complete] {
        let p = Payload { id: bytes("z-9"), kind: k, body: None };
        let back = decode(&encode(&p)).expect("well-formed envelope must decode");
        assert_eq!(back.id, p.id);
        assert_eq!(back.kind, p.kind);
        assert_eq!(back.body, None);
    }
}

#[test]
fn decode_reads_canonical_frame() {
    let p = decode(&bytes(r#"{"id":"s1","type":"next","payload":{"x":[1,2]}}"#)).unwrap();
    assert_eq!(p.id, bytes("s1"));
    assert_eq!(p.kind, PayloadKind::Data);
    assert_eq!(p.body, Some(bytes(r#"{"x":[1,2]}"#)));
}

#[test]
fn decode_accepts_fields_in_any_order() {
    let frames = [
        r#"{"id":"s1","payload":{"x":1},"type":"next"}"#,
        r#"{"type":"next","id":"s1","payload":{"x":1}}"#,
        r#"{"type":"next","payload":{"x":1},"id":"s1"}"#,
        r#"{"payload":{"x":1},"id":"s1","type":"next"}"#,
        r#"{"payload":{"x":1},"type":"next","id":"s1"}"#,
    ];
    for f in frames {
        let p = decode(&bytes(f)).expect("every member order is a valid frame");
        assert_eq!(p.id, bytes("s1"));
        assert_eq!(p.kind, PayloadKind::Data);
        assert_eq!(p.body, Some(bytes(r#"{"x":1}"#)));
    }
}

#[test]
fn decode_rejects_duplicate_or_alien_keys() {
    assert!(decode(&bytes(r#"{"id":"a","id":"b","payload":null}"#)).is_err());
    assert!(decode(&bytes(r#"{"id":"a","type":"stop","extra":null}"#)).is_err());
    assert!(decode(&bytes(r#"{"id":"a","type":"stop","payload":null,"extra":1}"#)).is_err());
}

#[test]
fn decode_rejects_multi_value_payload() {
    // A top-level comma would split the payload into two values.
    assert!(decode(&bytes(r#"{"id":"a","type":"next","payload":1,2}"#)).is_err());
}

#[test]
fn decode_accepts_alternate_kind_words() {
    let p = decode(&bytes(r#"{"id":"a","type":"start","payload":{"q":1}}"#)).unwrap();
    assert_eq!(p.kind, PayloadKind::Subscribe);
    let p = decode(&bytes(r#"{"id":"a","type":"data","payload":[1]}"#)).unwrap();
    assert_eq!(p.kind, PayloadKind::Data);
}

#[test]
fn decode_reads_error_and_complete() {
    let p = decode(&bytes(r#"{"id":"a","type":"error","payload":{"m":"no"}}"#)).unwrap();
    assert_eq!(p.kind, PayloadKind::Error);
    let p = decode(&bytes(r#"{"id":"a","type":"complete","payload":null}"#)).unwrap();
    assert_eq!(p.kind, PayloadKind::Complete);
    assert_eq!(p.body, None);
}

#[test]
fn decode_null_payload_is_no_body() {
    let p = decode(&bytes(r#"{"id":"a","type":"stop","payload":null}"#)).unwrap();
    assert_eq!(p.body, None);
}

#[test]
fn decode_rejects_unknown_kind_word() {
    let r = decode(&bytes(r#"{"id":"a","type":"later","payload":null}"#));
    assert_eq!(r.unwrap_err(), DecodeError::MalformedEnvelope);
}

#[test]
fn decode_rejects_missing_fields() {
    assert!(decode(&bytes(r#"{"type":"stop","payload":null}"#)).is_err());
    assert!(decode(&bytes(r#"{"id":"a","payload":null}"#)).is_err());
    assert!(decode(&bytes(r#"{"id":"a","type":"stop"}"#)).is_err());
    assert!(decode(&bytes("")).is_err());
    assert!(decode(&bytes("{}")).is_err());
}

#[test]
fn decode_rejects_empty_or_unusable_id() {
    assert!(decode(&bytes(r#"{"id":"","type":"stop","payload":null}"#)).is_err());
    assert!(decode(&bytes("{\"id\":\"a\\b\",\"type\":\"stop\",\"payload\":null}")).is_err());
    assert!(decode(&bytes("{\"id\":\"a\tb\",\"type\":\"stop\",\"payload\":null}")).is_err());
}

#[test]
fn decode_rejects_structurally_unsound_body() {
    assert!(decode(&bytes(r#"{"id":"a","type":"next","payload":{"x":1}"#)).is_err());
    assert!(decode(&bytes(r#"{"id":"a","type":"next","payload":{"x":1}}}"#)).is_err());
    assert!(decode(&bytes(r#"{"id":"a","type":"next","payload":]}"#)).is_err());
    assert!(decode(&bytes(r#"{"id":"a","type":"next","payload":"open}"#)).is_err());
    assert!(decode(&bytes(r#"{"id":"a","type":"next","payload":}"#)).is_err());
}

#[test]
fn decode_rejects_wrong_framing() {
    assert!(decode(&bytes(r#"["id","a"]"#)).is_err());
    assert!(decode(&bytes(r#"{"di":"a","type":"stop","payload":null}"#)).is_err());
    assert!(decode(&bytes(r#"{"id":"a","type":"stop","payload":null"#)).is_err());
}

#[test]
fn body_with_braces_inside_strings_survives() {
    let p = Payload {
        id: bytes("q"),
        kind: PayloadKind::Data,
        body: Some(bytes(r#"{"s":"}{\"[]"}"#)),
    };
    let back = decode(&encode(&p)).unwrap();
    assert_eq!(back.body, p.body);
}
