//! The multiplexer observed from outside: isolation between
//! subscriptions, cancellation, shutdown, routing misses, malformed
//! frames, and the full subscribe-deliver-cancel scenario.

use tensor_trade_stream::codec::encode;
use tensor_trade_stream::envelope::{Payload, PayloadKind};
use tensor_trade_stream::mux::{FrameOutcome, NextResult, RouteOutcome, SubscriptionClient};

fn bytes(s: &str) -> Vec<u8> {
    s.as_bytes().to_vec()
}

fn data_env(id: &str, body: &str) -> Payload {
    Payload { id: bytes(id), kind: PayloadKind::Data, body: Some(bytes(body)) }
}

fn expect_item(r: NextResult) -> Payload {
    match r {
        NextResult::Item(p) => p,
        other => panic!("expected a delivered envelope, got {:?}", other),
    }
}

#[test]
fn start_emits_init_then_subscribe() {
    let mut c = SubscriptionClient::new(true, 16);
    c.start_with_id(bytes("s1"), bytes(r#"{"query":"q1"}"#));
    let out = c.take_outbound();
    assert_eq!(out.len(), 2);
    assert_eq!(out[0].kind, PayloadKind::Init);
    assert_eq!(out[0].id, bytes("s1"));
    assert_eq!(out[1].kind, PayloadKind::Subscribe);
    assert_eq!(out[1].id, bytes("s1"));
    assert_eq!(out[1].body, Some(bytes(r#"{"query":"q1"}"#)));
}

#[test]
fn init_once_variant_skips_later_inits() {
    let mut c = SubscriptionClient::new(false, 16);
    c.start_with_id(bytes("s1"), bytes(r#"{"q":1}"#));
    c.start_with_id(bytes("s2"), bytes(r#"{"q":2}"#));
    let out = c.take_outbound();
    let kinds: Vec<PayloadKind> = out.iter().map(|p| p.kind).collect();
    assert_eq!(
        kinds,
        vec![PayloadKind::Init, PayloadKind::Subscribe, PayloadKind::Subscribe]
    );
}

#[test]
fn routing_is_isolated_between_subscriptions() {
    let mut c = SubscriptionClient::new(true, 16);
    c.start_with_id(bytes("aa"), bytes(r#"{"q":1}"#));
    c.start_with_id(bytes("bb"), bytes(r#"{"q":2}"#));
    assert_eq!(c.route(data_env("aa", r#"{"v":1}"#)), RouteOutcome::Delivered);
    let p = expect_item(c.next(&bytes("aa")));
    assert_eq!(p.body, Some(bytes(r#"{"v":1}"#)));
    match c.next(&bytes("bb")) {
        NextResult::Pending => {}
        other => panic!("the other subscription must see nothing, got {:?}", other),
    }
}

#[test]
fn cancel_leaves_other_subscription_receiving() {
    let mut c = SubscriptionClient::new(true, 16);
    c.start_with_id(bytes("aa"), bytes(r#"{"q":1}"#));
    c.start_with_id(bytes("bb"), bytes(r#"{"q":2}"#));
    c.take_outbound();
    assert!(c.cancel(&bytes("aa")));
    let out = c.take_outbound();
    assert_eq!(out.len(), 1);
    assert_eq!(out[0].kind, PayloadKind::Stop);
    assert_eq!(out[0].id, bytes("aa"));
    assert_eq!(c.route(data_env("bb", r#"{"v":7}"#)), RouteOutcome::Delivered);
    let p = expect_item(c.next(&bytes("bb")));
    assert_eq!(p.body, Some(bytes(r#"{"v":7}"#)));
    assert_eq!(c.route(data_env("aa", r#"{"v":8}"#)), RouteOutcome::UnknownId);
}

#[test]
fn cancel_twice_is_a_no_op() {
    let mut c = SubscriptionClient::new(true, 16);
    c.start_with_id(bytes("aa"), bytes(r#"{"q":1}"#));
    c.take_outbound();
    assert!(c.cancel(&bytes("aa")));
    assert!(!c.cancel(&bytes("aa")));
    assert!(!c.cancel(&bytes("never")));
    let out = c.take_outbound();
    assert_eq!(out.len(), 1);
}

#[test]
fn shutdown_stops_each_live_subscription_once() {
    let mut c = SubscriptionClient::new(true, 16);
    c.start_with_id(bytes("s1"), bytes(r#"{"q":1}"#));
    c.start_with_id(bytes("s2"), bytes(r#"{"q":2}"#));
    c.start_with_id(bytes("s3"), bytes(r#"{"q":3}"#));
    assert!(c.cancel(&bytes("s2")));
    c.take_outbound();
    c.shutdown();
    let out = c.take_outbound();
    let mut stop_ids: Vec<Vec<u8>> = out
        .iter()
        .filter(|p| p.kind == PayloadKind::Stop)
        .map(|p| p.id.clone())
        .collect();
    stop_ids.sort();
    assert_eq!(out.len(), 2);
    assert_eq!(stop_ids, vec![bytes("s1"), bytes("s3")]);
    for id in ["s1", "s2", "s3"] {
        match c.next(&bytes(id)) {
            NextResult::Ended => {}
            other => panic!("all handles must report completion, got {:?}", other),
        }
    }
    assert_eq!(c.route(data_env("s1", r#"{"v":1}"#)), RouteOutcome::UnknownId);
}

#[test]
fn shutdown_leaves_undelivered_items_consumable() {
    let mut c = SubscriptionClient::new(true, 4);
    c.start_with_id(bytes("s1"), bytes(r#"{"q":1}"#));
    assert_eq!(c.route(data_env("s1", r#"{"v":1}"#)), RouteOutcome::Delivered);
    c.shutdown();
    let p = expect_item(c.next(&bytes("s1")));
    assert_eq!(p.body, Some(bytes(r#"{"v":1}"#)));
    match c.next(&bytes("s1")) {
        NextResult::Ended => {}
        other => panic!("drained handle must report completion, got {:?}", other),
    }
}

#[test]
fn unknown_id_is_dropped_without_effect() {
    let mut c = SubscriptionClient::new(true, 16);
    c.start_with_id(bytes("s1"), bytes(r#"{"q":1}"#));
    assert_eq!(c.route(data_env("ghost", r#"{"v":0}"#)), RouteOutcome::UnknownId);
    assert_eq!(c.route(data_env("s1", r#"{"v":1}"#)), RouteOutcome::Delivered);
    let p = expect_item(c.next(&bytes("s1")));
    assert_eq!(p.body, Some(bytes(r#"{"v":1}"#)));
}

#[test]
fn malformed_frame_does_not_block_the_next_valid_one() {
    let mut c = SubscriptionClient::new(true, 16);
    c.start_with_id(bytes("s1"), bytes(r#"{"q":1}"#));
    assert_eq!(c.handle_frame(&bytes("not a frame at all")), FrameOutcome::Malformed);
    assert_eq!(
        c.handle_frame(&bytes(r#"{"id":"s1","type":"next","payload":{"v":1}"#)),
        FrameOutcome::Malformed
    );
    let good = encode(&data_env("s1", r#"{"v":2}"#));
    assert_eq!(c.handle_frame(&good), FrameOutcome::Delivered);
    let p = expect_item(c.next(&bytes("s1")));
    assert_eq!(p.body, Some(bytes(r#"{"v":2}"#)));
}

#[test]
fn full_queue_drops_latest_and_keeps_earlier() {
    let mut c = SubscriptionClient::new(true, 1);
    c.start_with_id(bytes("s1"), bytes(r#"{"q":1}"#));
    assert_eq!(c.route(data_env("s1", r#"{"v":1}"#)), RouteOutcome::Delivered);
    assert_eq!(c.route(data_env("s1", r#"{"v":2}"#)), RouteOutcome::QueueFull);
    let p = expect_item(c.next(&bytes("s1")));
    assert_eq!(p.body, Some(bytes(r#"{"v":1}"#)));
}

#[test]
fn delivery_keeps_arrival_order() {
    let mut c = SubscriptionClient::new(true, 16);
    c.start_with_id(bytes("s1"), bytes(r#"{"q":1}"#));
    for i in 1..=3 {
        let body = format!("{{\"v\":{}}}", i);
        assert_eq!(c.route(data_env("s1", &body)), RouteOutcome::Delivered);
    }
    for i in 1..=3 {
        let p = expect_item(c.next(&bytes("s1")));
        assert_eq!(p.body, Some(bytes(&format!("{{\"v\":{}}}", i))));
    }
}

#[test]
fn complete_envelope_ends_its_subscription() {
    let mut c = SubscriptionClient::new(true, 16);
    c.start_with_id(bytes("s1"), bytes(r#"{"q":1}"#));
    c.start_with_id(bytes("s2"), bytes(r#"{"q":2}"#));
    let fin = Payload { id: bytes("s1"), kind: PayloadKind::Complete, body: None };
    assert_eq!(c.route(fin), RouteOutcome::Delivered);
    // The terminal envelope is still delivered, then the handle ends.
    let p = expect_item(c.next(&bytes("s1")));
    assert_eq!(p.kind, PayloadKind::Complete);
    match c.next(&bytes("s1")) {
        NextResult::Ended => {}
        other => panic!("completed handle must end cleanly, got {:?}", other),
    }
    // No further deliveries to the ended subscription; others go on.
    assert_eq!(c.route(data_env("s1", r#"{"v":9}"#)), RouteOutcome::UnknownId);
    assert_eq!(c.route(data_env("s2", r#"{"v":3}"#)), RouteOutcome::Delivered);
}

#[test]
fn error_envelope_fails_its_subscription() {
    let mut c = SubscriptionClient::new(true, 16);
    c.start_with_id(bytes("s1"), bytes(r#"{"q":1}"#));
    let err = Payload {
        id: bytes("s1"),
        kind: PayloadKind::Error,
        body: Some(bytes(r#"{"message":"no such collection"}"#)),
    };
    assert_eq!(c.route(err), RouteOutcome::Delivered);
    let p = expect_item(c.next(&bytes("s1")));
    assert_eq!(p.kind, PayloadKind::Error);
    match c.next(&bytes("s1")) {
        NextResult::Failed => {}
        other => panic!("errored handle must end as failed, got {:?}", other),
    }
    assert_eq!(c.route(data_env("s1", r#"{"v":9}"#)), RouteOutcome::UnknownId);
}

#[test]
fn connection_failure_surfaces_once_per_handle() {
    let mut c = SubscriptionClient::new(true, 16);
    c.start_with_id(bytes("s1"), bytes(r#"{"q":1}"#));
    c.connection_failed();
    match c.next(&bytes("s1")) {
        NextResult::Failed => {}
        other => panic!("expected a failed end, got {:?}", other),
    }
    let out = c.take_outbound();
    assert_eq!(out.iter().filter(|p| p.kind == PayloadKind::Stop).count(), 0);
}

#[test]
fn connection_close_completes_handles() {
    let mut c = SubscriptionClient::new(true, 16);
    c.start_with_id(bytes("s1"), bytes(r#"{"q":1}"#));
    c.connection_closed();
    match c.next(&bytes("s1")) {
        NextResult::Ended => {}
        other => panic!("expected a clean end, got {:?}", other),
    }
}

#[test]
fn start_draws_a_usable_random_id() {
    let mut c = SubscriptionClient::new(true, 16);
    let id = c.start(bytes(r#"{"q":1}"#)).expect("a fresh registry cannot collide");
    assert_eq!(id.len(), 36);
    assert!(id.iter().all(|b| b.is_ascii_hexdigit() || *b == b'-'));
    let out = c.take_outbound();
    assert_eq!(out.len(), 2);
    assert_eq!(out[1].kind, PayloadKind::Subscribe);
    assert_eq!(out[1].id, id);
    assert_eq!(c.route(data_env(std::str::from_utf8(&id).unwrap(), r#"{"v":1}"#)),
        RouteOutcome::Delivered);
}

#[test]
fn two_random_subscriptions_get_distinct_ids() {
    let mut c = SubscriptionClient::new(true, 16);
    let a = c.start(bytes(r#"{"q":1}"#)).unwrap();
    let b = c.start(bytes(r#"{"q":2}"#)).unwrap();
    assert_ne!(a, b);
}

#[test]
fn scenario_subscribe_deliver_ignore_cancel() {
    let mut c = SubscriptionClient::new(true, 16);
    c.start_with_id(bytes("S1"), bytes(r#"{"query":"sub { n }"}"#));
    c.take_outbound();

    let frame = encode(&data_env("S1", r#"{"n": 1}"#));
    assert_eq!(c.handle_frame(&frame), FrameOutcome::Delivered);
    let p = expect_item(c.next(&bytes("S1")));
    let decoded: serde_json::Value = serde_json::from_slice(&p.body.unwrap()).unwrap();
    assert_eq!(decoded.get("n").and_then(|v| v.as_i64()), Some(1));

    let stray = encode(&data_env("S2", r#"{"n": 2}"#));
    assert_eq!(c.handle_frame(&stray), FrameOutcome::UnknownId);
    match c.next(&bytes("S1")) {
        NextResult::Pending => {}
        other => panic!("the stray frame must not reach S1, got {:?}", other),
    }

    assert!(c.cancel(&bytes("S1")));
    let out = c.take_outbound();
    assert_eq!(out.len(), 1);
    assert_eq!(out[0].id, bytes("S1"));
    assert_eq!(out[0].kind, PayloadKind::Stop);
    match c.next(&bytes("S1")) {
        NextResult::Ended => {}
        other => panic!("the cancelled handle must report completion, got {:?}", other),
    }
}
