//! The schema scalar newtypes and the connection parameters.

use tensor_trade_stream::connect::connect_params;
use tensor_trade_stream::queries::{BigInt, Decimal, Timestamp};

#[test]
fn timestamp_wraps_its_value() {
    assert_eq!(Timestamp::new(1_700_000_000).0, 1_700_000_000);
    assert_eq!(Timestamp::from(-5).0, -5);
}

#[test]
fn big_int_keeps_its_text() {
    assert_eq!(BigInt::new("340282366920938463463374607431768211455".to_string()).0,
        "340282366920938463463374607431768211455");
    assert_eq!(BigInt::from("0".to_string()).0, "0");
}

#[test]
fn decimal_keeps_its_text() {
    assert_eq!(Decimal::new("12.750000000".to_string()).0, "12.750000000");
    assert_eq!(Decimal::from("-0.5".to_string()).0, "-0.5");
}

#[test]
fn connect_params_carry_the_credential() {
    let p = connect_params(Some("key-123".to_string()));
    assert_eq!(p.endpoint, "wss://api.tensor.so/graphql");
    assert_eq!(p.subprotocol, "graphql-transport-ws");
    assert_eq!(p.api_key_header, "X-TENSOR-API-KEY");
    assert_eq!(p.api_key.as_deref(), Some("key-123"));
}

#[test]
fn connect_params_allow_anonymous_access() {
    let p = connect_params(None);
    assert_eq!(p.api_key, None);
}
