//! The scalar newtypes the query schema uses, and the marker types of
//! the subscriptions this client issues. Query text and response
//! schemas are external collaborators: a query travels as the opaque
//! body of a `subscribe` envelope, and a response comes back as the
//! opaque body of a `Data` envelope.

use vstd::prelude::*;

verus! {

/// A decimal scalar, carried as its exact textual form.
#[derive(Debug, Clone)]
pub struct Decimal(pub String);

impl Decimal {
    pub fn new(decimal: String) -> (r: Decimal)
        ensures
            r.0 == decimal,
    {
        Decimal(decimal)
    }
}

impl From<String> for Decimal {
    fn from(item: String) -> (r: Decimal)
        ensures
            r.0 == item,
    {
        Decimal::new(item)
    }
}

impl vstd::std_specs::convert::FromSpecImpl<String> for Decimal {
    open spec fn obeys_from_spec() -> bool {
        true
    }

    open spec fn from_spec(t: String) -> Decimal {
        Decimal(t)
    }
}

/// A timestamp scalar: seconds since the epoch.
#[derive(Debug, Clone)]
pub struct Timestamp(pub i64);

impl Timestamp {
    pub fn new(timestamp: i64) -> (r: Timestamp)
        ensures
            r.0 == timestamp,
    {
        Timestamp(timestamp)
    }
}

impl From<i64> for Timestamp {
    fn from(item: i64) -> (r: Timestamp)
        ensures
            r.0 == item,
    {
        Timestamp::new(item)
    }
}

impl vstd::std_specs::convert::FromSpecImpl<i64> for Timestamp {
    open spec fn obeys_from_spec() -> bool {
        true
    }

    open spec fn from_spec(t: i64) -> Timestamp {
        Timestamp(t)
    }
}

/// A big integer scalar, carried as its exact textual form.
#[derive(Debug, Clone)]
pub struct BigInt(pub String);

impl BigInt {
    pub fn new(big_int: String) -> (r: BigInt)
        ensures
            r.0 == big_int,
    {
        BigInt(big_int)
    }
}

impl From<String> for BigInt {
    fn from(item: String) -> (r: BigInt)
        ensures
            r.0 == item,
    {
        BigInt::new(item)
    }
}

impl vstd::std_specs::convert::FromSpecImpl<String> for BigInt {
    open spec fn obeys_from_spec() -> bool {
        true
    }

    open spec fn from_spec(t: String) -> BigInt {
        BigInt(t)
    }
}

/// Marker for the subscription streaming every order update.
#[derive(Debug, Clone)]
pub struct TswapOrderUpdateAll;

/// Marker for the subscription streaming order updates of one
/// collection.
#[derive(Debug, Clone)]
pub struct TswapOrderUpdate;

/// Marker for the subscription streaming newly observed transactions.
#[derive(Debug, Clone)]
pub struct NewTransactionTV2;

} // verus!
