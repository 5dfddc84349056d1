//! A multiplexing client for event-query subscriptions over a single
//! bidirectional connection: an envelope wire format with a verified
//! encoder and decoder, and a subscription registry that routes inbound
//! envelopes to the right subscriber.

pub mod envelope;
pub mod json;
pub mod codec;
pub mod ids;
pub mod connect;
pub mod mux;
pub mod queries;
