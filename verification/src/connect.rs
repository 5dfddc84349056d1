//! The connection parameters of the handshake: the endpoint, the
//! subprotocol the connection request declares, and the optional
//! credential header. The transport side performs the handshake with
//! exactly these values; absence of the credential is legal where the
//! server permits anonymous access.

use vstd::prelude::*;

verus! {

pub struct ConnectParams {
    pub endpoint: String,
    pub subprotocol: String,
    pub api_key_header: String,
    pub api_key: Option<String>,
}

/// The parameters for connecting to the event-query server, carrying
/// the caller's API key where one was supplied.
pub fn connect_params(api_key: Option<String>) -> (r: ConnectParams)
    ensures
        r.endpoint@ == "wss://api.tensor.so/graphql"@,
        r.subprotocol@ == "graphql-transport-ws"@,
        r.api_key_header@ == "X-TENSOR-API-KEY"@,
        r.api_key == api_key,
{
    ConnectParams {
        endpoint: String::from_str("wss://api.tensor.so/graphql"),
        subprotocol: String::from_str("graphql-transport-ws"),
        api_key_header: String::from_str("X-TENSOR-API-KEY"),
        api_key,
    }
}

} // verus!
