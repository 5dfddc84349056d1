//! The envelope wire message: a correlation id, a message kind, and an
//! opaque structured body. Pure data; encoding and decoding live in
//! `codec`.

use vstd::prelude::*;

verus! {

/// The kind of message an envelope carries. `Init`, `Subscribe` and
/// `Stop` travel outbound as control messages; `Data`, `Error` and
/// `Complete` arrive inbound from the server.
#[derive(Clone, Copy, Debug, PartialEq, Eq, Structural)]
pub enum PayloadKind {
    Init,
    Subscribe,
    Stop,
    Data,
    Error,
    Complete,
}

/// Mathematical model of a `Payload`.
#[verifier::ext_equal]
pub struct PayloadView {
    pub id: Seq<u8>,
    pub kind: PayloadKind,
    pub body: Option<Seq<u8>>,
}

/// The raw message exchanged with the server. Only `id` and `kind` are
/// interpreted here; `body` is an opaque structured payload (raw text of
/// a single structured value), deferred to the caller that knows the
/// expected response shape. `body` is `None` where the wire carries no
/// payload (rendered as a null value).
#[derive(Debug)]
pub struct Payload {
    pub id: Vec<u8>,
    pub kind: PayloadKind,
    pub body: Option<Vec<u8>>,
}

impl View for Payload {
    type V = PayloadView;

    open spec fn view(&self) -> PayloadView {
        PayloadView {
            id: self.id@,
            kind: self.kind,
            body: match self.body {
                Some(b) => Some(b@),
                None => None,
            },
        }
    }
}

/// An id byte: printable ASCII, excluding the two bytes that would need
/// escaping inside a quoted wire string.
pub open spec fn id_byte_ok(b: u8) -> bool {
    32 <= b <= 126 && b != 34 && b != 92
}

/// A usable correlation id: nonempty, every byte unescaped printable
/// ASCII.
pub open spec fn id_ok(id: Seq<u8>) -> bool {
    id.len() > 0 && forall|i: int| 0 <= i < id.len() ==> id_byte_ok(#[trigger] id[i])
}

pub open spec fn null_lit() -> Seq<u8> {
    seq![110u8, 117u8, 108u8, 108u8]
}

/// A well-formed envelope: the id is usable on the wire and the body, if
/// present, is a structurally sound value other than the literal null
/// (an absent body already stands for null).
pub open spec fn wf_payload(p: PayloadView) -> bool {
    &&& id_ok(p.id)
    &&& match p.body {
        Some(b) => crate::json::json_value_ok(b) && b != null_lit(),
        None => true,
    }
}

impl Payload {
    /// An `init` envelope confirming the connection to the server.
    pub fn init(id: Vec<u8>) -> (r: Payload)
        ensures
            r@ == (PayloadView { id: id@, kind: PayloadKind::Init, body: None }),
    {
        Payload { id, kind: PayloadKind::Init, body: None }
    }

    /// A `subscribe` envelope starting a new subscription carrying the
    /// serialized query.
    pub fn subscribe(id: Vec<u8>, query_body: Vec<u8>) -> (r: Payload)
        ensures
            r@ == (PayloadView { id: id@, kind: PayloadKind::Subscribe, body: Some(query_body@) }),
    {
        Payload { id, kind: PayloadKind::Subscribe, body: Some(query_body) }
    }

    /// A `stop` envelope terminating the subscription on the server.
    pub fn stop(id: Vec<u8>) -> (r: Payload)
        ensures
            r@ == (PayloadView { id: id@, kind: PayloadKind::Stop, body: None }),
    {
        Payload { id, kind: PayloadKind::Stop, body: None }
    }
}

} // verus!
