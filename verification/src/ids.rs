//! Fresh correlation ids for subscriptions, drawn from the system's
//! random generator through the `uuid` crate.

use vstd::prelude::*;

use crate::envelope::{id_byte_ok, id_ok};

verus! {

/// A byte of a hyphenated uuid: a lowercase hex digit or a hyphen.
pub open spec fn uuid_byte(b: u8) -> bool {
    (48 <= b <= 57) || (97 <= b <= 102) || b == 45
}

/// Relies on `uuid::Uuid::new_v4` and the hyphenated display form of
/// `uuid::Uuid`: 36 bytes, each a lowercase hex digit or a hyphen. The
/// value itself is random, so nothing more is promised of it.
#[verifier::external_body]
fn fresh_uuid_bytes() -> (r: Vec<u8>)
    ensures
        r@.len() == 36,
        forall|i: int| 0 <= i < r@.len() ==> uuid_byte(#[trigger] r@[i]),
{
    uuid::Uuid::new_v4().to_string().into_bytes()
}

/// A freshly drawn random id, usable on the wire. Two draws may or may
/// not collide; the registry checks.
pub(crate) fn fresh_id() -> (r: Vec<u8>)
    ensures
        id_ok(r@),
{
    let id = fresh_uuid_bytes();
    proof {
        assert forall|i: int| 0 <= i < id@.len() implies id_byte_ok(#[trigger] id@[i]) by {
            assert(uuid_byte(id@[i]));
        }
    }
    id
}

} // verus!
