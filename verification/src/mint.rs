//! Minting of fresh 128-bit identifiers.

use vstd::prelude::*;

verus! {

/// Relies on uuid::Uuid::new_v4 and Uuid::as_u128: a freshly drawn random
/// version-4 UUID, as its 128-bit value. Nothing is assumed of the result:
/// every caller handles an arbitrary value, collisions included.
#[verifier::external_body]
pub(crate) fn mint_id() -> (r: u128) {
    uuid::Uuid::new_v4().as_u128()
}

} // verus!
