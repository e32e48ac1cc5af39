use vstd::prelude::*;

verus! {

/// A fresh identifier, drawn as the 128-bit value of a random (version 4) UUID.
///
/// Relies on uuid::Uuid::new_v4 and uuid::Uuid::as_u128. The value is random,
/// so nothing is promised of it.
#[verifier::external_body]
pub(crate) fn fresh_id() -> (r: u128) {
    uuid::Uuid::new_v4().as_u128()
}

} // verus!
