//! Generation of fresh entity identifiers.

use vstd::prelude::*;

verus! {

/// Relies on uuid::Uuid::new_v4: a freshly generated random identifier,
/// carried as its 128-bit value. The value is random, so nothing is promised
/// of it; callers treat collisions as a storage-level conflict.
#[verifier::external_body]
pub(crate) fn fresh_id() -> u128 {
    uuid::Uuid::new_v4().as_u128()
}

} // verus!
