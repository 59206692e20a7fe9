//! Operation identifiers.

use vstd::prelude::*;

verus! {

/// A fresh random identifier: the 128 bits of `uuid::Uuid::new_v4`, read
/// with `Uuid::as_u128`. Nothing is claimed of the result: it depends on
/// chance alone.
#[verifier::external_body]
pub(crate) fn fresh_id() -> (id: u128) {
    uuid::Uuid::new_v4().as_u128()
}

} // verus!
