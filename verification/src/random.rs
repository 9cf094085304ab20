//! Numbers that nobody can foresee.

use vstd::prelude::*;

verus! {

/// `rand::random` for a word of 64 bits. The number may be any, so nothing is promised of it.
/// Where the system has no randomness to give, the generator cannot be set up and the call
/// panics.
#[verifier::external_body]
pub(crate) fn random_number() -> (number: u64) {
    rand::random::<u64>()
}

} // verus!
