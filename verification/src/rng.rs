//! The core's one source of nondeterminism: the byte drawn by the random
//! instruction.
use vstd::prelude::*;

verus! {

/// Relies on rand::random: draws one byte from the thread-local generator.
/// Nothing is promised of the value; every caller must be correct for
/// every byte that comes back.
#[verifier::external_body]
pub(crate) fn random_byte() -> u8 {
    rand::random::<u8>()
}

} // verus!
