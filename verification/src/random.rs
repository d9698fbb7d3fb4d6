//! Random numbers.

use rand_core::{OsRng, RngCore};
use vstd::prelude::*;

verus! {

/// Declares `rand_core::OsRng`, the random number generator of the operating system.
#[verifier::external_type_specification]
#[verifier::external_body]
pub struct ExOsRng(OsRng);

/// Calls `rand_core::RngCore::next_u64` on the random number generator of the operating
/// system. Any number may come out.
#[verifier::external_body]
pub(crate) fn random_u64(rng: &mut OsRng) -> (r: u64) {
    rng.next_u64()
}

} // verus!
