//! Random draws: spawn positions, entity identifiers, coin flips.
use crate::geometry::WORLDSIZE;
use vstd::prelude::*;

verus! {

/// Relies on rand::Rng::gen_range with the thread-local generator: the value
/// drawn lies in the (non-empty) inclusive range it is given.
#[verifier::external_body]
pub(crate) fn random_coord() -> (r: i64)
    ensures
        0 <= r <= WORLDSIZE,
{
    rand::Rng::gen_range(&mut rand::thread_rng(), 0..=WORLDSIZE)
}

/// Relies on rand::random: any 64-bit value may come back.
#[verifier::external_body]
pub(crate) fn random_u64() -> (r: u64) {
    rand::random::<u64>()
}

} // verus!
