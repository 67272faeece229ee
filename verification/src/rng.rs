use vstd::prelude::*;
use rand::Rng as _;

verus! {

/// The seedable pseudo-random generator threaded through the simulation:
/// `rand`'s standard generator, declared so that verified code can carry it.
#[verifier::external_type_specification]
#[verifier::external_body]
pub struct ExStdRng(rand::rngs::StdRng);

/// Relies on rand's `Rng::next_u64` for `StdRng`: one pseudo-random draw.
/// Nothing is promised of the value; callers must hold for every outcome.
#[verifier::external_body]
pub(crate) fn next_u64(rng: &mut rand::rngs::StdRng) -> u64 {
    rng.next_u64()
}

} // verus!
