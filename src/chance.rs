use vstd::prelude::*;

use rand::rngs::ThreadRng;

verus! {

/// The generator that rand keeps for each thread, seeded by the system.
#[verifier::external_type_specification]
#[verifier::external_body]
pub struct ExThreadRng(rand::rngs::ThreadRng);

/// Relies on rand::thread_rng: hands out the generator of the calling thread.
pub assume_specification[ rand::thread_rng ]() -> rand::rngs::ThreadRng;

/// Relies on rand::Rng::gen_range over `0..=1`: a value drawn from that
/// non-empty range, both ends included.
#[verifier::external_body]
pub(crate) fn random_bit(rng: &mut ThreadRng) -> (r: u8)
    ensures
        r <= 1,
{
    rand::Rng::gen_range(rng, 0..=1u8)
}

} // verus!
