use vstd::prelude::*;

use rand::Rng;

verus! {

#[verifier::external_type_specification]
#[verifier::external_body]
pub struct ExThreadRng(rand::rngs::ThreadRng);

/// Relies on rand's thread_rng: a handle to the thread-local generator.
#[verifier::external_body]
pub(crate) fn new_rng() -> rand::rngs::ThreadRng {
    rand::thread_rng()
}

/// Relies on rand's Rng::gen_range on the range 0..5: it returns a
/// uniformly sampled value of the range, and panics only on an empty
/// range, which 0..5 is not. Nothing more is promised of the draw.
#[verifier::external_body]
pub(crate) fn next_piece_index(rng: &mut rand::rngs::ThreadRng) -> (k: u8)
    ensures
        k < 5,
{
    rng.gen_range(0..5)
}

} // verus!
