use vstd::prelude::*;

use rand::Rng;

verus! {

#[verifier::external_type_specification]
#[verifier::external_body]
pub struct ExThreadRng(rand::rngs::ThreadRng);

/// Relies on rand::thread_rng to hand out the thread-local generator;
/// nothing is assumed about the values it will produce.
#[verifier::external_body]
pub(crate) fn fresh_rng() -> rand::rngs::ThreadRng {
    rand::thread_rng()
}

/// Relies on rand::Rng::gen_range: a draw from the half-open range `0..100`
/// lies strictly below 100. Nothing else is assumed of the draw; in
/// particular two draws may differ.
#[verifier::external_body]
pub(crate) fn draw_percent(rng: &mut rand::rngs::ThreadRng) -> (r: u8)
    ensures
        r < 100,
{
    rng.gen_range(0..100)
}

} // verus!
