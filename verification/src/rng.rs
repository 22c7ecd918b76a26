//! Trusted boundary to the `rand` crate: a thread-local generator handle and
//! a single uniform draw of one die face.

use vstd::prelude::*;
use rand::Rng;

verus! {

#[verifier::external_type_specification]
#[verifier::external_body]
pub struct ExThreadRng(rand::rngs::ThreadRng);

/// Relies on `rand::thread_rng`: returns a handle to the thread-local
/// generator. Nothing is assumed of the values it will produce.
#[verifier::external_body]
pub(crate) fn fresh_rng() -> rand::rngs::ThreadRng {
    rand::thread_rng()
}

/// Relies on `rand::Rng::gen_range` over the closed range `1..=sides`:
/// it panics only on an empty range (excluded by the precondition) and
/// returns a value inside the range. The draw is random, so the contract
/// states only what holds of every outcome.
#[verifier::external_body]
pub(crate) fn draw_face(rng: &mut rand::rngs::ThreadRng, sides: u32) -> (face: u32)
    requires
        1 <= sides,
    ensures
        1 <= face <= sides,
{
    rng.gen_range(1..=sides)
}

} // verus!
