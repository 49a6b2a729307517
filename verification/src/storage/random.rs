//! The random generator that picks where an expiry sweep looks.

use rand::Rng;
use vstd::prelude::*;

verus! {

/// `rand::rngs::ThreadRng`, the handle to a thread's random generator, held
/// opaque.
#[verifier::external_type_specification]
#[verifier::external_body]
pub struct ExThreadRng(rand::rngs::ThreadRng);

/// Calls `rand::thread_rng()`, the handle to this thread's random generator.
/// Nothing is promised of it.
#[verifier::external_body]
pub fn thread_rng() -> (r: rand::rngs::ThreadRng) {
    rand::thread_rng()
}

/// Calls `Rng::gen_range(0..bound)`. Its documentation promises a value in
/// the range and a panic on an empty range, which `requires` leaves out;
/// which value comes is chance.
#[verifier::external_body]
pub fn gen_below(rng: &mut rand::rngs::ThreadRng, bound: usize) -> (r: usize)
    requires
        bound > 0,
    ensures
        r < bound,
{
    rng.gen_range(0..bound)
}

} // verus!
