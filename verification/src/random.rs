//! The source of the random directions of a walk: the generator that `rand`
//! keeps for each thread.

use vstd::prelude::*;
use rand::rngs::ThreadRng;
use rand::Rng;

verus! {

/// `rand::rngs::ThreadRng`, a handle to the generator of the running thread.
/// Nothing is known of its state.
#[verifier::external_type_specification]
#[verifier::external_body]
pub struct ExThreadRng(ThreadRng);

/// `rand::thread_rng` returns the handle of the running thread's generator,
/// which the system seeds on first use. Nothing is claimed of it.
pub assume_specification[ rand::thread_rng ]() -> (rng: ThreadRng)
;

/// Draws one direction with `Rng::gen::<bool>`. Either value may come back,
/// so nothing is claimed of the result.
#[verifier::external_body]
pub(crate) fn draw_direction(rng: &mut ThreadRng) -> (up: bool) {
    rng.gen::<bool>()
}

} // verus!
