//! Where chance comes from: the thread-local generator of `rand`. Nothing is
//! known of what it draws, so the functions that decide take the draws as
//! arguments and hold for each of them.

use rand::Rng;
use vstd::prelude::*;

verus! {

/// `rand::rngs::ThreadRng`, a handle to the generator of the current thread.
#[verifier::external_type_specification]
#[verifier::external_body]
pub struct ExThreadRng(rand::rngs::ThreadRng);

/// `rand::thread_rng`: a handle to the generator of the current thread,
/// which the system seeds on first use; where the system has no entropy to
/// give, that first use panics. Nothing is claimed of the handle.
pub assume_specification[ rand::thread_rng ]() -> (rng: rand::rngs::ThreadRng);

/// `Rng::gen::<bool>`: a drawn truth value. Nothing is claimed of it.
#[verifier::external_body]
pub(crate) fn draw_bool(rng: &mut rand::rngs::ThreadRng) -> (drawn: bool) {
    rng.gen::<bool>()
}

/// `Rng::gen::<u32>`: a drawn number. Nothing is claimed of it.
#[verifier::external_body]
pub(crate) fn draw_u32(rng: &mut rand::rngs::ThreadRng) -> (drawn: u32) {
    rng.gen::<u32>()
}

} // verus!
