//! The source of eviction indices: the thread-local generator of `rand`.

use rand::rngs::ThreadRng;
use rand::Rng;
use vstd::prelude::*;

verus! {

/// `rand::rngs::ThreadRng`, a handle to the generator that `rand` keeps for
/// each thread. Nothing is known of what it holds.
#[verifier::external_type_specification]
#[verifier::external_body]
pub struct ExThreadRng(ThreadRng);

/// `rand::thread_rng`: hands out the handle to the calling thread's
/// generator. Nothing is claimed of the handle. The first call on a thread
/// seeds the generator from the operating system and panics if that fails.
pub assume_specification[ rand::thread_rng ]() -> (rng: ThreadRng);

/// `rand::Rng::gen_range(0, bound)` on the thread-local generator.
///
/// Not proved: that the sample lies in the half-open range `[0, bound)`,
/// as `gen_range` documents. The call panics on an empty range, hence the
/// `requires`. Which index comes back is left open: two calls with the same
/// bound may differ.
#[verifier::external_body]
pub(crate) fn random_index(rng: &mut ThreadRng, bound: usize) -> (index: usize)
    requires
        bound > 0,
    ensures
        index < bound,
{
    rng.gen_range(0, bound)
}

} // verus!
