//! Random numbers, drawn from the generator of the calling thread.

use rand::Rng;
use vstd::prelude::*;

verus! {

/// The handle of a thread's random number generator. Nothing of its state is
/// known here.
#[verifier::external_type_specification]
#[verifier::external_body]
pub struct ExThreadRng(rand::rngs::ThreadRng);

/// `rand::thread_rng`: the handle of the generator of the calling thread.
/// Nothing is claimed of it. The system's source of randomness is taken to be
/// there.
pub assume_specification[ rand::thread_rng ]() -> rand::rngs::ThreadRng;

/// `Rng::gen_range` on the closed range from `low` to `high`: the number
/// drawn lies in the range. Which number it is depends on chance, so no more
/// is claimed. The range must hold a number, that is `low <= high`: on an
/// empty range `gen_range` panics. As for `rand::thread_rng`, the system's
/// source of randomness is taken to be there whenever the generator reseeds
/// itself from it.
#[verifier::external_body]
pub(crate) fn gen_range(rng: &mut rand::rngs::ThreadRng, low: u32, high: u32) -> (drawn: u32)
    requires
        low <= high,
    ensures
        low <= drawn <= high,
{
    rng.gen_range(low..=high)
}

} // verus!
