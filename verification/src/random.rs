//! Random numbers.

use rand::Rng;
use vstd::prelude::*;

verus! {

/// `rand::Rng::gen_range` of the thread's generator: a number from 0 to `max`, both included.
/// Which one is chance.
#[verifier::external_body]
pub(crate) fn uniform_up_to(max: u64) -> (r: u64)
    ensures
        r <= max,
{
    rand::thread_rng().gen_range(0..=max)
}

} // verus!
