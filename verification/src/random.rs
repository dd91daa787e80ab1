//! The game's source of chance.

use rand::Rng;
use vstd::prelude::*;

verus! {

/// `rand::Rng::gen_range` on the generator of the calling thread
/// (`rand::thread_rng`), for the half-open range from `low` up to `high`.
/// The range must hold a value, or `gen_range` panics; the value it hands
/// back lies in the range, and nothing else is known of it.
#[verifier::external_body]
pub(crate) fn random_in_range(low: i64, high: i64) -> (value: i64)
    requires
        low < high,
    ensures
        low <= value < high,
{
    rand::thread_rng().gen_range(low..high)
}

} // verus!
