//! The one place where the library draws randomness from the outside.

use vstd::prelude::*;
use rand::Rng;

verus! {

/// Relies on `rand::thread_rng` and `Rng::gen_range(low..high)`: returns a
/// uniformly sampled integer of the half-open range. `gen_range` panics on an
/// empty range, so that case is excluded here.
#[verifier::external_body]
pub(crate) fn random_number(low: i32, high: i32) -> (r: i32)
    requires
        low < high,
    ensures
        low <= r < high,
{
    rand::thread_rng().gen_range(low..high)
}

} // verus!
