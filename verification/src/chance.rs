//! The one source of randomness of the library.

use rand::Rng;
use vstd::prelude::*;

verus! {

/// Draws a whole number between `low` and `high`, both included.
///
/// This calls `gen_range` of the `rand` crate on the generator that
/// `thread_rng` gives, with the inclusive range `low..=high`. `gen_range`
/// panics on an empty range, which `requires` leaves out; on any other it
/// returns a member of the range, and that is all that is claimed here: two
/// draws from one range may differ. Nothing is claimed of `thread_rng`,
/// which panics if the operating system gives it no seed.
#[verifier::external_body]
pub(crate) fn random_between(low: i32, high: i32) -> (drawn: i32)
    requires
        low <= high,
    ensures
        low <= drawn <= high,
{
    rand::thread_rng().gen_range(low..=high)
}

} // verus!
