//! The source of chance.

use vstd::prelude::*;

verus! {

/// Draws a number with `rand::random`, which takes it from the generator that
/// the `rand` crate keeps for the calling thread.
///
/// Nothing is claimed of the number beyond its type: two draws need not
/// agree. `rand::random` panics where the system cannot seed the thread's
/// generator.
#[verifier::external_body]
pub(crate) fn random_u16() -> (n: u16) {
    rand::random::<u16>()
}

} // verus!
