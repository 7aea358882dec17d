//! The coin that says which operand of a parallel composition or of a choice
//! is tried first.

use vstd::prelude::*;

verus! {

/// Calls `rand::random::<bool>()`, a coin from the thread's random number
/// generator. Nothing is claimed of the outcome.
#[verifier::external_body]
pub(crate) fn toss() -> (coin: bool) {
    rand::random::<bool>()
}

} // verus!
