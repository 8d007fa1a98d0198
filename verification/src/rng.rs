use vstd::prelude::*;

verus! {

/// Relies on rand::random::<bool>: one draw from the standard distribution on
/// bool, Alive with probability one half. Nothing is promised of the outcome;
/// callers state only what holds of every draw.
#[verifier::external_body]
pub(crate) fn draw() -> bool {
    rand::random::<bool>()
}

} // verus!
