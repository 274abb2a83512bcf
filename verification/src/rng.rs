//! Draws from the process-wide random number generator.
//!
//! Every stochastic choice the optimizers make — crossover cut points, swap
//! positions, roulette draws, acceptance draws — goes through one of these
//! wrappers. Nothing is assumed of a draw beyond its range, so every
//! contract proved above them holds for every possible outcome. Tests may
//! seed the underlying generator to replay a run.

use vstd::prelude::*;

verus! {

/// Relies on `fastrand::usize`: returns a uniform index drawn from
/// `0..n`. The underlying call panics on an empty range, so `n` must be
/// positive.
#[verifier::external_body]
pub(crate) fn rand_index(n: usize) -> (r: usize)
    requires
        n >= 1,
    ensures
        r < n,
{
    fastrand::usize(..n)
}

/// Relies on `fastrand::u64`: returns a uniform value drawn from `0..n`.
/// The underlying call panics on an empty range, so `n` must be positive.
#[verifier::external_body]
pub(crate) fn rand_below(n: u64) -> (r: u64)
    requires
        n >= 1,
    ensures
        r < n,
{
    fastrand::u64(0..n)
}

/// Relies on `fastrand::bool`: returns a random boolean. Nothing is
/// promised of the outcome.
#[verifier::external_body]
pub(crate) fn rand_flip() -> bool {
    fastrand::bool()
}

} // verus!
