//! Draws from the thread-local random number generator.
use vstd::prelude::*;

use rand::distr::Distribution;
use rand::Rng;

verus! {

/// Relies on `rand::Rng::random_range` over `0..n` with the thread-local
/// generator (`rand::rng`): a uniform draw below `n`. It panics on an empty
/// range, which `n > 0` rules out.
#[verifier::external_body]
pub(crate) fn random_below(n: usize) -> (r: usize)
    requires
        n > 0,
    ensures
        r < n,
{
    rand::rng().random_range(0..n)
}

/// Relies on `rand::distr::weighted::WeightedIndex::new` and its `sample`: an
/// index drawn with probability proportional to its weight. `new` fails on an
/// empty list, on a zero total and on a total that overflows; `requires`
/// rules these out. `sample` returns the first index whose cumulative weight
/// exceeds a uniform draw below the total, so a zero weight is never drawn.
#[verifier::external_body]
pub(crate) fn weighted_index(weights: &Vec<usize>) -> (r: usize)
    requires
        weights@.len() > 0,
        exists|i: int| 0 <= i < weights@.len() && weights@[i] > 0,
        weights_total(weights@, weights@.len() as int) <= usize::MAX,
    ensures
        r < weights@.len(),
        weights@[r as int] > 0,
{
    rand::distr::weighted::WeightedIndex::new(weights).unwrap().sample(&mut rand::rng())
}

/// Sum of the first `n` weights.
pub open spec fn weights_total(w: Seq<usize>, n: int) -> int
    decreases n,
{
    if n <= 0 {
        0
    } else {
        weights_total(w, n - 1) + w[n - 1]
    }
}

} // verus!
