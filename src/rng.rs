//! The one random source that every randomised step draws from, and the draws
//! the library makes from it.
use rand::seq::SliceRandom;
use rand::Rng;
use vstd::prelude::*;

verus! {

/// A seedable, portable generator: the same seed gives the same stream.
#[verifier::external_type_specification]
#[verifier::external_body]
pub struct ExChaCha8Rng(rand_chacha::ChaCha8Rng);

/// Sum of a sequence of weights, as an unbounded integer.
pub open spec fn total(s: Seq<u64>) -> int
    decreases s.len(),
{
    if s.len() == 0 {
        0
    } else {
        total(s.drop_last()) + s.last()
    }
}

/// Relies on rand's `Rng::gen::<bool>`: one fair coin flip. Nothing is promised
/// of which side comes up.
#[verifier::external_body]
pub(crate) fn flip_coin(rng: &mut rand_chacha::ChaCha8Rng) -> bool {
    rng.gen::<bool>()
}

/// Relies on rand's `Rng::gen_range` over `0..n`: a value below `n`. The range
/// must not be empty, or the call panics.
#[verifier::external_body]
pub(crate) fn index_below(rng: &mut rand_chacha::ChaCha8Rng, n: usize) -> (r: usize)
    requires
        n > 0,
    ensures
        r < n,
{
    rng.gen_range(0..n)
}

/// Relies on rand's `SliceRandom::choose_weighted`, with each entry's second
/// field as its weight: it fails exactly when there is no entry or all weights
/// are zero, and otherwise returns an entry of nonzero weight (here its first
/// field). The weights are summed in a `u64`, so their total must fit.
#[verifier::external_body]
pub(crate) fn choose_weighted_key(rng: &mut rand_chacha::ChaCha8Rng, entries: &Vec<(usize, u64)>) -> (r:
    Option<usize>)
    requires
        total(entries@.map_values(|e: (usize, u64)| e.1)) <= u64::MAX,
    ensures
        r is None <==> total(entries@.map_values(|e: (usize, u64)| e.1)) == 0,
        r is Some ==> exists|k: int|
            0 <= k < entries@.len() && (#[trigger] entries@[k]).0 == r->0 && entries@[k].1 > 0,
{
    entries.choose_weighted(rng, |e| e.1).ok().map(|e| e.0)
}

} // verus!
