use vstd::prelude::*;
use rand::Rng;
use rand::distributions::{IndependentSample, Weighted, WeightedChoice};

verus! {

/// Sum of a sequence of weights.
pub open spec fn weight_sum(w: Seq<u32>) -> int
    decreases w.len(),
{
    if w.len() == 0 {
        0
    } else {
        weight_sum(w.drop_last()) + w.last()
    }
}

/// Relies on `rand::Rng::gen_range` of rand 0.4 on the thread-local
/// generator: a value in `[low, high)`. It panics when `low >= high`.
#[verifier::external_body]
pub(crate) fn rand_range(low: i32, high: i32) -> (r: i32)
    requires
        low < high,
    ensures
        low <= r < high,
{
    rand::thread_rng().gen_range(low, high)
}

/// Relies on `rand::random::<bool>` of rand 0.4: an unbiased coin toss.
#[verifier::external_body]
pub(crate) fn coin_flip() -> (r: bool) {
    rand::random::<bool>()
}

/// Relies on `rand::distributions::WeightedChoice` of rand 0.4 (`new`, then
/// `ind_sample` on the thread-local generator): the index of one entry,
/// drawn in proportion to the weights, so never one of weight zero. `new`
/// panics on an empty list, a total of zero, or a total past `u32::MAX`.
#[verifier::external_body]
pub(crate) fn weighted_index(weights: &Vec<u32>) -> (r: usize)
    requires
        weights@.len() > 0,
        0 < weight_sum(weights@) <= u32::MAX,
    ensures
        r < weights@.len(),
        weights@[r as int] > 0,
{
    let mut items: Vec<Weighted<usize>> = weights
        .iter()
        .enumerate()
        .map(|(i, w)| Weighted { weight: *w, item: i })
        .collect();
    WeightedChoice::new(&mut items).ind_sample(&mut rand::thread_rng())
}

} // verus!
