//! Random draws. The generator is an explicit, seedable object that the
//! caller owns and hands to every stochastic operation.

use vstd::prelude::*;

verus! {

/// The seedable generator of the `rand` crate. Nothing is known of its state.
#[verifier::external_type_specification]
#[verifier::external_body]
pub struct ExStdRng(rand::rngs::StdRng);

/// The sum of a list of weights.
pub open spec fn spec_total(weights: Seq<u64>) -> int
    decreases weights.len(),
{
    if weights.len() == 0 {
        0
    } else {
        spec_total(weights.drop_last()) + weights.last()
    }
}

/// Calls `rand::Rng::gen_range` on the half-open range from zero to `bound`.
/// Trusted: the draw lies in that range. The call panics on an empty range,
/// which the precondition excludes.
#[verifier::external_body]
pub(crate) fn uniform_below(bound: u64, rng: &mut rand::rngs::StdRng) -> (r: u64)
    requires
        bound > 0,
    ensures
        r < bound,
{
    rand::Rng::gen_range(rng, 0..bound)
}

/// Builds a `rand_distr::WeightedIndex` over the weights and samples it once.
/// Trusted: construction fails exactly when there is no weight or all are
/// zero, and a sampled index is inside the list and has a positive weight.
/// The constructor adds the weights up in `u64`, so their sum must fit.
#[verifier::external_body]
pub(crate) fn draw_weighted(weights: &Vec<u64>, rng: &mut rand::rngs::StdRng) -> (r: Option<usize>)
    requires
        spec_total(weights@) <= u64::MAX,
    ensures
        r is None <==> spec_total(weights@) == 0,
        r matches Some(i) ==> i < weights@.len() && weights@[i as int] > 0,
{
    match rand_distr::WeightedIndex::new(weights) {
        Ok(table) => Some(rand_distr::Distribution::sample(&table, rng)),
        Err(_) => None,
    }
}

/// Calls `rand::seq::SliceRandom::choose` on the items. Trusted: it returns
/// nothing exactly when there is no item, and otherwise one of the items.
#[verifier::external_body]
pub(crate) fn choose_one(items: &Vec<usize>, rng: &mut rand::rngs::StdRng) -> (r: Option<usize>)
    ensures
        r is None <==> items@.len() == 0,
        r matches Some(x) ==> items@.contains(x),
{
    rand::seq::SliceRandom::choose(items.as_slice(), rng).copied()
}

/// Adds the weights up, stopping with `None` as soon as the sum leaves `u64`.
pub fn total_weight(weights: &Vec<u64>) -> (sum: Option<u64>)
    ensures
        sum matches Some(s) ==> s == spec_total(weights@),
        sum is None <==> spec_total(weights@) > u64::MAX,
{
    let mut acc: u64 = 0;
    let mut k: usize = 0;
    while k < weights.len()
        invariant
            k <= weights@.len(),
            acc == spec_total(weights@.take(k as int)),
        decreases weights@.len() - k,
    {
        proof {
            assert(weights@.take(k + 1).drop_last() =~= weights@.take(k as int));
        }
        match acc.checked_add(weights[k]) {
            Some(next) => {
                acc = next;
            },
            None => {
                proof {
                    lemma_total_prefix(weights@, k + 1);
                }
                return None;
            },
        }
        k += 1;
    }
    proof {
        assert(weights@.take(k as int) =~= weights@);
    }
    Some(acc)
}

/// The sum of a prefix never exceeds the sum of the whole list.
pub proof fn lemma_total_prefix(weights: Seq<u64>, k: int)
    requires
        0 <= k <= weights.len(),
    ensures
        spec_total(weights.take(k)) <= spec_total(weights),
    decreases weights.len(),
{
    if k == weights.len() {
        assert(weights.take(k) =~= weights);
    } else {
        assert(weights.drop_last().take(k) =~= weights.take(k));
        lemma_total_prefix(weights.drop_last(), k);
    }
}

/// Picks one position of a list of weights at random: with probability
/// proportional to its weight where some weight is positive, and uniformly
/// where all are zero. Returns `None` only for an empty list.
pub fn weighted_sample(weights: &Vec<u64>, rng: &mut rand::rngs::StdRng) -> (r: Option<usize>)
    requires
        spec_total(weights@) <= u64::MAX,
    ensures
        r is None <==> weights@.len() == 0,
        r matches Some(i) ==> i < weights@.len() && (spec_total(weights@) > 0 ==> weights@[i as int]
            > 0),
{
    match draw_weighted(weights, rng) {
        Some(i) => Some(i),
        None => {
            let mut slots: Vec<usize> = Vec::new();
            let mut k: usize = 0;
            while k < weights.len()
                invariant
                    k <= weights@.len(),
                    slots@.len() == k,
                    forall|j: int| 0 <= j < k ==> #[trigger] slots@[j] == j,
                decreases weights@.len() - k,
            {
                slots.push(k);
                k += 1;
            }
            choose_one(&slots, rng)
        },
    }
}

} // verus!
