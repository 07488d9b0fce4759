use rand::seq::SliceRandom;
use rand::Rng;
use vstd::prelude::*;

verus! {

/// A number drawn from `0..bound` by `rand::Rng::gen_range` on the thread's
/// generator. The contract claims only that it lies in that range; `gen_range`
/// panics on an empty range, hence the `requires`.
#[verifier::external_body]
pub(crate) fn random_below(bound: usize) -> (r: usize)
    requires
        bound > 0,
    ensures
        r < bound,
{
    rand::thread_rng().gen_range(0..bound)
}

/// One item of `items` drawn by `rand::seq::SliceRandom::choose`: `None`
/// exactly when `items` is empty, else one of its items; which one is left
/// unsaid, since it is random.
#[verifier::external_body]
pub(crate) fn choose_item(items: &Vec<usize>) -> (r: Option<usize>)
    ensures
        r is None <==> items@.len() == 0,
        r matches Some(x) ==> items@.contains(x),
{
    items.choose(&mut rand::thread_rng()).copied()
}

/// `rand::seq::SliceRandom::shuffle`, which reorders `items` by swaps: the
/// contract claims that the result holds the same items, each as often; the
/// order is random and left unsaid.
#[verifier::external_body]
pub(crate) fn shuffle_items(items: &mut Vec<usize>)
    ensures
        final(items)@.to_multiset() == old(items)@.to_multiset(),
{
    items.shuffle(&mut rand::thread_rng());
}

} // verus!
