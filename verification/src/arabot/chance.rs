use vstd::prelude::*;
use rand::seq::SliceRandom;

verus! {

/// Calls `rand::seq::SliceRandom::choose` with the thread-local generator and clones the pick.
/// Claims what holds of every outcome: nothing is picked exactly when `items` is empty, and
/// otherwise the pick is one of `items`. Which one is left to chance and unsaid.
#[verifier::external_body]
pub(crate) fn choose_one(items: &Vec<String>) -> (r: Option<String>)
    ensures
        r is None <==> items@.len() == 0,
        r matches Some(s) ==> exists|i: int| 0 <= i < items@.len() && items@[i]@ == s@,
{
    items.choose(&mut rand::thread_rng()).cloned()
}

} // verus!
