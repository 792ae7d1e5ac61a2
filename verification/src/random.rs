//! Chance. Each function here hands a decision to the `rand` crate and
//! says only what holds of every outcome; none of these claims is proved.

use rand::Rng;
use rand::seq::IteratorRandom;
use vstd::prelude::*;

verus! {

/// One of `candidates`, or nothing where there is none to pick.
///
/// Calls `IteratorRandom::choose` of `rand` with the thread's generator. It
/// is taken on trust that the call returns `None` exactly for an empty list
/// and otherwise an item of the list.
#[verifier::external_body]
pub(crate) fn choose_one(candidates: &Vec<usize>) -> (pick: Option<usize>)
    ensures
        candidates@.len() == 0 ==> pick is None,
        candidates@.len() > 0 ==> pick is Some && candidates@.contains(pick->0),
{
    candidates.iter().copied().choose(&mut rand::thread_rng())
}

/// `amount` of the `candidates`, each taken from a place of its own in the
/// list, in no particular order.
///
/// Calls `IteratorRandom::choose_multiple` of `rand` with the thread's
/// generator. It is taken on trust that, asked for no more items than the
/// list holds, the call returns that many, and that no place of the list
/// is handed out twice.
#[verifier::external_body]
pub(crate) fn choose_several(candidates: &Vec<usize>, amount: usize) -> (picks: Vec<usize>)
    requires
        amount <= candidates@.len(),
    ensures
        picks@.len() == amount,
        picks@.to_multiset().subset_of(candidates@.to_multiset()),
{
    candidates.iter().copied().choose_multiple(&mut rand::thread_rng(), amount)
}

/// A number from zero up to, but not including, `high`.
///
/// Calls `Rng::gen_range` of `rand` on the thread's generator, which
/// panics on an empty range. It is taken on trust that the result lies in
/// the range.
#[verifier::external_body]
pub(crate) fn random_below(high: usize) -> (n: usize)
    requires
        0 < high,
    ensures
        n < high,
{
    rand::thread_rng().gen_range(0, high)
}

} // verus!
