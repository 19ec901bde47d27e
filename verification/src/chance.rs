use vstd::prelude::*;
use rand::Rng;
use rand::seq::SliceRandom;

verus! {

/// One throw of a six-sided die.
///
/// Calls `rand::Rng::gen_range` on the thread's generator with the range
/// `1..=6`. Trusted: the value lies in that range.
#[verifier::external_body]
pub(crate) fn roll_die() -> (face: usize)
    ensures
        1 <= face <= 6,
{
    rand::thread_rng().gen_range(1..=6)
}

/// Puts `items` into a random order.
///
/// Calls `rand::seq::SliceRandom::shuffle` with the thread's generator, which
/// only swaps elements. Trusted: the same items are there afterwards, each as
/// often as before.
#[verifier::external_body]
pub(crate) fn shuffle<T>(items: &mut Vec<T>)
    ensures
        final(items)@.to_multiset() == old(items)@.to_multiset(),
{
    items.shuffle(&mut rand::thread_rng());
}

/// One of `items`, each position being as likely as any other.
///
/// Calls `rand::seq::SliceRandom::choose` with the thread's generator.
/// Trusted: there is no result exactly when `items` is empty, and a result is
/// the item at some position.
#[verifier::external_body]
pub(crate) fn pick_one<T: Copy>(items: &Vec<T>) -> (picked: Option<T>)
    ensures
        picked is None <==> items@.len() == 0,
        picked matches Some(item) ==> items@.contains(item),
{
    items.choose(&mut rand::thread_rng()).copied()
}

} // verus!
