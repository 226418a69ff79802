use rand::seq::{IndexedRandom, SliceRandom};
use rand::SeedableRng;
use rand_chacha::ChaCha8Rng;
use vstd::prelude::*;

use crate::model::card::JewelCard;
use crate::model::token::GemType;

verus! {

#[verifier::external_type_specification]
#[verifier::external_body]
pub struct ExChaCha8Rng(ChaCha8Rng);

/// The order that `rand::seq::SliceRandom::shuffle` gives a list of tokens when driven by
/// a `rand_chacha::ChaCha8Rng` fresh from `seed_from_u64(seed)`. ChaCha8 is a portable
/// stream fixed by its seed and the shuffle consumes it in a fixed way, so the order is a
/// function of the list and the seed.
pub uninterp spec fn spec_seeded_gem_order(gems: Seq<GemType>, seed: u64) -> Seq<GemType>;

/// The orders that `rand::seq::SliceRandom::shuffle` gives three lists of jewel cards and
/// then a list of tokens when all four are shuffled, one after the other, by one
/// `rand_chacha::ChaCha8Rng` fresh from `seed_from_u64(seed)`: a function of the four
/// lists and the seed.
pub uninterp spec fn spec_seeded_deal(l0: Seq<JewelCard>, l1: Seq<JewelCard>, l2: Seq<JewelCard>, bag: Seq<GemType>, seed: u64) -> (Seq<JewelCard>, Seq<JewelCard>, Seq<JewelCard>, Seq<GemType>);

/// `SliceRandom::shuffle` on tokens with `ChaCha8Rng::seed_from_u64(seed)`: the result is
/// named by `spec_seeded_gem_order`; being a sequence of swaps, it keeps the length and the
/// tokens.
#[verifier::external_body]
pub(crate) fn shuffle_gems_seeded(gems: &mut Vec<GemType>, seed: u64)
    ensures
        final(gems)@ == spec_seeded_gem_order(old(gems)@, seed),
        final(gems)@.len() == old(gems)@.len(),
        final(gems)@.to_multiset() == old(gems)@.to_multiset(),
{
    gems.shuffle(&mut ChaCha8Rng::seed_from_u64(seed))
}

/// `SliceRandom::shuffle` on three card lists and then a token list, with one generator
/// `ChaCha8Rng::seed_from_u64(seed)`: the four results are named by `spec_seeded_deal`;
/// each shuffle is a sequence of swaps, so each list keeps its length and its items.
#[verifier::external_body]
pub(crate) fn shuffle_deal_seeded(
    l0: &mut Vec<JewelCard>,
    l1: &mut Vec<JewelCard>,
    l2: &mut Vec<JewelCard>,
    bag: &mut Vec<GemType>,
    seed: u64,
)
    ensures
        (final(l0)@, final(l1)@, final(l2)@, final(bag)@) == spec_seeded_deal(old(l0)@, old(l1)@, old(l2)@, old(bag)@, seed),
        final(l0)@.len() == old(l0)@.len(),
        final(l1)@.len() == old(l1)@.len(),
        final(l2)@.len() == old(l2)@.len(),
        final(bag)@.len() == old(bag)@.len(),
        final(l0)@.to_multiset() == old(l0)@.to_multiset(),
        final(l1)@.to_multiset() == old(l1)@.to_multiset(),
        final(l2)@.to_multiset() == old(l2)@.to_multiset(),
        final(bag)@.to_multiset() == old(bag)@.to_multiset(),
{
    let mut rng = ChaCha8Rng::seed_from_u64(seed);
    l0.shuffle(&mut rng);
    l1.shuffle(&mut rng);
    l2.shuffle(&mut rng);
    bag.shuffle(&mut rng);
}

/// `rand::seq::SliceRandom::shuffle`: a Fisher-Yates shuffle made of swaps, so the items
/// come back as a permutation of what went in (same length, same multiset). Which
/// permutation depends on the generator's state and is not stated.
#[verifier::external_body]
pub(crate) fn shuffle_vec<T>(items: &mut Vec<T>, rng: &mut ChaCha8Rng)
    ensures
        final(items)@.len() == old(items)@.len(),
        final(items)@.to_multiset() == old(items)@.to_multiset(),
{
    items.shuffle(rng)
}

/// `rand::seq::IndexedRandom::choose` on a list, the item copied out: none for an
/// empty list, otherwise one of its items (which one depends on the generator).
#[verifier::external_body]
pub(crate) fn choose_item<T: Copy>(items: &Vec<T>, rng: &mut ChaCha8Rng) -> (r: Option<T>)
    ensures
        r is None <==> items@.len() == 0,
        r matches Some(x) ==> items@.contains(x),
{
    items.choose(rng).copied()
}

} // verus!
