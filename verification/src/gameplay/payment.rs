use vstd::prelude::*;

use crate::game_state::player::{min_int, PlayerState};
use crate::model::card::JewelCard;
use crate::model::token::{sum_prefix, GemType, TokenCollection};

verus! {

/// How a purchase can be paid: the gold that must be spent, the gold left free, and how
/// many of its own tokens of each colour (and pearls, last) the default payment uses.
#[derive(Debug, Clone, Copy, PartialEq, Eq)]
pub struct PaymentDivergenceInfo {
    /// There is free gold and some own token it could replace.
    pub has_divergence: bool,
    pub mandatory_gold: u8,
    pub free_gold: u8,
    pub max_replaceable: [u8; 6],
}

/// Tokens of the `i`-th colour (0..6, pearl last) that the default payment for `card`
/// takes from the player: what is owed after the discount, up to what is held.
pub open spec fn pay_exact(p: PlayerState, card: JewelCard, i: int) -> int {
    let g = GemType::spec_from_index(i).unwrap();
    min_int(p.tokens.count(g), p.required(card, g))
}

/// `pay` holds the default payment for `card`: own tokens first, gold for the rest.
pub open spec fn is_default_payment(p: PlayerState, card: JewelCard, pay: TokenCollection) -> bool {
    &&& forall|i: int| 0 <= i < 6 ==> pay.counts@[i] == pay_exact(p, card, i)
    &&& pay.counts@[6] == p.gold_needed(card)
}

/// Sum of the first `n` entries of a gold allocation.
pub open spec fn alloc_sum(a: Seq<u8>, n: int) -> int {
    sum_prefix(a, n)
}

/// Analyses the purchase of `card`: none when the player's gold cannot cover what the
/// discounts and own tokens leave unpaid. The gold owed is summed in `u8`, so it must fit.
pub fn check_payment_divergence(player: &PlayerState, card: &JewelCard) -> (r: Option<
    PaymentDivergenceInfo,
>)
    requires
        player.gold_needed(*card) <= u8::MAX,
    ensures
        r is Some <==> player.spec_can_afford(*card),
        r matches Some(info) ==> {
            &&& info.mandatory_gold == player.gold_needed(*card)
            &&& info.free_gold == player.tokens.count(GemType::Gold) - player.gold_needed(*card)
            &&& forall|i: int| 0 <= i < 6 ==> info.max_replaceable@[i] == pay_exact(*player, *card, i)
            &&& info.has_divergence == (info.free_gold > 0 && exists|i: int|
                0 <= i < 6 && info.max_replaceable@[i] > 0)
        },
{
    let mut mandatory_gold: u8 = 0;
    let mut max_replaceable: [u8; 6] = [0; 6];
    let mut i: usize = 0;
    while i < 6
        invariant
            0 <= i <= 6,
            mandatory_gold == player.shortfall_upto(*card, i as int),
            player.gold_needed(*card) <= u8::MAX,
            forall|j: int| 0 <= j < i ==> max_replaceable@[j] == pay_exact(*player, *card, j),
        decreases 6 - i,
    {
        let gem = GemType::from_index(i).unwrap();
        let required = card.cost.get(gem).saturating_sub(player.get_bonus(gem));
        let have = player.tokens.get(gem);
        let pay = if have < required { have } else { required };
        max_replaceable[i] = pay;
        proof {
            player.lemma_shortfall_upto_monotone(*card, i as int + 1, 6);
        }
        if required > pay {
            mandatory_gold = mandatory_gold + (required - pay);
        }
        i = i + 1;
    }
    let gold_have = player.tokens.get(GemType::Gold);
    if gold_have < mandatory_gold {
        return None;
    }
    let free_gold = gold_have - mandatory_gold;
    let mut any_replaceable = false;
    let mut j: usize = 0;
    while j < 6
        invariant
            0 <= j <= 6,
            any_replaceable == exists|k: int| 0 <= k < j && max_replaceable@[k] > 0,
            forall|k: int| 0 <= k < 6 ==> max_replaceable@[k] == pay_exact(*player, *card, k),
        decreases 6 - j,
    {
        if max_replaceable[j] > 0 {
            any_replaceable = true;
        }
        j = j + 1;
    }
    let has_divergence = free_gold > 0 && any_replaceable;
    assert(j == 6);
    assert(any_replaceable == exists|k: int| 0 <= k < 6 && max_replaceable@[k] > 0);
    let info = PaymentDivergenceInfo { has_divergence, mandatory_gold, free_gold, max_replaceable };
    assert(info.max_replaceable@ == max_replaceable@);
    assert(info.has_divergence == (info.free_gold > 0 && exists|i: int|
        0 <= i < 6 && info.max_replaceable@[i] > 0));
    Some(info)
}

/// The default payment for `card` (discounts first, then the player's own tokens, gold
/// for the rest), or none when the player cannot afford the card.
pub fn compute_card_payment(player: &PlayerState, card: &JewelCard) -> (r: Option<TokenCollection>)
    requires
        player.gold_needed(*card) <= u8::MAX,
    ensures
        r is Some <==> player.spec_can_afford(*card),
        r matches Some(pay) ==> is_default_payment(*player, *card, pay),
{
    let info = match check_payment_divergence(player, card) {
        Some(info) => info,
        None => return None,
    };
    let mut payment = TokenCollection::new();
    let mut i: usize = 0;
    while i < 6
        invariant
            0 <= i <= 6,
            forall|j: int| 0 <= j < 6 ==> info.max_replaceable@[j] == pay_exact(*player, *card, j),
            forall|j: int| 0 <= j < i ==> payment.counts@[j] == pay_exact(*player, *card, j),
        decreases 6 - i,
    {
        let gem = GemType::from_index(i).unwrap();
        payment.set(gem, info.max_replaceable[i]);
        i = i + 1;
    }
    payment.set(GemType::Gold, info.mandatory_gold);
    Some(payment)
}

/// The payment when the player chooses to spend free gold in place of some of its own
/// tokens: `allocated_gold[i]` gold replaces tokens of the `i`-th colour (pearl last).
/// None when the card is unaffordable, more gold is allocated than is free, or more is
/// replaced in a colour than the default payment takes in it. The allocation is
/// summed in `u8`, so that sum must fit.
pub fn compute_custom_payment(
    player: &PlayerState,
    card: &JewelCard,
    allocated_gold: &[u8; 6],
) -> (r: Option<TokenCollection>)
    requires
        player.gold_needed(*card) <= u8::MAX,
        alloc_sum(allocated_gold@, 6) <= u8::MAX,
    ensures
        r is Some <==> {
            &&& player.spec_can_afford(*card)
            &&& alloc_sum(allocated_gold@, 6) <= player.tokens.count(GemType::Gold)
                - player.gold_needed(*card)
            &&& forall|i: int| 0 <= i < 6 ==> allocated_gold@[i] <= pay_exact(*player, *card, i)
        },
        r matches Some(pay) ==> {
            &&& forall|i: int| 0 <= i < 6 ==> pay.counts@[i] == pay_exact(*player, *card, i)
                - allocated_gold@[i]
            &&& pay.counts@[6] == player.gold_needed(*card) + alloc_sum(allocated_gold@, 6)
        },
{
    let info = match check_payment_divergence(player, card) {
        Some(info) => info,
        None => return None,
    };
    let mut total_allocated: u8 = 0;
    let mut k: usize = 0;
    while k < 6
        invariant
            0 <= k <= 6,
            total_allocated == alloc_sum(allocated_gold@, k as int),
            alloc_sum(allocated_gold@, 6) <= u8::MAX,
        decreases 6 - k,
    {
        proof {
            crate::model::token::lemma_sum_prefix_monotone(allocated_gold@, k as int + 1, 6);
        }
        total_allocated = total_allocated + allocated_gold[k];
        k = k + 1;
    }
    if total_allocated > info.free_gold {
        return None;
    }
    let mut payment = TokenCollection::new();
    let mut i: usize = 0;
    while i < 6
        invariant
            0 <= i <= 6,
            forall|j: int| 0 <= j < 6 ==> info.max_replaceable@[j] == pay_exact(*player, *card, j),
            forall|j: int| 0 <= j < i ==> allocated_gold@[j] <= pay_exact(*player, *card, j),
            forall|j: int|
                0 <= j < i ==> payment.counts@[j] == pay_exact(*player, *card, j)
                    - allocated_gold@[j],
        decreases 6 - i,
    {
        let gem = GemType::from_index(i).unwrap();
        let natural_pay = info.max_replaceable[i];
        let gold_sub = allocated_gold[i];
        if gold_sub > natural_pay {
            return None;
        }
        payment.set(gem, natural_pay - gold_sub);
        i = i + 1;
    }
    payment.set(GemType::Gold, info.mandatory_gold + total_allocated);
    Some(payment)
}

} // verus!
