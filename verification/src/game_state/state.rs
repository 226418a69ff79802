use vstd::multiset::Multiset;
use vstd::prelude::*;

use super::board::{in_range, lemma_spiral_fill_full, opt_token, spiral_fill, tokens_upto, Board};
use super::phase::{TurnPhase, VictoryReason};
use super::player::PlayerState;
use crate::model::card::{all_royal_cards, spec_royal_card, CardTier, JewelCard, ReservedCard, RoyalCard};
use crate::rng::{shuffle_vec, spec_seeded_deal};
use rand_chacha::ChaCha8Rng;
use crate::model::stack_vec::{shuffle_deal, StackVec};
use crate::model::token::GemType;
use super::accounting::distinct_ids;
use crate::gameplay::card_flow::{catalogue_kept, lemma_deal_keeps_catalogue, lemma_determinize_keeps_catalogue, no_joker};

verus! {

broadcast use vstd::seq_lib::group_to_multiset_ensures;

pub const MAX_BAG_CAPACITY: usize = 25;

pub const MAX_DECK_CAPACITY: usize = 30;

pub const MAX_PYRAMID_CAPACITY: usize = 5;

pub const MAX_ROYAL_CARDS: usize = 4;

/// The complete state of a game.
#[derive(Debug, Clone, PartialEq, Eq)]
pub struct GameState {
    pub board: Board,
    /// Tokens not on the board nor held by a player.
    pub bag: StackVec<GemType, MAX_BAG_CAPACITY>,
    /// Face-down decks, one per level; the top is the end.
    pub decks: [StackVec<JewelCard, MAX_DECK_CAPACITY>; 3],
    /// Face-up market rows, one per level.
    pub pyramid: [StackVec<JewelCard, MAX_PYRAMID_CAPACITY>; 3],
    pub royal_cards: StackVec<RoyalCard, MAX_ROYAL_CARDS>,
    /// Privilege scrolls not held by a player.
    pub privilege_pool: u8,
    pub players: [PlayerState; 2],
    pub current_player: usize,
    pub phase: TurnPhase,
    pub turn_number: u32,
    pub extra_turn_granted: bool,
    pub winner: Option<(usize, VictoryReason)>,
    pub replenished_this_turn: bool,
    pub privileges_used_this_turn: u8,
    pub rng_seed: u64,
    pub rng_counter: u64,
}

/// `p` with its privilege scrolls set to `n`.
pub open spec fn with_privileges(p: PlayerState, n: u8) -> PlayerState {
    PlayerState { privileges: n, ..p }
}

/// The SplitMix64 output for a seed and a step counter.
pub open spec fn splitmix(seed: u64, counter: u64) -> u64 {
    let z0 = vstd::wrapping::u64_specs::wrapping_add(
        seed,
        vstd::wrapping::u64_specs::wrapping_mul(counter, 0x9E3779B97F4A7C15u64),
    );
    let z1 = vstd::wrapping::u64_specs::wrapping_mul(z0 ^ (z0 >> 30u64), 0xBF58476D1CE4E5B9u64);
    let z2 = vstd::wrapping::u64_specs::wrapping_mul(z1 ^ (z1 >> 27u64), 0x94D049BB133111EBu64);
    z2 ^ (z2 >> 31u64)
}

/// The cards of level `t` in `cards`, in their order.
pub open spec fn tier_cards(cards: Seq<JewelCard>, t: int) -> Seq<JewelCard>
    decreases cards.len(),
{
    if cards.len() == 0 {
        Seq::empty()
    } else {
        let rest = tier_cards(cards.drop_last(), t);
        if cards.last().tier.spec_index() == t {
            rest.push(cards.last())
        } else {
            rest
        }
    }
}

/// A prefix holds no more cards of a level than the whole list.
pub proof fn lemma_tier_cards_prefix(cards: Seq<JewelCard>, t: int, i: int)
    requires
        0 <= i <= cards.len(),
    ensures
        tier_cards(cards.subrange(0, i), t).len() <= tier_cards(cards, t).len(),
    decreases cards.len() - i,
{
    if i < cards.len() {
        lemma_tier_cards_prefix(cards, t, i + 1);
        assert(cards.subrange(0, i + 1).drop_last() =~= cards.subrange(0, i));
    } else {
        assert(cards.subrange(0, i) =~= cards);
    }
}

/// The 25 tokens of a game in the order they enter the bag: four of each basic colour
/// (white, blue, green, red, black), two pearls, three gold.
pub open spec fn initial_tokens() -> Seq<GemType> {
    Seq::new(4, |i: int| GemType::White) + Seq::new(4, |i: int| GemType::Blue) + Seq::new(
        4,
        |i: int| GemType::Green,
    ) + Seq::new(4, |i: int| GemType::Red) + Seq::new(4, |i: int| GemType::Black) + Seq::new(
        2,
        |i: int| GemType::Pearl,
    ) + Seq::new(3, |i: int| GemType::Gold)
}

/// An empty board holds no token.
proof fn lemma_empty_board_tokens(b: Board, k: int)
    requires
        0 <= k <= 25,
        forall|i: int, j: int| in_range(i, j) ==> #[trigger] b.cell(i, j) is None,
    ensures
        tokens_upto(b.cells(), k) =~= Multiset::empty(),
    decreases k,
{
    if k > 0 {
        lemma_empty_board_tokens(b, k - 1);
        let j = k - 1;
        assert(in_range(j / 5, j % 5));
        assert(b.cell(j / 5, j % 5) is None);
        assert(b.cells()[j / 5][j % 5] == b.cell(j / 5, j % 5));
        assert(opt_token(b.cells()[j / 5][j % 5]) =~= Multiset::empty());
    }
}

/// Player `id` at the start of a game: no tokens, cards, scrolls or prestige.
pub open spec fn starting_player(p: PlayerState, id: usize) -> bool {
    &&& p.id == id
    &&& forall|i: int| 0 <= i < 7 ==> p.tokens.counts@[i] == 0
    &&& p.cards@.len() == 0
    &&& p.reserved_cards@.len() == 0
    &&& p.royal_cards@.len() == 0
    &&& forall|i: int| 0 <= i < 5 ==> p.bonuses@[i] == 0 && p.color_points@[i] == 0
    &&& p.points_card_points == 0
    &&& p.total_points == 0
    &&& p.total_crowns == 0
    &&& !p.royals_claimed@[0] && !p.royals_claimed@[1]
}

impl GameState {
    /// Every list is within its capacity.
    pub open spec fn lists_fit(&self) -> bool {
        &&& self.bag.wf()
        &&& self.royal_cards.wf()
        &&& forall|t: int| 0 <= t < 3 ==> #[trigger] self.decks@[t].wf()
        &&& forall|t: int| 0 <= t < 3 ==> #[trigger] self.pyramid@[t].wf()
    }

    /// The bounds every state of a game keeps: lists within capacity, the player to move
    /// is 0 or 1, no market row longer than its level's market, at most three reserved
    /// cards per player, and royal cards numbered below four.
    pub open spec fn well_formed(&self) -> bool {
        &&& self.lists_fit()
        &&& self.current_player < 2
        &&& forall|t: int|
            0 <= t < 3 ==> #[trigger] self.row(t).len() <= CardTier::spec_from_index(t).spec_market_capacity()
        &&& forall|i: int| 0 <= i < 2 ==> #[trigger] self.players@[i].reserved_cards@.len() <= 3
        &&& forall|i: int| 0 <= i < self.royal_cards@.len() ==> #[trigger] self.royal_cards@[i].id < 4
    }

    pub open spec fn cp(&self) -> int {
        self.current_player as int
    }

    pub open spec fn op(&self) -> int {
        1 - self.current_player
    }

    pub open spec fn player(&self, i: int) -> PlayerState {
        self.players@[i]
    }

    /// Market row of level `t` (0..3).
    pub open spec fn row(&self, t: int) -> Seq<JewelCard> {
        self.pyramid@[t]@
    }

    /// Deck of level `t` (0..3).
    pub open spec fn deck(&self, t: int) -> Seq<JewelCard> {
        self.decks@[t]@
    }

    /// `t` differs from this state at most in the decks and the market.
    pub open spec fn same_but_market(&self, t: GameState) -> bool {
        t == GameState { decks: t.decks, pyramid: t.pyramid, ..*self }
    }

    /// `t` differs from this state at most in the generator's step counter.
    pub open spec fn same_but_rng_counter(&self, t: GameState) -> bool {
        t == GameState { rng_counter: t.rng_counter, ..*self }
    }

    /// This state with player `i` replaced by `p`.
    pub open spec fn with_player(self, i: int, p: PlayerState) -> GameState {
        GameState {
            players: if i == 0 { [p, self.players@[1]] } else { [self.players@[0], p] },
            ..self
        }
    }

    /// The state after player `p` gains a privilege scroll: none at three scrolls; else
    /// one from the pool; else one from the opponent, if it has any.
    pub open spec fn after_grant(self, p: int) -> GameState {
        let me = self.players@[p].privileges;
        let other = self.players@[1 - p].privileges;
        if me >= 3 {
            self
        } else if self.privilege_pool > 0 {
            GameState {
                privilege_pool: (self.privilege_pool - 1) as u8,
                ..self.with_player(p, with_privileges(self.players@[p], (me + 1) as u8))
            }
        } else if other > 0 {
            self.with_player(p, with_privileges(self.players@[p], (me + 1) as u8)).with_player(
                1 - p,
                with_privileges(self.players@[1 - p], (other - 1) as u8),
            )
        } else {
            self
        }
    }

    /// The state after player `p` returns a scroll to the pool, if it has one.
    pub open spec fn after_return(self, p: int) -> GameState {
        let me = self.players@[p].privileges;
        if me > 0 {
            GameState {
                privilege_pool: (self.privilege_pool + 1) as u8,
                ..self.with_player(p, with_privileges(self.players@[p], (me - 1) as u8))
            }
        } else {
            self
        }
    }

    /// Player `p` gains a privilege scroll: from the pool while it has one, otherwise from
    /// the opponent; a player never holds more than three.
    pub fn grant_privilege_to(&mut self, player_idx: usize)
        requires
            player_idx < 2,
        ensures
            *final(self) == old(self).after_grant(player_idx as int),
    {
        if self.players[player_idx].privileges >= 3 {
            return;
        }
        if self.privilege_pool > 0 {
            self.privilege_pool = self.privilege_pool - 1;
            self.players[player_idx].privileges = self.players[player_idx].privileges + 1;
            proof {
                assert(self.players =~= old(self).after_grant(player_idx as int).players);
            }
        } else {
            let opponent_idx = 1 - player_idx;
            if self.players[opponent_idx].privileges > 0 {
                self.players[opponent_idx].privileges = self.players[opponent_idx].privileges - 1;
                self.players[player_idx].privileges = self.players[player_idx].privileges + 1;
                proof {
                    assert(self.players =~= old(self).after_grant(player_idx as int).players);
                }
            }
        }
    }

    /// Player `p` returns a scroll to the pool, if it has one.
    pub fn return_privilege_from(&mut self, player_idx: usize)
        requires
            player_idx < 2,
            old(self).privilege_pool < u8::MAX,
        ensures
            *final(self) == old(self).after_return(player_idx as int),
    {
        if self.players[player_idx].privileges > 0 {
            self.players[player_idx].privileges = self.players[player_idx].privileges - 1;
            self.privilege_pool = self.privilege_pool + 1;
            proof {
                assert(self.players =~= old(self).after_return(player_idx as int).players);
            }
        }
    }

    /// After the card in market slot `slot` of level `tier` is bought, the top card of
    /// that level's deck takes its place; with an empty deck the slot is removed.
    pub fn replenish_pyramid_slot(&mut self, tier: CardTier, slot: usize)
        ensures
            old(self).same_but_market(*final(self)),
            forall|t: int|
                0 <= t < 3 && t != tier.spec_index() ==> final(self).decks@[t] == old(self).decks@[t]
                    && final(self).pyramid@[t] == old(self).pyramid@[t],
            slot >= old(self).row(tier.spec_index()).len() ==> *final(self) == *old(self),
            slot < old(self).row(tier.spec_index()).len() && old(self).deck(tier.spec_index()).len()
                > 0 ==> final(self).row(tier.spec_index()) == old(self).row(tier.spec_index()).update(
                slot as int,
                old(self).deck(tier.spec_index()).last(),
            ) && final(self).deck(tier.spec_index()) == old(self).deck(tier.spec_index()).drop_last(),
            slot < old(self).row(tier.spec_index()).len() && old(self).deck(tier.spec_index()).len()
                == 0 ==> final(self).row(tier.spec_index()) == old(self).row(tier.spec_index()).remove(
                slot as int,
            ) && final(self).deck(tier.spec_index()) == old(self).deck(tier.spec_index()),
    {
        let t = tier.index();
        if slot < self.pyramid[t].len() {
            if let Some(replacement) = self.decks[t].pop() {
                self.pyramid[t].set(slot, replacement);
            } else {
                self.pyramid[t].remove(slot);
            }
        }
    }

    /// Index of the player who is not to move.
    pub fn opponent_idx(&self) -> (r: usize)
        requires
            self.current_player < 2,
        ensures
            r == 1 - self.current_player,
    {
        1 - self.current_player
    }

    /// Number of the current round (the turn number).
    pub fn round_number(&self) -> (r: u32)
        ensures
            r == self.turn_number,
    {
        self.turn_number
    }

    /// Steps the counter and derives the next seed from the game seed (SplitMix64).
    pub fn next_rng_seed(&mut self) -> (r: u64)
        ensures
            final(self).rng_counter == vstd::wrapping::u64_specs::wrapping_add(old(self).rng_counter, 1),
            r == splitmix(final(self).rng_seed, final(self).rng_counter),
            old(self).same_but_rng_counter(*final(self)),
    {
        self.rng_counter = self.rng_counter.wrapping_add(1);
        seed_mix(self.rng_seed, self.rng_counter)
    }
}

/// The SplitMix64 output for a seed and a step counter.
pub fn seed_mix(seed: u64, counter: u64) -> (r: u64)
    ensures
        r == splitmix(seed, counter),
{
    let mut z = seed.wrapping_add(counter.wrapping_mul(0x9E3779B97F4A7C15));
    z = (z ^ (z >> 30)).wrapping_mul(0xBF58476D1CE4E5B9);
    z = (z ^ (z >> 27)).wrapping_mul(0x94D049BB133111EB);
    z ^ (z >> 31)
}

/// The deal's shuffles: the catalogue cards of each level in catalogue order, then the 25
/// tokens, all drawn one after the other from one generator seeded with the game seed.
pub open spec fn deal_order(cards: Seq<JewelCard>, seed: u64) -> (
    Seq<JewelCard>,
    Seq<JewelCard>,
    Seq<JewelCard>,
    Seq<GemType>,
) {
    spec_seeded_deal(tier_cards(cards, 0), tier_cards(cards, 1), tier_cards(cards, 2), initial_tokens(), seed)
}

/// The catalogue cards of level `t` in the order the deal shuffles them.
pub open spec fn shuffled_level(cards: Seq<JewelCard>, seed: u64, t: int) -> Seq<JewelCard> {
    let d = deal_order(cards, seed);
    if t == 0 {
        d.0
    } else if t == 1 {
        d.1
    } else {
        d.2
    }
}

/// The 25 tokens in the order the deal shuffles them.
pub open spec fn dealt_bag(cards: Seq<JewelCard>, seed: u64) -> Seq<GemType> {
    deal_order(cards, seed).3
}

/// How many cards of a level of `n` cards are dealt to its market row.
pub open spec fn market_take(n: int, t: int) -> int {
    let cap = CardTier::spec_from_index(t).spec_market_capacity();
    if n < cap { n } else { cap }
}

/// The row dealt from the top of `d`: its last `k` cards, the top one first.
pub open spec fn dealt_row(d: Seq<JewelCard>, k: int) -> Seq<JewelCard> {
    Seq::new(k as nat, |j: int| d[d.len() - 1 - j])
}

/// The deck and row of level `t` as the deal leaves them: the level's shuffled cards with
/// the market's share taken from the top.
pub open spec fn dealt_level(cards: Seq<JewelCard>, seed: u64, t: int, deck: Seq<JewelCard>, row: Seq<JewelCard>) -> bool {
    let sh = shuffled_level(cards, seed, t);
    let k = market_take(sh.len() as int, t);
    &&& deck == sh.subrange(0, sh.len() - k)
    &&& row == dealt_row(sh, k)
}

/// The cells of an empty board.
pub open spec fn empty_cells() -> Seq<Seq<Option<GemType>>> {
    Seq::new(5, |i: int| Seq::new(5, |j: int| None::<GemType>))
}

impl GameState {
    /// The catalogue's cards of level `t`, in catalogue order.
    fn level_cards(jewel_cards: &[JewelCard], t: usize) -> (deck: StackVec<JewelCard, MAX_DECK_CAPACITY>)
        requires
            t < 3,
            tier_cards(jewel_cards@, t as int).len() <= MAX_DECK_CAPACITY,
        ensures
            deck@ == tier_cards(jewel_cards@, t as int),
    {
        let mut deck: StackVec<JewelCard, MAX_DECK_CAPACITY> = StackVec::new();
        let n = jewel_cards.len();
        let mut i: usize = 0;
        while i < n
            invariant
                0 <= i <= n,
                t < 3,
                n == jewel_cards@.len(),
                tier_cards(jewel_cards@, t as int).len() <= MAX_DECK_CAPACITY,
                deck@ == tier_cards(jewel_cards@.subrange(0, i as int), t as int),
            decreases n - i,
        {
            let card = jewel_cards[i];
            proof {
                lemma_tier_cards_prefix(jewel_cards@, t as int, i as int + 1);
                assert(jewel_cards@.subrange(0, i as int + 1).drop_last() =~= jewel_cards@.subrange(0, i as int));
            }
            if card.tier.index() == t {
                deck.push(card);
            }
            i = i + 1;
        }
        proof {
            assert(jewel_cards@.subrange(0, n as int) =~= jewel_cards@);
        }
        deck
    }

    /// The 25 tokens in their fixed starting order: four of each basic colour, two pearls,
    /// three gold.
    fn initial_bag() -> (bag: StackVec<GemType, MAX_BAG_CAPACITY>)
        ensures
            bag@ == initial_tokens(),
    {
        let mut bag: StackVec<GemType, MAX_BAG_CAPACITY> = StackVec::new();
        let mut g: usize = 0;
        while g < 5
            invariant
                0 <= g <= 5,
                bag@ == initial_tokens().subrange(0, 4 * g as int),
            decreases 5 - g,
        {
            let gem = GemType::from_index(g).unwrap();
            let mut k: usize = 0;
            while k < 4
                invariant
                    0 <= k <= 4,
                    g < 5,
                    gem == GemType::spec_from_index(g as int).unwrap(),
                    bag@ == initial_tokens().subrange(0, 4 * g as int + k as int),
                decreases 4 - k,
            {
                bag.push(gem);
                proof {
                    assert(initial_tokens().subrange(0, 4 * g as int + k as int + 1) =~= initial_tokens().subrange(
                        0,
                        4 * g as int + k as int,
                    ).push(gem));
                }
                k = k + 1;
            }
            g = g + 1;
        }
        let mut k: usize = 0;
        while k < 2
            invariant
                0 <= k <= 2,
                bag@ == initial_tokens().subrange(0, 20 + k as int),
            decreases 2 - k,
        {
            bag.push(GemType::Pearl);
            proof {
                assert(initial_tokens().subrange(0, 20 + k as int + 1) =~= initial_tokens().subrange(0, 20 + k as int).push(
                    GemType::Pearl,
                ));
            }
            k = k + 1;
        }
        let mut k: usize = 0;
        while k < 3
            invariant
                0 <= k <= 3,
                bag@ == initial_tokens().subrange(0, 22 + k as int),
            decreases 3 - k,
        {
            bag.push(GemType::Gold);
            proof {
                assert(initial_tokens().subrange(0, 22 + k as int + 1) =~= initial_tokens().subrange(0, 22 + k as int).push(
                    GemType::Gold,
                ));
            }
            k = k + 1;
        }
        proof {
            assert(initial_tokens().subrange(0, 25) =~= initial_tokens());
        }
        bag
    }

    /// Deals each market row from the top of its level's shuffled deck.
    fn deal_market(
        decks: &mut [StackVec<JewelCard, MAX_DECK_CAPACITY>; 3],
        Ghost(cards): Ghost<Seq<JewelCard>>,
        Ghost(seed): Ghost<u64>,
    ) -> (pyramid: [StackVec<JewelCard, MAX_PYRAMID_CAPACITY>; 3])
        requires
            forall|u: int| 0 <= u < 3 ==> #[trigger] old(decks)@[u]@ == shuffled_level(cards, seed, u),
            forall|u: int| 0 <= u < 3 ==> #[trigger] shuffled_level(cards, seed, u).to_multiset() == tier_cards(cards, u).to_multiset(),
            forall|u: int| 0 <= u < 3 ==> #[trigger] shuffled_level(cards, seed, u).len() == tier_cards(cards, u).len(),
            forall|u: int| 0 <= u < 3 ==> #[trigger] tier_cards(cards, u).len() <= MAX_DECK_CAPACITY,
        ensures
            forall|t: int|
                0 <= t < 3 ==> #[trigger] final(decks)@[t]@.to_multiset().add(pyramid@[t]@.to_multiset()) == tier_cards(
                    cards,
                    t,
                ).to_multiset(),
            forall|t: int| 0 <= t < 3 ==> #[trigger] final(decks)@[t]@.len() + pyramid@[t]@.len() == tier_cards(cards, t).len(),
            forall|t: int| 0 <= t < 3 ==> #[trigger] pyramid@[t]@.len() == market_take(tier_cards(cards, t).len() as int, t),
            forall|t: int| 0 <= t < 3 ==> #[trigger] dealt_level(cards, seed, t, final(decks)@[t]@, pyramid@[t]@),
    {
        let mut pyramid: [StackVec<JewelCard, MAX_PYRAMID_CAPACITY>; 3] = [StackVec::new(), StackVec::new(), StackVec::new()];
        let mut t: usize = 0;
        while t < 3
            invariant
                0 <= t <= 3,
                forall|u: int| 0 <= u < 3 ==> #[trigger] decks@[u]@.to_multiset().add(pyramid@[u]@.to_multiset()) == tier_cards(cards, u).to_multiset(),
                forall|u: int| 0 <= u < 3 ==> #[trigger] decks@[u]@.len() + pyramid@[u]@.len() == tier_cards(cards, u).len(),
                forall|u: int| 0 <= u < 3 ==> #[trigger] tier_cards(cards, u).len() <= MAX_DECK_CAPACITY,
                forall|u: int| 0 <= u < 3 ==> #[trigger] shuffled_level(cards, seed, u).len() == tier_cards(cards, u).len(),
                forall|u: int| t <= u < 3 ==> #[trigger] pyramid@[u]@.len() == 0,
                forall|u: int| t <= u < 3 ==> #[trigger] decks@[u]@ == shuffled_level(cards, seed, u),
                forall|u: int| 0 <= u < t ==> #[trigger] pyramid@[u]@.len() == market_take(tier_cards(cards, u).len() as int, u),
                forall|u: int| 0 <= u < t ==> #[trigger] dealt_level(cards, seed, u, decks@[u]@, pyramid@[u]@),
            decreases 3 - t,
        {
            let tier = CardTier::from_index(t);
            let cap = tier.market_capacity();
            let ghost sh = shuffled_level(cards, seed, t as int);
            let mut j: usize = 0;
            while j < cap
                invariant
                    0 <= j <= cap,
                    t < 3,
                    cap == CardTier::spec_from_index(t as int).spec_market_capacity(),
                    cap <= MAX_PYRAMID_CAPACITY,
                    sh == shuffled_level(cards, seed, t as int),
                    forall|u: int| 0 <= u < 3 ==> #[trigger] decks@[u]@.to_multiset().add(pyramid@[u]@.to_multiset()) == tier_cards(cards, u).to_multiset(),
                    forall|u: int| 0 <= u < 3 ==> #[trigger] decks@[u]@.len() + pyramid@[u]@.len() == tier_cards(cards, u).len(),
                    forall|u: int| 0 <= u < 3 ==> #[trigger] tier_cards(cards, u).len() <= MAX_DECK_CAPACITY,
                    forall|u: int| 0 <= u < 3 ==> #[trigger] shuffled_level(cards, seed, u).len() == tier_cards(cards, u).len(),
                    forall|u: int| t < u < 3 ==> #[trigger] pyramid@[u]@.len() == 0,
                    forall|u: int| t < u < 3 ==> #[trigger] decks@[u]@ == shuffled_level(cards, seed, u),
                    forall|u: int| 0 <= u < t ==> #[trigger] pyramid@[u]@.len() == market_take(tier_cards(cards, u).len() as int, u),
                    forall|u: int| 0 <= u < t ==> #[trigger] dealt_level(cards, seed, u, decks@[u]@, pyramid@[u]@),
                    pyramid@[t as int]@.len() == if tier_cards(cards, t as int).len() < j {
                        tier_cards(cards, t as int).len() as int
                    } else {
                        j as int
                    },
                    decks@[t as int]@ == sh.subrange(0, sh.len() - pyramid@[t as int]@.len()),
                    pyramid@[t as int]@ == dealt_row(sh, pyramid@[t as int]@.len() as int),
                decreases cap - j,
            {
                let ghost d0 = decks@[t as int]@;
                let ghost p0 = pyramid@[t as int]@;
                if let Some(card) = decks[t].pop() {
                    pyramid[t].push(card);
                    proof {
                        assert(d0 =~= d0.drop_last().push(card));
                        assert(d0.drop_last().push(card).to_multiset() =~= d0.drop_last().to_multiset().insert(card));
                        assert(p0.push(card).to_multiset() =~= p0.to_multiset().insert(card));
                        assert(d0.drop_last().to_multiset().add(p0.push(card).to_multiset()) =~= d0.to_multiset().add(p0.to_multiset()));
                        assert(decks@[t as int]@ =~= sh.subrange(0, sh.len() - pyramid@[t as int]@.len()));
                        assert(pyramid@[t as int]@ =~= dealt_row(sh, pyramid@[t as int]@.len() as int));
                    }
                }
                j = j + 1;
            }
            proof {
                assert(dealt_level(cards, seed, t as int, decks@[t as int]@, pyramid@[t as int]@));
            }
            t = t + 1;
        }
        pyramid
    }

    /// The deal's shuffles: each level's catalogue cards shuffled into its deck and then the
    /// 25 tokens shuffled into the bag, all from one generator seeded with `seed`; the
    /// market rows are dealt from the top of the decks.
    fn deal_cards(seed: u64, jewel_cards: &[JewelCard]) -> (r: (
        [StackVec<JewelCard, MAX_DECK_CAPACITY>; 3],
        [StackVec<JewelCard, MAX_PYRAMID_CAPACITY>; 3],
        StackVec<GemType, MAX_BAG_CAPACITY>,
    ))
        requires
            forall|t: int| 0 <= t < 3 ==> #[trigger] tier_cards(jewel_cards@, t).len() <= MAX_DECK_CAPACITY,
        ensures
            forall|t: int| 0 <= t < 3 ==> (#[trigger] r.0@[t]).wf() && r.1@[t].wf(),
            forall|t: int|
                0 <= t < 3 ==> #[trigger] r.0@[t]@.to_multiset().add(r.1@[t]@.to_multiset()) == tier_cards(
                    jewel_cards@,
                    t,
                ).to_multiset(),
            forall|t: int| 0 <= t < 3 ==> #[trigger] r.1@[t]@.len() == market_take(tier_cards(jewel_cards@, t).len() as int, t),
            forall|t: int| 0 <= t < 3 ==> #[trigger] dealt_level(jewel_cards@, seed, t, r.0@[t]@, r.1@[t]@),
            r.2@ == dealt_bag(jewel_cards@, seed),
            r.2@.len() == 25,
            r.2@.to_multiset() == initial_tokens().to_multiset(),
    {
        let mut d0 = Self::level_cards(jewel_cards, 0);
        let mut d1 = Self::level_cards(jewel_cards, 1);
        let mut d2 = Self::level_cards(jewel_cards, 2);
        let mut bag = Self::initial_bag();
        proof {
            assert(initial_tokens().len() == 25);
        }
        shuffle_deal(&mut d0, &mut d1, &mut d2, &mut bag, seed);
        let mut decks = [d0, d1, d2];
        proof {
            assert forall|u: int| 0 <= u < 3 implies #[trigger] decks@[u]@ == shuffled_level(jewel_cards@, seed, u) by {}
            assert forall|u: int| 0 <= u < 3 implies #[trigger] shuffled_level(jewel_cards@, seed, u).to_multiset()
                == tier_cards(jewel_cards@, u).to_multiset() by {}
            assert forall|u: int| 0 <= u < 3 implies #[trigger] shuffled_level(jewel_cards@, seed, u).len()
                == tier_cards(jewel_cards@, u).len() by {}
        }
        let pyramid = Self::deal_market(&mut decks, Ghost(jewel_cards@), Ghost(seed));
        proof {
            assert forall|t: int| 0 <= t < 3 implies (#[trigger] decks@[t]).wf() && pyramid@[t].wf() by {
                assert(pyramid@[t]@.len() == market_take(tier_cards(jewel_cards@, t).len() as int, t));
            }
        }
        (decks, pyramid, bag)
    }

    /// The tokens of `bag` laid on an empty board along the spiral.
    fn lay_board(bag: StackVec<GemType, MAX_BAG_CAPACITY>) -> (r: (Board, StackVec<GemType, MAX_BAG_CAPACITY>))
        requires
            bag@.len() == 25,
        ensures
            r.0.tokens().add(r.1@.to_multiset()) == bag@.to_multiset(),
            r.1@.len() == 0,
            forall|i: int, j: int| in_range(i, j) ==> (#[trigger] r.0.cell(i, j)) is Some,
            (r.0.cells(), r.1@) == spiral_fill(empty_cells(), bag@, 0),
    {
        let mut bag = bag;
        let mut board = Board::new();
        proof {
            lemma_empty_board_tokens(board, 25);
            board.lemma_well_shaped();
            assert forall|i: int| 0 <= i < 5 implies #[trigger] board.cells()[i] =~= empty_cells()[i] by {
                assert forall|j: int| 0 <= j < 5 implies board.cells()[i][j] == empty_cells()[i][j] by {
                    assert(in_range(i, j));
                    assert(board.cell(i, j) is None);
                    assert(board.cells()[i][j] == board.cell(i, j));
                    assert(empty_cells()[i] == Seq::new(5, |k: int| None::<GemType>));
                }
            }
            assert(board.cells() =~= empty_cells());
            assert forall|r: int, c: int| in_range(r, c) implies (#[trigger] board.cells()[r][c]) is None by {
                assert(board.cells()[r][c] == board.cell(r, c));
            }
            lemma_spiral_fill_full(board.cells(), bag@);
        }
        board.fill_spiral(&mut bag);
        proof {
            assert forall|r: int, c: int| in_range(r, c) implies (#[trigger] board.cell(r, c)) is Some by {
                assert(board.cells()[r][c] == board.cell(r, c));
            }
        }
        (board, bag)
    }

    /// A new game from a seed and the list of jewel cards: one generator seeded with
    /// `seed` shuffles each level's cards into its deck and then the 25 tokens; the
    /// market is dealt from the top of the decks and the tokens are laid on the board
    /// along the spiral; the four royal cards are set out; the second player starts with
    /// a privilege scroll and the pool keeps two.
    pub fn new_game(seed: u64, jewel_cards: &[JewelCard]) -> (r: Self)
        requires
            forall|t: int| 0 <= t < 3 ==> #[trigger] tier_cards(jewel_cards@, t).len() <= MAX_DECK_CAPACITY,
        ensures
            r.lists_fit(),
            forall|t: int|
                0 <= t < 3 ==> #[trigger] r.deck(t).to_multiset().add(r.row(t).to_multiset()) == tier_cards(
                    jewel_cards@,
                    t,
                ).to_multiset(),
            forall|t: int|
                0 <= t < 3 ==> #[trigger] r.row(t).len() == if tier_cards(jewel_cards@, t).len()
                    < CardTier::spec_from_index(t).spec_market_capacity() {
                    tier_cards(jewel_cards@, t).len() as int
                } else {
                    CardTier::spec_from_index(t).spec_market_capacity()
                },
            r.board.tokens().add(r.bag@.to_multiset()) == initial_tokens().to_multiset(),
            r.bag@.len() == 0,
            forall|i: int, j: int| in_range(i, j) ==> (#[trigger] r.board.cell(i, j)) is Some,
            forall|t: int| 0 <= t < 3 ==> #[trigger] dealt_level(jewel_cards@, seed, t, r.deck(t), r.row(t)),
            (r.board.cells(), r.bag@) == spiral_fill(empty_cells(), dealt_bag(jewel_cards@, seed), 0),
            r.royal_cards@ == seq![spec_royal_card(0), spec_royal_card(1), spec_royal_card(2), spec_royal_card(3)],
            starting_player(r.players@[0], 0),
            starting_player(r.players@[1], 1),
            r.players@[0].privileges == 0,
            r.players@[1].privileges == 1,
            r.privilege_pool == 2,
            r.current_player == 0,
            r.phase == TurnPhase::OptionalActions,
            r.turn_number == 1,
            !r.extra_turn_granted,
            r.winner is None,
            !r.replenished_this_turn,
            r.privileges_used_this_turn == 0,
            r.rng_seed == seed,
            r.rng_counter == 0,
            crate::gameplay::invariants::game_invariant(r),
            distinct_ids(jewel_cards@) ==> catalogue_kept(r, jewel_cards@),
            crate::gameplay::royals::royals_consistent(r),
            new_game_post(seed, jewel_cards@, r),
    {
        let (decks, pyramid, shuffled) = Self::deal_cards(seed, jewel_cards);
        let (board, bag) = Self::lay_board(shuffled);
        let royals = all_royal_cards();
        let mut royal_cards: StackVec<RoyalCard, MAX_ROYAL_CARDS> = StackVec::new();
        royal_cards.extend(royals.as_slice());
        proof {
            assert(royal_cards@ =~= seq![spec_royal_card(0), spec_royal_card(1), spec_royal_card(2), spec_royal_card(3)]);
        }
        let p0 = PlayerState::new(0);
        let mut p1 = PlayerState::new(1);
        p1.privileges = 1;
        let r = GameState {
            board,
            bag,
            decks,
            pyramid,
            royal_cards,
            privilege_pool: 2,
            players: [p0, p1],
            current_player: 0,
            phase: TurnPhase::OptionalActions,
            turn_number: 1,
            extra_turn_granted: false,
            winner: None,
            replenished_this_turn: false,
            privileges_used_this_turn: 0,
            rng_seed: seed,
            rng_counter: 0,
        };
        proof {
            assert(r.row(0).len() <= 5 && r.row(1).len() <= 4 && r.row(2).len() <= 3);
            assert forall|t: int| 0 <= t < 3 implies #[trigger] r.row(t).len()
                <= CardTier::spec_from_index(t).spec_market_capacity() by {
            }
            assert forall|i: int| 0 <= i < r.royal_cards@.len() implies #[trigger] r.royal_cards@[i].id < 4 by {
            }
            assert forall|g: GemType| #[trigger] crate::gameplay::invariants::token_total(r, g)
                == initial_tokens().to_multiset().count(g) by {
                crate::model::token::lemma_gem_index_roundtrip(g);
                assert(r.board.tokens().add(r.bag@.to_multiset()).count(g) == initial_tokens().to_multiset().count(g));
            }
            if distinct_ids(jewel_cards@) {
                lemma_deal_keeps_catalogue(jewel_cards@, r);
            }
        }
        r
    }
}

/// `r` is the game that `seed` deals from `cards`: each level shuffled and laid out, the
/// board laid from the shuffled bag, both players at their start, player 0 to move in the
/// optional phase of the first round.
pub open spec fn new_game_post(seed: u64, cards: Seq<JewelCard>, r: GameState) -> bool {
    &&& forall|t: int| 0 <= t < 3 ==> #[trigger] dealt_level(cards, seed, t, r.deck(t), r.row(t))
    &&& (r.board.cells(), r.bag@) == spiral_fill(empty_cells(), dealt_bag(cards, seed), 0)
    &&& r.royal_cards@ == seq![spec_royal_card(0), spec_royal_card(1), spec_royal_card(2), spec_royal_card(3)]
    &&& starting_player(r.players@[0], 0)
    &&& starting_player(r.players@[1], 1)
    &&& r.players@[0].privileges == 0
    &&& r.players@[1].privileges == 1
    &&& r.privilege_pool == 2
    &&& r.current_player == 0
    &&& r.phase == TurnPhase::OptionalActions
    &&& r.turn_number == 1
    &&& !r.extra_turn_granted
    &&& r.winner is None
    &&& !r.replenished_this_turn
    &&& r.privileges_used_this_turn == 0
    &&& r.rng_seed == seed
    &&& r.rng_counter == 0
}

/// Some card the observer can see has this id: a market card, a card either player has
/// bought, one of the observer's reserved cards, or a public reserved card of the
/// opponent.
pub open spec fn is_known(s: GameState, observer: int, id: u8) -> bool {
    ||| exists|t: int, i: int| 0 <= t < 3 && 0 <= i < s.row(t).len() && #[trigger] s.row(t)[i].id == id
    ||| exists|pl: int, i: int|
        0 <= pl < 2 && 0 <= i < s.players@[pl].cards@.len() && #[trigger] s.players@[pl].cards@[i].id == id
    ||| exists|i: int|
        0 <= i < s.players@[observer].reserved_cards@.len()
            && #[trigger] s.players@[observer].reserved_cards@[i].card.id == id
    ||| exists|i: int|
        0 <= i < s.players@[1 - observer].reserved_cards@.len() && s.players@[1
            - observer].reserved_cards@[i].is_public
            && #[trigger] s.players@[1 - observer].reserved_cards@[i].card.id == id
}

/// The cards of level `t` in `cards` that the observer cannot see, in their order.
pub open spec fn unseen_cards(s: GameState, observer: int, cards: Seq<JewelCard>, t: int) -> Seq<JewelCard>
    decreases cards.len(),
{
    if cards.len() == 0 {
        Seq::empty()
    } else {
        let rest = unseen_cards(s, observer, cards.drop_last(), t);
        let c = cards.last();
        if c.tier.spec_index() == t && !is_known(s, observer, c.id) {
            rest.push(c)
        } else {
            rest
        }
    }
}

/// Hidden reserved cards of level `t` among the first `j` of `rs`.
pub open spec fn hidden_before(rs: Seq<ReservedCard>, j: int, t: int) -> int
    decreases j,
{
    if j <= 0 {
        0
    } else {
        hidden_before(rs, j - 1, t) + if !rs[j - 1].is_public && rs[j - 1].card.tier.spec_index() == t {
            1int
        } else {
            0int
        }
    }
}

/// The count of hidden cards among the first `j` lies between 0 and `j`.
pub proof fn lemma_hidden_before_bounds(rs: Seq<ReservedCard>, j: int, t: int)
    requires
        0 <= j,
    ensures
        0 <= hidden_before(rs, j, t) <= j,
    decreases j,
{
    if j > 0 {
        lemma_hidden_before_bounds(rs, j - 1, t);
    }
}

/// `rs` with its hidden cards of level `t` drawn again from the end of `u`, the first
/// hidden card taking the last card of `u`, as long as `u` lasts.
pub open spec fn redrawn(rs: Seq<ReservedCard>, t: int, u: Seq<JewelCard>) -> Seq<ReservedCard> {
    Seq::new(
        rs.len(),
        |j: int|
            if !rs[j].is_public && rs[j].card.tier.spec_index() == t && hidden_before(rs, j, t) < u.len() {
                ReservedCard { card: u[u.len() - 1 - hidden_before(rs, j, t)], is_public: false }
            } else {
                rs[j]
            },
    )
}

/// How many of the shuffled unseen cards `u` go back to the deck: those not drawn for a
/// hidden reserved card of level `t` of `rs`.
pub open spec fn deck_keep(rs: Seq<ReservedCard>, t: int, u: Seq<JewelCard>) -> int {
    let h = hidden_before(rs, rs.len() as int, t);
    if h < u.len() {
        u.len() - h
    } else {
        0
    }
}

impl GameState {
    /// Whether a card with this id is visible to `observer` (see `is_known`).
    fn id_known(&self, observer: usize, id: u8) -> (r: bool)
        requires
            observer < 2,
            self.lists_fit(),
        ensures
            r == is_known(*self, observer as int, id),
    {
        let mut t: usize = 0;
        while t < 3
            invariant
                0 <= t <= 3,
                self.lists_fit(),
                forall|u: int, i: int| 0 <= u < t && 0 <= i < self.row(u).len() ==> #[trigger] self.row(u)[i].id != id,
            decreases 3 - t,
        {
            let n = self.pyramid[t].len();
            let mut i: usize = 0;
            while i < n
                invariant
                    0 <= i <= n,
                    t < 3,
                    n == self.row(t as int).len(),
                    forall|u: int, k: int| 0 <= u < t && 0 <= k < self.row(u).len() ==> #[trigger] self.row(u)[k].id != id,
                    forall|k: int| 0 <= k < i ==> #[trigger] self.row(t as int)[k].id != id,
                decreases n - i,
            {
                if self.pyramid[t].at(i).id == id {
                    return true;
                }
                i = i + 1;
            }
            t = t + 1;
        }
        let mut pl: usize = 0;
        while pl < 2
            invariant
                0 <= pl <= 2,
                forall|u: int, i: int| 0 <= u < 3 && 0 <= i < self.row(u).len() ==> #[trigger] self.row(u)[i].id != id,
                forall|q: int, i: int|
                    0 <= q < pl && 0 <= i < self.players@[q].cards@.len() ==> #[trigger] self.players@[q].cards@[i].id != id,
            decreases 2 - pl,
        {
            let n = self.players[pl].cards.len();
            let mut i: usize = 0;
            while i < n
                invariant
                    0 <= i <= n,
                    pl < 2,
                    n == self.players@[pl as int].cards@.len(),
                    forall|u: int, k: int| 0 <= u < 3 && 0 <= k < self.row(u).len() ==> #[trigger] self.row(u)[k].id != id,
                    forall|q: int, k: int|
                        0 <= q < pl && 0 <= k < self.players@[q].cards@.len() ==> #[trigger] self.players@[q].cards@[k].id != id,
                    forall|k: int| 0 <= k < i ==> #[trigger] self.players@[pl as int].cards@[k].id != id,
                decreases n - i,
            {
                if self.players[pl].cards[i].id == id {
                    return true;
                }
                i = i + 1;
            }
            pl = pl + 1;
        }
        let mine = &self.players[observer].reserved_cards;
        let mut i: usize = 0;
        while i < mine.len()
            invariant
                0 <= i <= mine@.len(),
                *mine == self.players@[observer as int].reserved_cards,
                forall|k: int| 0 <= k < i ==> #[trigger] mine@[k].card.id != id,
            decreases mine@.len() - i,
        {
            if mine[i].card.id == id {
                return true;
            }
            i = i + 1;
        }
        let theirs = &self.players[1 - observer].reserved_cards;
        let mut i: usize = 0;
        while i < theirs.len()
            invariant
                0 <= i <= theirs@.len(),
                *theirs == self.players@[1 - observer].reserved_cards,
                forall|k: int| 0 <= k < i ==> !(theirs@[k].is_public && #[trigger] theirs@[k].card.id == id),
            decreases theirs@.len() - i,
        {
            if theirs[i].is_public && theirs[i].card.id == id {
                return true;
            }
            i = i + 1;
        }
        false
    }
}

/// No more cards of a level are unseen than the list holds of that level.
pub proof fn lemma_unseen_len(s: GameState, observer: int, cards: Seq<JewelCard>, t: int)
    ensures
        unseen_cards(s, observer, cards, t).len() <= tier_cards(cards, t).len(),
    decreases cards.len(),
{
    if cards.len() > 0 {
        lemma_unseen_len(s, observer, cards.drop_last(), t);
    }
}

impl GameState {
    /// The unseen cards of level `t` of the catalogue, in catalogue order.
    fn collect_unseen(&self, observer: usize, all_cards: &[JewelCard], tier: CardTier) -> (r: Vec<JewelCard>)
        requires
            observer < 2,
            self.lists_fit(),
        ensures
            r@ == unseen_cards(*self, observer as int, all_cards@, tier.spec_index()),
    {
        let mut unseen: Vec<JewelCard> = Vec::new();
        let n = all_cards.len();
        let mut i: usize = 0;
        while i < n
            invariant
                0 <= i <= n,
                n == all_cards@.len(),
                observer < 2,
                self.lists_fit(),
                unseen@ == unseen_cards(*self, observer as int, all_cards@.subrange(0, i as int), tier.spec_index()),
            decreases n - i,
        {
            let c = all_cards[i];
            proof {
                assert(all_cards@.subrange(0, i as int + 1).drop_last() =~= all_cards@.subrange(0, i as int));
            }
            if c.tier == tier && !self.id_known(observer, c.id) {
                unseen.push(c);
            }
            i = i + 1;
        }
        proof {
            assert(all_cards@.subrange(0, n as int) =~= all_cards@);
        }
        unseen
    }

    /// Redraws the hidden reserved cards of level `t` of `rs` from the end of `unseen`, as
    /// long as it lasts; returns how many unseen cards are left.
    fn redraw_hidden(rs: &mut Vec<ReservedCard>, tier: CardTier, unseen: &Vec<JewelCard>) -> (left: usize)
        ensures
            final(rs)@ == redrawn(old(rs)@, tier.spec_index(), unseen@),
            left == deck_keep(old(rs)@, tier.spec_index(), unseen@),
    {
        let ghost stage = rs@;
        let ghost t = tier.spec_index();
        let n = unseen.len();
        let m = rs.len();
        let mut pop_idx = n;
        let mut j: usize = 0;
        while j < m
            invariant
                0 <= j <= m,
                m == stage.len(),
                n == unseen@.len(),
                rs@.len() == m,
                stage == old(rs)@,
                t == tier.spec_index(),
                pop_idx == if hidden_before(stage, j as int, t) < n { n - hidden_before(stage, j as int, t) } else { 0 },
                forall|k: int| 0 <= k < j ==> #[trigger] rs@[k] == redrawn(stage, t, unseen@)[k],
                forall|k: int| j <= k < m ==> #[trigger] rs@[k] == stage[k],
            decreases m - j,
        {
            let rc = rs[j];
            proof {
                lemma_hidden_before_bounds(stage, j as int, t);
            }
            if !rc.is_public && rc.card.tier == tier && pop_idx > 0 {
                pop_idx = pop_idx - 1;
                rs.set(j, ReservedCard { card: unseen[pop_idx], is_public: false });
            }
            j = j + 1;
        }
        proof {
            assert(rs@ =~= redrawn(stage, t, unseen@));
        }
        pop_idx
    }
}

/// `r` holds the opponent's reserve and the decks that come from the shuffled unseen
/// cards `u` (one list per level, each a permutation of that level's unseen cards): level
/// by level, the hidden reserved cards of that level are drawn again from the end of the
/// level's list, and what is left of the list, in order, is the level's deck.
pub open spec fn redraw_outcome(s: GameState, observer: int, all_cards: Seq<JewelCard>, r: GameState, u: Seq<Seq<JewelCard>>) -> bool {
    let s0 = s.players@[1 - observer].reserved_cards@;
    let s1 = redrawn(s0, 0, u[0]);
    let s2 = redrawn(s1, 1, u[1]);
    &&& u.len() == 3
    &&& forall|t: int|
        0 <= t < 3 ==> #[trigger] u[t].to_multiset() == unseen_cards(s, observer, all_cards, t).to_multiset()
    &&& r.players@[1 - observer].reserved_cards@ == redrawn(s2, 2, u[2])
    &&& r.deck(0) == u[0].subrange(0, deck_keep(s0, 0, u[0]))
    &&& r.deck(1) == u[1].subrange(0, deck_keep(s1, 1, u[1]))
    &&& r.deck(2) == u[2].subrange(0, deck_keep(s2, 2, u[2]))
}

/// `r` is `s` as `observer` sees it with the unseen cards drawn again: the market, the
/// observer and the opponent but for its reserve are kept, and the opponent's reserve and
/// the decks come from some shuffle of the unseen cards (see `redraw_outcome`).
pub open spec fn redraw_of(s: GameState, observer: int, all_cards: Seq<JewelCard>, r: GameState) -> bool {
    &&& forall|t: int| 0 <= t < 3 ==> #[trigger] r.row(t) == s.row(t)
    &&& s.players@[observer].same(r.players@[observer])
    &&& s.players@[1 - observer].same(
        PlayerState { reserved_cards: s.players@[1 - observer].reserved_cards, ..r.players@[1 - observer] },
    )
    &&& exists|u: Seq<Seq<JewelCard>>| #[trigger] redraw_outcome(s, observer, all_cards, r, u)
}

impl GameState {
    /// A copy of this state seen by `observer`, with what the observer cannot know drawn
    /// again: for each level in turn, the catalogue cards of that level the observer cannot
    /// see are shuffled; the opponent's hidden reserved cards of that level take cards from
    /// the end of the shuffled list, and the rest becomes that level's deck. Everything the
    /// observer can see is kept.
    pub fn determinize_for_player(&self, observer: usize, all_cards: &[JewelCard], rng: &mut ChaCha8Rng) -> (r: GameState)
        requires
            observer < 2,
            self.lists_fit(),
            forall|t: int| 0 <= t < 3 ==> #[trigger] tier_cards(all_cards@, t).len() <= MAX_DECK_CAPACITY,
        ensures
            r == (GameState {
                bag: r.bag,
                decks: r.decks,
                pyramid: r.pyramid,
                royal_cards: r.royal_cards,
                players: r.players,
                ..*self
            }),
            r.bag@ == self.bag@,
            r.royal_cards@ == self.royal_cards@,
            r.lists_fit(),
            redraw_of(*self, observer as int, all_cards@, r),
            catalogue_kept(*self, all_cards@) && no_joker(self.phase) ==> catalogue_kept(r, all_cards@),
            catalogue_kept(*self, all_cards@) && no_joker(self.phase) ==> forall|t: int|
                0 <= t < 3 ==> #[trigger] r.deck(t).len() == self.deck(t).len(),
    {
        let opp = 1 - observer;
        let mut players = [self.players[0].duplicate(), self.players[1].duplicate()];
        let mut decks: [StackVec<JewelCard, MAX_DECK_CAPACITY>; 3] = [StackVec::new(), StackVec::new(), StackVec::new()];
        let ghost mut us: Seq<Seq<JewelCard>> = Seq::empty();
        let ghost s0 = self.players@[opp as int].reserved_cards@;
        let ghost mut stages: Seq<Seq<ReservedCard>> = seq![s0];
        let mut t: usize = 0;
        while t < 3
            invariant
                0 <= t <= 3,
                observer < 2,
                opp == 1 - observer,
                self.lists_fit(),
                forall|u: int| 0 <= u < 3 ==> #[trigger] tier_cards(all_cards@, u).len() <= MAX_DECK_CAPACITY,
                self.players@[observer as int].same(players@[observer as int]),
                self.players@[opp as int].same(
                    PlayerState { reserved_cards: self.players@[opp as int].reserved_cards, ..players@[opp as int] },
                ),
                us.len() == t,
                stages.len() == t + 1,
                stages[0] == s0,
                players@[opp as int].reserved_cards@ == stages[t as int],
                forall|u: int| 0 <= u < t ==> #[trigger] us[u].to_multiset() == unseen_cards(*self, observer as int, all_cards@, u).to_multiset(),
                forall|u: int| 1 <= u <= t ==> #[trigger] stages[u] == redrawn(stages[u - 1], u - 1, us[u - 1]),
                forall|u: int| 0 <= u < t ==> #[trigger] decks@[u]@ == us[u].subrange(0, deck_keep(stages[u], u, us[u])),
                forall|u: int| t <= u < 3 ==> #[trigger] decks@[u]@.len() == 0,
                forall|u: int| 0 <= u < t ==> #[trigger] decks@[u].wf(),
            decreases 3 - t,
        {
            let tier = CardTier::from_index(t);
            let mut unseen = self.collect_unseen(observer, all_cards, tier);
            proof {
                lemma_unseen_len(*self, observer as int, all_cards@, t as int);
            }
            let ghost before = unseen@;
            shuffle_vec(&mut unseen, rng);
            let ghost stage = players@[opp as int].reserved_cards@;
            let left = Self::redraw_hidden(&mut players[opp].reserved_cards, tier, &unseen);
            proof {
                lemma_hidden_before_bounds(stage, stage.len() as int, t as int);
            }
            let ghost decks_before = decks;
            let mut k: usize = 0;
            while k < left
                invariant
                    0 <= k <= left,
                    left <= unseen@.len(),
                    unseen@.len() <= MAX_DECK_CAPACITY,
                    t < 3,
                    decks@[t as int]@ == unseen@.subrange(0, k as int),
                    decks_before@[t as int]@.len() == 0,
                    forall|u: int| 0 <= u < 3 && u != t ==> #[trigger] decks@[u] == decks_before@[u],
                decreases left - k,
            {
                proof {
                    assert(unseen@.subrange(0, k as int + 1) =~= unseen@.subrange(0, k as int).push(unseen@[k as int]));
                }
                decks[t].push(unseen[k]);
                k = k + 1;
            }
            proof {
                us = us.push(unseen@);
                stages = stages.push(players@[opp as int].reserved_cards@);
                assert(us[t as int] == unseen@);
                assert(stages[t as int] == stage);
            }
            t = t + 1;
        }
        let r = GameState {
            board: self.board,
            bag: self.bag.duplicate(),
            decks,
            pyramid: [self.pyramid[0].duplicate(), self.pyramid[1].duplicate(), self.pyramid[2].duplicate()],
            royal_cards: self.royal_cards.duplicate(),
            privilege_pool: self.privilege_pool,
            players,
            current_player: self.current_player,
            phase: self.phase,
            turn_number: self.turn_number,
            extra_turn_granted: self.extra_turn_granted,
            winner: self.winner,
            replenished_this_turn: self.replenished_this_turn,
            privileges_used_this_turn: self.privileges_used_this_turn,
            rng_seed: self.rng_seed,
            rng_counter: self.rng_counter,
        };
        proof {
            assert(stages[1] == redrawn(s0, 0, us[0]));
            assert(stages[2] == redrawn(stages[1], 1, us[1]));
            assert(stages[3] == redrawn(stages[2], 2, us[2]));
            assert(redraw_outcome(*self, observer as int, all_cards@, r, us));
            assert(r.decks@[0].wf() && r.decks@[1].wf() && r.decks@[2].wf());
            assert(self.pyramid@[0].wf() && self.pyramid@[1].wf() && self.pyramid@[2].wf());
            assert(r.pyramid@[0].wf() && r.pyramid@[1].wf() && r.pyramid@[2].wf());
            assert forall|u: int| 0 <= u < 3 implies #[trigger] r.row(u) == self.row(u) by {
            }
            if catalogue_kept(*self, all_cards@) && no_joker(self.phase) {
                lemma_determinize_keeps_catalogue(*self, observer as int, all_cards@, r);
            }
        }
        r
    }
}

} // verus!
