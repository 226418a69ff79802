use vstd::multiset::Multiset;
use vstd::prelude::*;

use super::payment::{compute_card_payment, is_default_payment, pay_exact};
use super::scoring::{check_victory, spec_victory};
use crate::game_state::board::{in_range, is_line_at, pos_at, spiral_fill, Board};
use crate::game_state::phase::TurnPhase;
use crate::game_state::player::PlayerState;
use crate::game_state::state::{splitmix, GameState, MAX_BAG_CAPACITY, with_privileges};
use crate::model::stack_vec::StackVec;
use crate::model::action::Action;
use crate::model::card::{CardAbility, CardColor, CardTier, JewelCard, ReservedCard, RoyalAbility};
use crate::model::token::{GemType, TokenCollection};
use crate::rng::spec_seeded_gem_order;

verus! {

broadcast use vstd::seq_lib::group_to_multiset_ensures;

// ---------------------------------------------------------------------------------------
// Specification of a step.
// ---------------------------------------------------------------------------------------

/// The end of a turn: a player who has met a victory condition wins; otherwise the turn
/// passes (or the same player moves again after an extra turn) and a new turn begins.
pub open spec fn finish_turn_state(s: GameState) -> GameState {
    match spec_victory(s.players@[s.cp()]) {
        Some(reason) => GameState {
            winner: Some((s.current_player, reason)),
            phase: TurnPhase::GameOver(reason),
            ..s
        },
        None => GameState {
            current_player: if s.extra_turn_granted {
                s.current_player
            } else {
                (1 - s.current_player) as usize
            },
            extra_turn_granted: false,
            replenished_this_turn: false,
            privileges_used_this_turn: 0,
            turn_number: (s.turn_number + 1) as u32,
            phase: TurnPhase::OptionalActions,
            ..s
        },
    }
}

/// What follows a completed action: the choice of a royal card when a crown milestone is
/// pending and royal cards remain; else discarding when more than ten tokens are held;
/// else the end of the turn.
pub open spec fn after_check_state(s: GameState) -> GameState {
    let p = s.players@[s.cp()];
    if p.spec_pending_milestones().len() > 0 && s.royal_cards@.len() > 0 {
        GameState { phase: TurnPhase::SelectRoyalCard, ..s }
    } else if p.tokens.sum() > 10 {
        GameState { phase: TurnPhase::DiscardTokens, ..s }
    } else {
        finish_turn_state(s)
    }
}

/// The opponent holds a token that can be stolen (a basic gem or a pearl).
pub open spec fn opp_has_stealable(s: GameState) -> bool {
    exists|i: int| 0 <= i < 6 && s.players@[s.op()].tokens.counts@[i] > 0
}

/// The effect of a jewel card's ability once the card is in play (`color` is the colour
/// it counts for).
pub open spec fn ability_state(s: GameState, ability: Option<CardAbility>, color: CardColor) -> GameState {
    match ability {
        Some(CardAbility::ExtraTurn) => after_check_state(GameState { extra_turn_granted: true, ..s }),
        Some(CardAbility::ColorCopyAndExtraTurn) => after_check_state(
            GameState { extra_turn_granted: true, ..s },
        ),
        Some(CardAbility::TakePrivilege) => after_check_state(s.after_grant(s.cp())),
        Some(CardAbility::TakeSameColor) => match color.spec_to_gem_type() {
            Some(g) => if s.board.spec_contains(g) {
                GameState { phase: TurnPhase::CardAbilitySameColor { color: g }, ..s }
            } else {
                after_check_state(s)
            },
            None => after_check_state(s),
        },
        Some(CardAbility::StealToken) => if opp_has_stealable(s) {
            GameState { phase: TurnPhase::CardAbilitySteal, ..s }
        } else {
            after_check_state(s)
        },
        _ => after_check_state(s),
    }
}

/// The effect of a royal card's ability.
pub open spec fn royal_ability_state(s: GameState, ability: Option<RoyalAbility>) -> GameState {
    match ability {
        Some(RoyalAbility::ExtraTurn) => after_check_state(GameState { extra_turn_granted: true, ..s }),
        Some(RoyalAbility::TakePrivilege) => after_check_state(s.after_grant(s.cp())),
        Some(RoyalAbility::StealToken) => if opp_has_stealable(s) {
            GameState { phase: TurnPhase::CardAbilitySteal, ..s }
        } else {
            after_check_state(s)
        },
        None => after_check_state(s),
    }
}

/// The end of a turn touches neither the tokens, the cards nor the players.
pub proof fn lemma_finish_turn_keeps(s: GameState)
    ensures
        finish_turn_state(s).bag == s.bag,
        finish_turn_state(s).decks == s.decks,
        finish_turn_state(s).pyramid == s.pyramid,
        finish_turn_state(s).royal_cards == s.royal_cards,
        finish_turn_state(s).board == s.board,
        finish_turn_state(s).players == s.players,
        finish_turn_state(s).privilege_pool == s.privilege_pool,
{
}

/// Nor does the check that follows an action.
pub proof fn lemma_after_check_keeps(s: GameState)
    ensures
        after_check_state(s).bag == s.bag,
        after_check_state(s).decks == s.decks,
        after_check_state(s).pyramid == s.pyramid,
        after_check_state(s).royal_cards == s.royal_cards,
        after_check_state(s).board == s.board,
        after_check_state(s).players == s.players,
        after_check_state(s).privilege_pool == s.privilege_pool,
{
    lemma_finish_turn_keeps(s);
}

/// A card's ability changes at most the privilege scrolls of the players and the pool.
pub proof fn lemma_ability_keeps(s: GameState, ability: Option<CardAbility>, color: CardColor)
    requires
        s.current_player < 2,
    ensures
        ability_state(s, ability, color).bag == s.bag,
        ability_state(s, ability, color).decks == s.decks,
        ability_state(s, ability, color).pyramid == s.pyramid,
        ability_state(s, ability, color).royal_cards == s.royal_cards,
        ability_state(s, ability, color).board == s.board,
        forall|i: int|
            0 <= i < 2 ==> #[trigger] ability_state(s, ability, color).players@[i] == with_privileges(
                s.players@[i],
                ability_state(s, ability, color).players@[i].privileges,
            ),
{
    lemma_after_check_keeps(s);
    lemma_after_check_keeps(GameState { extra_turn_granted: true, ..s });
    lemma_after_check_keeps(s.after_grant(s.cp()));
}

/// So does a royal card's ability.
pub proof fn lemma_royal_ability_keeps(s: GameState, ability: Option<RoyalAbility>)
    requires
        s.current_player < 2,
    ensures
        royal_ability_state(s, ability).bag == s.bag,
        royal_ability_state(s, ability).decks == s.decks,
        royal_ability_state(s, ability).pyramid == s.pyramid,
        royal_ability_state(s, ability).royal_cards == s.royal_cards,
        royal_ability_state(s, ability).board == s.board,
        forall|i: int|
            0 <= i < 2 ==> #[trigger] royal_ability_state(s, ability).players@[i] == with_privileges(
                s.players@[i],
                royal_ability_state(s, ability).players@[i].privileges,
            ),
{
    lemma_after_check_keeps(s);
    lemma_after_check_keeps(GameState { extra_turn_granted: true, ..s });
    lemma_after_check_keeps(s.after_grant(s.cp()));
}

/// Taking the positions `j..n` of a line one after the other: each is removed from the
/// board; a position off the board or empty stops the run, and so does a gold token
/// (which is removed nonetheless). Gives the board after the run, whether every position
/// yielded a non-gold token, and the tokens taken.
pub open spec fn take_run(
    b: Board,
    positions: [(usize, usize); 3],
    n: int,
    j: int,
    taken: Seq<GemType>,
) -> (Board, bool, Seq<GemType>)
    decreases n - j,
{
    if j >= n || j < 0 {
        (b, true, taken)
    } else {
        let (r, c) = pos_at(positions, j);
        if !in_range(r, c) {
            (b, false, taken)
        } else {
            match b.cell(r, c) {
                None => (b, false, taken),
                Some(g) => {
                    let nb = b.with_cell(r, c, None);
                    if g == GemType::Gold {
                        (nb, false, taken)
                    } else {
                        take_run(nb, positions, n, j + 1, taken.push(g))
                    }
                },
            }
        }
    }
}

/// Taking a line of one to three adjacent non-gold tokens succeeds.
pub proof fn lemma_valid_line_take_run(
    b: Board,
    count: int,
    positions: [(usize, usize); 3],
    d: int,
    r: int,
    c: int,
)
    requires
        b.line_valid(count, d, r, c),
        is_line_at(count, positions, d, r, c),
    ensures
        take_run(b, positions, count, 0, Seq::empty()).1,
{
    reveal_with_fuel(take_run, 4);
    let (r0, c0) = pos_at(positions, 0);
    let b1 = b.with_cell(r0, c0, None);
    let g0 = b.cell(r0, c0).unwrap();
    if count >= 2 {
        let (r1, c1) = pos_at(positions, 1);
        assert(b1.cell(r1, c1) == b.cell(r1, c1));
        let b2 = b1.with_cell(r1, c1, None);
        let g1 = b.cell(r1, c1).unwrap();
        if count >= 3 {
            let (r2, c2) = pos_at(positions, 2);
            assert(b2.cell(r2, c2) == b.cell(r2, c2));
            let g2 = b.cell(r2, c2).unwrap();
            assert(take_run(b2.with_cell(r2, c2, None), positions, count, 3, seq![g0, g1, g2]).1);
            assert(take_run(b2, positions, count, 2, seq![g0, g1]).1);
        } else {
            assert(take_run(b2, positions, count, 2, seq![g0, g1]).1);
        }
        assert(take_run(b1, positions, count, 1, seq![g0]).1);
    } else {
        assert(take_run(b1, positions, count, 1, seq![g0]).1);
    }
    assert(Seq::<GemType>::empty().push(g0) == seq![g0]);
}

/// `tc` with one more token of each kind listed in `taken`.
pub open spec fn add_taken(tc: TokenCollection, taken: Seq<GemType>) -> TokenCollection
    decreases taken.len(),
{
    if taken.len() == 0 {
        tc
    } else {
        add_taken(tc.shifted(taken[0], 1), taken.drop_first())
    }
}

/// Taking these tokens gives the opponent a privilege: three of one colour, or two pearls.
pub open spec fn take_penalty(taken: Seq<GemType>) -> bool {
    (taken.len() == 3 && taken[0] == taken[1] && taken[1] == taken[2])
        || taken.to_multiset().count(GemType::Pearl) >= 2
}

/// The tokens of a payment in the order they return to the bag: kind by kind, white
/// first and gold last (`k` is the number of kinds covered).
pub open spec fn payment_seq(pay: TokenCollection, k: int) -> Seq<GemType>
    decreases k,
{
    if k <= 0 {
        Seq::empty()
    } else {
        payment_seq(pay, k - 1) + Seq::new(
            pay.counts@[k - 1] as nat,
            |i: int| GemType::spec_from_index(k - 1).unwrap(),
        )
    }
}

/// The default payment (see `compute_card_payment`) as a collection.
pub open spec fn default_payment(p: PlayerState, card: JewelCard) -> TokenCollection {
    TokenCollection {
        counts: [
            pay_exact(p, card, 0) as u8,
            pay_exact(p, card, 1) as u8,
            pay_exact(p, card, 2) as u8,
            pay_exact(p, card, 3) as u8,
            pay_exact(p, card, 4) as u8,
            pay_exact(p, card, 5) as u8,
            p.gold_needed(card) as u8,
        ],
    }
}

/// The card named by a purchase: the `slot`-th reserved card of the current player, or
/// the `slot`-th card of the market row of `tier`.
pub open spec fn purchase_target(s: GameState, from_reserved: bool, tier: CardTier, slot: usize) -> Option<JewelCard> {
    if from_reserved {
        if slot < s.players@[s.cp()].reserved_cards@.len() {
            Some(s.players@[s.cp()].reserved_cards@[slot as int].card)
        } else {
            None
        }
    } else if slot < s.row(tier.spec_index()).len() {
        Some(s.row(tier.spec_index())[slot as int])
    } else {
        None
    }
}

/// Index of the first royal card with this id.
pub open spec fn royal_index(s: GameState, royal_id: u8) -> int {
    choose|i: int|
        0 <= i < s.royal_cards@.len() && s.royal_cards@[i].id == royal_id && forall|j: int|
            0 <= j < i ==> s.royal_cards@[j].id != royal_id
}

/// The market of level `ti` after the card in `slot` leaves it: the deck's top card takes
/// its place, or, with an empty deck, the slot disappears; other levels are unchanged.
pub open spec fn market_refilled(s: GameState, t: GameState, ti: int, slot: int) -> bool {
    &&& forall|u: int| 0 <= u < 3 && u != ti ==> #[trigger] t.row(u) == s.row(u) && t.deck(u) == s.deck(u)
    &&& if s.deck(ti).len() > 0 {
        t.row(ti) == s.row(ti).update(slot, s.deck(ti).last()) && t.deck(ti) == s.deck(ti).drop_last()
    } else {
        t.row(ti) == s.row(ti).remove(slot) && t.deck(ti) == s.deck(ti)
    }
}

/// `market_refilled` depends only on the decks and the market rows.
pub proof fn lemma_market_refilled_congruent(s: GameState, s2: GameState, t: GameState, t2: GameState, ti: int, slot: int)
    requires
        s.decks == s2.decks,
        s.pyramid == s2.pyramid,
        t.decks == t2.decks,
        t.pyramid == t2.pyramid,
        market_refilled(s, t, ti, slot),
    ensures
        market_refilled(s2, t2, ti, slot),
{
    assert forall|u: int| 0 <= u < 3 && u != ti implies #[trigger] t2.row(u) == s2.row(u) && t2.deck(u) == s2.deck(u) by {
        assert(t.row(u) == s.row(u));
    }
}

/// `t` has the decks and market rows of `s`.
pub open spec fn market_unchanged(s: GameState, t: GameState) -> bool {
    forall|u: int| 0 <= u < 3 ==> #[trigger] t.row(u) == s.row(u) && t.deck(u) == s.deck(u)
}

/// The state left by a refused action: unchanged, except that a refused line take keeps
/// the tokens it removed before it stopped.
pub open spec fn refused_state(s: GameState, a: Action) -> GameState {
    match a {
        Action::TakeTokens { count, positions } => if s.phase == TurnPhase::MandatoryAction && 1
            <= count <= 3 {
            GameState { board: take_run(s.board, positions, count as int, 0, Seq::empty()).0, ..s }
        } else {
            s
        },
        _ => s,
    }
}

/// The state `t` after the current player buys the card named by `from_reserved`,
/// `tier` and `slot`: the default payment goes back to the bag, the card leaves the
/// reserve or the market (which is refilled), and it comes into play (a joker waits for
/// its colour).
pub open spec fn purchase_post(s: GameState, from_reserved: bool, tier: CardTier, slot: usize, t: GameState) -> bool {
    let cp = s.cp();
    let p = s.players@[cp];
    let q = t.players@[cp];
    let card = purchase_target(s, from_reserved, tier, slot).unwrap();
    let pay = default_payment(p, card);
    let base = GameState { bag: t.bag, decks: t.decks, pyramid: t.pyramid, ..s };
    let p1 = PlayerState {
        tokens: p.tokens.minus(pay),
        reserved_cards: q.reserved_cards,
        cards: q.cards,
        ..p
    };
    &&& t.bag@ == s.bag@ + payment_seq(pay, 7)
    &&& if from_reserved {
        q.reserved_cards@ == p.reserved_cards@.remove(slot as int) && market_unchanged(s, t)
    } else {
        q.reserved_cards@ == p.reserved_cards@ && market_refilled(s, t, tier.spec_index(), slot as int)
    }
    &&& if card.color == CardColor::Joker {
        &&& t == GameState {
            phase: TurnPhase::CardAbilityJoker { pending_card: card },
            ..base.with_player(cp, p1)
        }
        &&& q.cards@ == p.cards@
    } else {
        &&& t == ability_state(base.with_player(cp, p1.played(card, None)), card.ability, card.color)
        &&& q.cards@ == p.cards@.push(card)
    }
}

/// The order the bag is drawn in when the board is replenished: the bag shuffled by a
/// generator seeded with the next step seed of the game (`splitmix` of the game seed and
/// the advanced step counter).
pub open spec fn replenish_order(s: GameState) -> Seq<GemType> {
    spec_seeded_gem_order(s.bag@, splitmix(s.rng_seed, vstd::wrapping::u64_specs::wrapping_add(s.rng_counter, 1)))
}

/// The state `t` after an accepted action `a` in state `s`.
pub open spec fn step_post(s: GameState, a: Action, t: GameState) -> bool {
    let cp = s.cp();
    let p = s.players@[cp];
    let q = t.players@[cp];
    match a {
        Action::SkipOptional => t == if s.phase == TurnPhase::OptionalActions {
            GameState { phase: TurnPhase::MandatoryAction, ..s }
        } else {
            after_check_state(s)
        },
        Action::UsePrivilege { r, c } => {
            let g = s.board.cell(r as int, c as int).unwrap();
            let m = s.after_return(cp);
            let pm = m.players@[cp];
            t == GameState {
                board: s.board.with_cell(r as int, c as int, None),
                privileges_used_this_turn: if s.privileges_used_this_turn == u8::MAX {
                    u8::MAX
                } else {
                    (s.privileges_used_this_turn + 1) as u8
                },
                ..m.with_player(cp, PlayerState { tokens: pm.tokens.shifted(g, 1), ..pm })
            }
        },
        Action::ReplenishBoard => {
            &&& replenish_order(s).to_multiset() == s.bag@.to_multiset()
            &&& (t.board.cells(), t.bag@) == spiral_fill(s.board.cells(), replenish_order(s), 0)
            &&& t == GameState {
                board: t.board,
                bag: t.bag,
                rng_counter: vstd::wrapping::u64_specs::wrapping_add(s.rng_counter, 1),
                replenished_this_turn: true,
                phase: TurnPhase::MandatoryAction,
                ..s.after_grant(s.op())
            }
        },
        Action::TakeTokens { count, positions } => {
            let (b, ok, taken) = take_run(s.board, positions, count as int, 0, Seq::empty());
            let m = GameState { board: b, ..s }.with_player(
                cp,
                PlayerState { tokens: add_taken(p.tokens, taken), ..p },
            );
            t == after_check_state(if take_penalty(taken) { m.after_grant(s.op()) } else { m })
        },
        Action::ReserveCard { tier, slot } => {
            let ti = tier.spec_index();
            let card = match slot {
                Some(sl) => s.row(ti)[sl as int],
                None => s.deck(ti).last(),
            };
            &&& t == GameState {
                decks: t.decks,
                pyramid: t.pyramid,
                phase: TurnPhase::SelectReserveGold,
                ..s.with_player(cp, PlayerState { reserved_cards: q.reserved_cards, ..p })
            }
            &&& q.reserved_cards@ == p.reserved_cards@.push(ReservedCard { card, is_public: slot is Some })
            &&& match slot {
                Some(sl) => market_refilled(s, t, ti, sl as int),
                None => {
                    &&& t.deck(ti) == s.deck(ti).drop_last()
                    &&& t.row(ti) == s.row(ti)
                    &&& forall|u: int| 0 <= u < 3 && u != ti ==> #[trigger] t.row(u) == s.row(u) && t.deck(u) == s.deck(u)
                },
            }
        },
        Action::TakeGoldToken { r, c } => t == after_check_state(
            GameState { board: s.board.with_cell(r as int, c as int, None), ..s }.with_player(
                cp,
                PlayerState { tokens: p.tokens.shifted(GemType::Gold, 1), ..p },
            ),
        ),
        Action::PurchaseCard { from_reserved, tier, slot } => purchase_post(s, from_reserved, tier, slot, t),
        Action::AssignJokerColor { color } => match s.phase {
            TurnPhase::CardAbilityJoker { pending_card } => {
                &&& t == ability_state(
                    s.with_player(cp, PlayerState { cards: q.cards, ..p.played(pending_card, Some(color)) }),
                    pending_card.ability,
                    CardColor::spec_from_gem_type(color).unwrap(),
                )
                &&& q.cards@ == p.cards@.push(pending_card)
            },
            _ => false,
        },
        Action::TakeSameColorToken { r, c } => {
            let g = s.board.cell(r as int, c as int).unwrap();
            t == after_check_state(
                GameState { board: s.board.with_cell(r as int, c as int, None), ..s }.with_player(
                    cp,
                    PlayerState { tokens: p.tokens.shifted(g, 1), ..p },
                ),
            )
        },
        Action::StealToken { gem } => {
            let o = s.players@[s.op()];
            t == after_check_state(
                s.with_player(s.op(), PlayerState { tokens: o.tokens.shifted(gem, -1), ..o }).with_player(
                    cp,
                    PlayerState { tokens: p.tokens.shifted(gem, 1), ..p },
                ),
            )
        },
        Action::SelectRoyal { royal_id } => {
            let idx = royal_index(s, royal_id);
            let royal = s.royal_cards@[idx];
            let ms = p.spec_pending_milestones();
            let p1 = if ms.len() > 0 { p.marked(ms[0]) } else { p };
            let p2 = PlayerState {
                royal_cards: q.royal_cards,
                total_points: (p1.total_points + royal.points) as u8,
                ..p1
            };
            &&& t == royal_ability_state(
                GameState { royal_cards: t.royal_cards, ..s }.with_player(cp, p2),
                royal.ability,
            )
            &&& t.royal_cards@ == s.royal_cards@.remove(idx)
            &&& q.royal_cards@ == p.royal_cards@.push(royal)
        },
        Action::DiscardToken { gem } => {
            let m = GameState { bag: t.bag, ..s }.with_player(
                cp,
                PlayerState { tokens: p.tokens.shifted(gem, -1), ..p },
            );
            &&& t.bag@ == s.bag@.push(gem)
            &&& t == if m.players@[cp].tokens.sum() > 10 { m } else { finish_turn_state(m) }
        },
    }
}

impl GameState {
    /// Room for the end of an action: the current player's token total, changed by `n`,
    /// fits in `u8` (the engine sums it in one), and the turn counter can advance.
    pub open spec fn end_room(&self, n: int) -> bool {
        &&& self.players@[self.cp()].tokens.sum() + n <= u8::MAX
        &&& self.turn_number < u32::MAX
    }

    /// No arithmetic of the step overflows, no index is out of bounds and no list outgrows
    /// its capacity (each of these would panic): the lists are within capacity
    /// and the player to move is 0 or 1; then, for an action that gets that far, the
    /// tokens gained and the token total fit in `u8` and the turn counter can advance; the
    /// pool can take back a privilege; the gold a purchase needs, the payment returned to
    /// the bag, and a card or royal card added to the cached totals fit; a discard fits in
    /// the bag; a joker's colour is a basic colour.
    pub open spec fn step_safe(&self, a: Action) -> bool {
        let p = self.players@[self.cp()];
        &&& self.lists_fit()
        &&& self.current_player < 2
        &&& match a {
            Action::SkipOptional => self.phase == TurnPhase::MandatoryAction ==> self.end_room(0),
            Action::UsePrivilege { r, c } => self.step_ok(a) ==> {
                &&& self.privilege_pool < u8::MAX
                &&& p.tokens.count(self.board.cell(r as int, c as int).unwrap()) < u8::MAX
            },
            Action::ReplenishBoard => true,
            Action::TakeTokens { count, positions } => self.step_ok(a) ==> self.end_room(count as int),
            Action::ReserveCard { .. } => true,
            Action::TakeGoldToken { .. } => self.step_ok(a) ==> self.end_room(1),
            Action::PurchaseCard { from_reserved, tier, slot } => match purchase_target(
                *self,
                from_reserved,
                tier,
                slot,
            ) {
                Some(card) => (self.phase == TurnPhase::MandatoryAction && (card.color
                    == CardColor::Joker ==> p.spec_has_any_bonus())) ==> {
                    &&& p.gold_needed(card) <= u8::MAX
                    &&& p.spec_can_afford(card) ==> {
                        &&& self.bag@.len() + default_payment(p, card).sum() <= 25
                        &&& card.color != CardColor::Joker ==> {
                            &&& p.can_play(card, None)
                            &&& self.end_room(-default_payment(p, card).sum())
                        }
                    }
                },
                None => true,
            },
            Action::AssignJokerColor { color } => match self.phase {
                TurnPhase::CardAbilityJoker { pending_card } => {
                    &&& color.spec_is_basic()
                    &&& p.bonuses@[color.spec_index()] > 0 ==> {
                        &&& p.can_play(pending_card, Some(color))
                        &&& self.end_room(0)
                    }
                },
                _ => true,
            },
            Action::TakeSameColorToken { .. } => self.step_ok(a) ==> self.end_room(1),
            Action::StealToken { .. } => self.step_ok(a) ==> self.end_room(1),
            Action::SelectRoyal { royal_id } => self.step_ok(a) ==> {
                &&& p.total_points + self.royal_cards@[royal_index(*self, royal_id)].points <= u8::MAX
                &&& self.end_room(0)
            },
            Action::DiscardToken { .. } => self.step_ok(a) ==> {
                &&& self.bag@.len() < 25
                &&& self.end_room(-1)
            },
        }
    }

    /// The engine accepts action `a` in this state.
    pub open spec fn step_ok(&self, a: Action) -> bool {
        let p = self.players@[self.cp()];
        match a {
            Action::SkipOptional => self.phase == TurnPhase::OptionalActions || self.phase
                == TurnPhase::MandatoryAction,
            Action::UsePrivilege { r, c } => {
                &&& self.phase == TurnPhase::OptionalActions
                &&& p.privileges > 0
                &&& self.board.takeable(r as int, c as int)
            },
            // Refilling is allowed once a turn: a second refill in the same turn is refused.
            Action::ReplenishBoard => {
                &&& (self.phase == TurnPhase::OptionalActions || self.phase
                    == TurnPhase::MandatoryAction)
                &&& !self.replenished_this_turn
                &&& self.bag@.len() > 0
                &&& self.board.spec_has_empty_slot()
            },
            Action::TakeTokens { count, positions } => {
                &&& self.phase == TurnPhase::MandatoryAction
                &&& 1 <= count <= 3
                &&& take_run(self.board, positions, count as int, 0, Seq::empty()).1
            },
            Action::ReserveCard { tier, slot } => {
                &&& self.phase == TurnPhase::MandatoryAction
                &&& p.reserved_cards@.len() < 3
                &&& self.board.spec_has_gold()
                &&& match slot {
                    Some(s) => s < self.row(tier.spec_index()).len(),
                    None => self.deck(tier.spec_index()).len() > 0,
                }
            },
            Action::TakeGoldToken { r, c } => {
                &&& self.phase == TurnPhase::SelectReserveGold
                &&& in_range(r as int, c as int)
                &&& self.board.cell(r as int, c as int) == Some(GemType::Gold)
            },
            Action::PurchaseCard { from_reserved, tier, slot } => {
                &&& self.phase == TurnPhase::MandatoryAction
                &&& purchase_target(*self, from_reserved, tier, slot) matches Some(card)
                &&& (card.color == CardColor::Joker ==> p.spec_has_any_bonus())
                &&& p.spec_can_afford(card)
            },
            Action::AssignJokerColor { color } => {
                &&& self.phase is CardAbilityJoker
                &&& p.bonuses@[color.spec_index()] > 0
            },
            Action::TakeSameColorToken { r, c } => match self.phase {
                TurnPhase::CardAbilitySameColor { color } => in_range(r as int, c as int)
                    && self.board.cell(r as int, c as int) == Some(color),
                _ => false,
            },
            Action::StealToken { gem } => {
                &&& self.phase == TurnPhase::CardAbilitySteal
                &&& gem != GemType::Gold
                &&& self.players@[self.op()].tokens.count(gem) >= 1
            },
            Action::SelectRoyal { royal_id } => {
                &&& self.phase == TurnPhase::SelectRoyalCard
                &&& exists|i: int|
                    0 <= i < self.royal_cards@.len() && #[trigger] self.royal_cards@[i].id
                        == royal_id
            },
            Action::DiscardToken { gem } => {
                &&& self.phase == TurnPhase::DiscardTokens
                &&& p.tokens.count(gem) >= 1
            },
        }
    }
}


/// The rules engine that applies actions to a game state.
pub struct GameEngine;

impl GameEngine {
    /// Applies `action`, advancing the phase machine; refuses (with a message) an action
    /// the current phase or the state does not allow.
    pub fn step(state: &mut GameState, action: &Action) -> (r: Result<(), String>)
        requires
            old(state).step_safe(*action),
        ensures
            r is Ok <==> old(state).step_ok(*action),
            r is Ok ==> step_post(*old(state), *action, *final(state)),
            r is Err ==> *final(state) == refused_state(*old(state), *action),
    {
        match *action {
            Action::SkipOptional => Self::step_skip_optional(state),
            Action::UsePrivilege { r, c } => Self::step_use_privilege(state, r, c),
            Action::ReplenishBoard => Self::step_replenish_board(state),
            Action::TakeTokens { count, positions } => Self::step_take_tokens(state, count, positions),
            Action::ReserveCard { tier, slot } => Self::step_reserve_card(state, tier, slot),
            Action::TakeGoldToken { r, c } => Self::step_take_gold_token(state, r, c),
            Action::PurchaseCard { from_reserved, tier, slot } => Self::step_purchase_card(
                state,
                from_reserved,
                tier,
                slot,
            ),
            Action::AssignJokerColor { color } => Self::step_assign_joker(state, color),
            Action::TakeSameColorToken { r, c } => Self::step_take_same_color(state, r, c),
            Action::StealToken { gem } => Self::step_steal_token(state, gem),
            Action::SelectRoyal { royal_id } => Self::step_select_royal(state, royal_id),
            Action::DiscardToken { gem } => Self::step_discard_token(state, gem),
        }
    }

    fn finish_turn(state: &mut GameState)
        requires
            old(state).current_player < 2,
            old(state).turn_number < u32::MAX,
        ensures
            *final(state) == finish_turn_state(*old(state)),
    {
        let cp = state.current_player;
        if let Some(reason) = check_victory(&state.players[cp]) {
            state.winner = Some((cp, reason));
            state.phase = TurnPhase::GameOver(reason);
            return;
        }
        if state.extra_turn_granted {
            state.extra_turn_granted = false;
        } else {
            state.current_player = 1 - state.current_player;
        }
        state.replenished_this_turn = false;
        state.privileges_used_this_turn = 0;
        state.turn_number = state.turn_number + 1;
        state.phase = TurnPhase::OptionalActions;
    }

    fn after_ability_check(state: &mut GameState)
        requires
            old(state).current_player < 2,
            old(state).turn_number < u32::MAX,
            old(state).players@[old(state).cp()].tokens.sum() <= u8::MAX,
        ensures
            *final(state) == after_check_state(*old(state)),
    {
        let cp = state.current_player;
        let milestones = state.players[cp].pending_royal_milestones();
        if milestones.len() > 0 && !state.royal_cards.is_empty() {
            state.phase = TurnPhase::SelectRoyalCard;
            return;
        }
        if state.players[cp].tokens.total() > 10 {
            state.phase = TurnPhase::DiscardTokens;
            return;
        }
        Self::finish_turn(state);
    }

    fn has_stealable(state: &GameState) -> (r: bool)
        requires
            state.current_player < 2,
        ensures
            r == opp_has_stealable(*state),
    {
        let opponent = state.opponent_idx();
        let mut i: usize = 0;
        while i < 6
            invariant
                0 <= i <= 6,
                opponent == state.op(),
                forall|j: int| 0 <= j < i ==> state.players@[opponent as int].tokens.counts@[j] == 0,
            decreases 6 - i,
        {
            if state.players[opponent].tokens.counts[i] > 0 {
                return true;
            }
            i = i + 1;
        }
        false
    }

    fn handle_card_ability(state: &mut GameState, ability: Option<CardAbility>, card_color: CardColor)
        requires
            old(state).current_player < 2,
            old(state).turn_number < u32::MAX,
            old(state).players@[old(state).cp()].tokens.sum() <= u8::MAX,
        ensures
            *final(state) == ability_state(*old(state), ability, card_color),
    {
        let current_player = state.current_player;
        match ability {
            Some(CardAbility::ExtraTurn) => {
                state.extra_turn_granted = true;
                Self::after_ability_check(state);
            },
            Some(CardAbility::TakePrivilege) => {
                state.grant_privilege_to(current_player);
                Self::after_ability_check(state);
            },
            Some(CardAbility::TakeSameColor) => {
                if let Some(target_color) = card_color.to_gem_type() {
                    if state.board.contains_gem(target_color) {
                        state.phase = TurnPhase::CardAbilitySameColor { color: target_color };
                    } else {
                        Self::after_ability_check(state);
                    }
                } else {
                    Self::after_ability_check(state);
                }
            },
            Some(CardAbility::StealToken) => {
                if Self::has_stealable(state) {
                    state.phase = TurnPhase::CardAbilitySteal;
                } else {
                    Self::after_ability_check(state);
                }
            },
            Some(CardAbility::ColorCopyAndExtraTurn) => {
                state.extra_turn_granted = true;
                Self::after_ability_check(state);
            },
            Some(CardAbility::ColorCopy) | None => {
                Self::after_ability_check(state);
            },
        }
    }
}

impl GameEngine {
    fn step_skip_optional(state: &mut GameState) -> (r: Result<(), String>)
        requires
            old(state).step_safe(Action::SkipOptional),
        ensures
            r is Ok <==> old(state).step_ok(Action::SkipOptional),
            r is Ok ==> step_post(*old(state), Action::SkipOptional, *final(state)),
            r is Err ==> *final(state) == *old(state),
    {
        if matches!(state.phase, TurnPhase::OptionalActions) {
            state.phase = TurnPhase::MandatoryAction;
            Ok(())
        } else if matches!(state.phase, TurnPhase::MandatoryAction) {
            proof {
                state.players@[state.cp()].tokens.lemma_count_le_sum(GemType::White);
            }
            Self::after_ability_check(state);
            Ok(())
        } else {
            Err("Not in OptionalActions or MandatoryAction phase".to_string())
        }
    }

    fn step_use_privilege(state: &mut GameState, r: usize, c: usize) -> (res: Result<(), String>)
        requires
            old(state).step_safe(Action::UsePrivilege { r, c }),
        ensures
            res is Ok <==> old(state).step_ok(Action::UsePrivilege { r, c }),
            res is Ok ==> step_post(*old(state), Action::UsePrivilege { r, c }, *final(state)),
            res is Err ==> *final(state) == *old(state),
    {
        if !matches!(state.phase, TurnPhase::OptionalActions) {
            return Err("Not in OptionalActions phase".to_string());
        }
        let current_player = state.current_player;
        if state.players[current_player].privileges == 0 {
            return Err("No privilege scrolls available to use".to_string());
        }
        let gem = match state.board.get(r, c) {
            Some(g) => g,
            None => return Err("No token at position".to_string()),
        };
        if gem.is_gold() {
            return Err("Cannot take gold with privilege".to_string());
        }
        let ghost s0 = *state;
        state.return_privilege_from(current_player);
        let ghost m = *state;
        state.board.take(r, c);
        proof {
            m.players@[current_player as int].tokens.lemma_count_le_sum(gem);
        }
        state.players[current_player].tokens.add(gem, 1);
        state.privileges_used_this_turn = state.privileges_used_this_turn.saturating_add(1);
        proof {
            let pm = m.players@[current_player as int];
            assert(state.players =~= m.with_player(
                current_player as int,
                PlayerState { tokens: pm.tokens.shifted(gem, 1), ..pm },
            ).players);
        }
        Ok(())
    }

    fn step_replenish_board(state: &mut GameState) -> (res: Result<(), String>)
        requires
            old(state).step_safe(Action::ReplenishBoard),
        ensures
            res is Ok <==> old(state).step_ok(Action::ReplenishBoard),
            res is Ok ==> step_post(*old(state), Action::ReplenishBoard, *final(state)),
            res is Err ==> *final(state) == *old(state),
    {
        if !matches!(state.phase, TurnPhase::OptionalActions) && !matches!(
            state.phase,
            TurnPhase::MandatoryAction,
        ) {
            return Err("Cannot replenish board in current phase".to_string());
        }
        if state.replenished_this_turn {
            return Err("Board already replenished this turn".to_string());
        }
        if state.bag.is_empty() || !state.board.has_empty_slot() {
            return Err("Cannot replenish board: bag empty or board full".to_string());
        }
        let step_seed = state.next_rng_seed();
        state.bag.shuffle_seeded(step_seed);
        let ghost sh = state.bag@;
        state.board.fill_spiral(&mut state.bag);
        let ghost filled = *state;
        let opponent = state.opponent_idx();
        state.grant_privilege_to(opponent);
        state.replenished_this_turn = true;
        if matches!(state.phase, TurnPhase::OptionalActions) {
            state.phase = TurnPhase::MandatoryAction;
        }
        proof {
            assert(sh.to_multiset() == old(state).bag@.to_multiset());
        }
        Ok(())
    }

    fn step_take_gold_token(state: &mut GameState, r: usize, c: usize) -> (res: Result<(), String>)
        requires
            old(state).step_safe(Action::TakeGoldToken { r, c }),
        ensures
            res is Ok <==> old(state).step_ok(Action::TakeGoldToken { r, c }),
            res is Ok ==> step_post(*old(state), Action::TakeGoldToken { r, c }, *final(state)),
            res is Err ==> *final(state) == *old(state),
    {
        if !matches!(state.phase, TurnPhase::SelectReserveGold) {
            return Err("Not in SelectReserveGold phase".to_string());
        }
        let gem = match state.board.get(r, c) {
            Some(g) => g,
            None => return Err("No token at position".to_string()),
        };
        if !gem.is_gold() {
            return Err("Selected token is not gold".to_string());
        }
        let current_player = state.current_player;
        let ghost s0 = *state;
        state.board.take(r, c);
        proof {
            s0.players@[current_player as int].tokens.lemma_count_le_sum(GemType::Gold);
            s0.players@[current_player as int].tokens.lemma_shifted_sum(GemType::Gold, 1);
        }
        state.players[current_player].tokens.add(GemType::Gold, 1);
        proof {
            let p = s0.players@[current_player as int];
            assert(state.players =~= GameState {
                board: s0.board.with_cell(r as int, c as int, None),
                ..s0
            }.with_player(current_player as int, PlayerState { tokens: p.tokens.shifted(GemType::Gold, 1), ..p }).players);
        }
        Self::after_ability_check(state);
        Ok(())
    }

    fn step_take_same_color(state: &mut GameState, r: usize, c: usize) -> (res: Result<(), String>)
        requires
            old(state).step_safe(Action::TakeSameColorToken { r, c }),
        ensures
            res is Ok <==> old(state).step_ok(Action::TakeSameColorToken { r, c }),
            res is Ok ==> step_post(*old(state), Action::TakeSameColorToken { r, c }, *final(state)),
            res is Err ==> *final(state) == *old(state),
    {
        let target_color = match state.phase {
            TurnPhase::CardAbilitySameColor { color } => color,
            _ => return Err("Not in CardAbilitySameColor phase".to_string()),
        };
        let gem = match state.board.get(r, c) {
            Some(g) => g,
            None => return Err("No token at position".to_string()),
        };
        if gem != target_color {
            return Err("Token does not match required color".to_string());
        }
        let ghost s0 = *state;
        state.board.take(r, c);
        let current_player = state.current_player;
        proof {
            s0.players@[current_player as int].tokens.lemma_count_le_sum(gem);
            s0.players@[current_player as int].tokens.lemma_shifted_sum(gem, 1);
        }
        state.players[current_player].tokens.add(gem, 1);
        proof {
            let p = s0.players@[current_player as int];
            assert(state.players =~= GameState {
                board: s0.board.with_cell(r as int, c as int, None),
                ..s0
            }.with_player(current_player as int, PlayerState { tokens: p.tokens.shifted(gem, 1), ..p }).players);
        }
        Self::after_ability_check(state);
        Ok(())
    }

    fn step_steal_token(state: &mut GameState, gem: GemType) -> (res: Result<(), String>)
        requires
            old(state).step_safe(Action::StealToken { gem }),
        ensures
            res is Ok <==> old(state).step_ok(Action::StealToken { gem }),
            res is Ok ==> step_post(*old(state), Action::StealToken { gem }, *final(state)),
            res is Err ==> *final(state) == *old(state),
    {
        if !matches!(state.phase, TurnPhase::CardAbilitySteal) {
            return Err("Not in CardAbilitySteal phase".to_string());
        }
        if gem.is_gold() {
            return Err("Cannot steal gold".to_string());
        }
        let opponent = state.opponent_idx();
        let current_player = state.current_player;
        let ghost s0 = *state;
        match state.players[opponent].tokens.remove(gem, 1) {
            Ok(()) => {},
            Err(()) => {
                proof {
                    assert(state.players =~= s0.players);
                }
                return Err("Opponent does not have this token".to_string());
            },
        }
        let ghost s1 = *state;
        proof {
            s0.players@[current_player as int].tokens.lemma_count_le_sum(gem);
            s0.players@[current_player as int].tokens.lemma_shifted_sum(gem, 1);
            let o = s0.players@[opponent as int];
            assert(s1.players =~= s0.with_player(opponent as int, PlayerState { tokens: o.tokens.shifted(gem, -1), ..o }).players);
        }
        state.players[current_player].tokens.add(gem, 1);
        proof {
            let p = s0.players@[current_player as int];
            assert(state.players =~= s1.with_player(current_player as int, PlayerState { tokens: p.tokens.shifted(gem, 1), ..p }).players);
        }
        Self::after_ability_check(state);
        Ok(())
    }

    fn step_discard_token(state: &mut GameState, gem: GemType) -> (res: Result<(), String>)
        requires
            old(state).step_safe(Action::DiscardToken { gem }),
        ensures
            res is Ok <==> old(state).step_ok(Action::DiscardToken { gem }),
            res is Ok ==> step_post(*old(state), Action::DiscardToken { gem }, *final(state)),
            res is Err ==> *final(state) == *old(state),
    {
        if !matches!(state.phase, TurnPhase::DiscardTokens) {
            return Err("Not in DiscardTokens phase".to_string());
        }
        let current_player = state.current_player;
        let ghost s0 = *state;
        match state.players[current_player].tokens.remove(gem, 1) {
            Ok(()) => {},
            Err(()) => {
                proof {
                    assert(state.players =~= s0.players);
                }
                return Err("Player does not have this token".to_string());
            },
        }
        state.bag.push(gem);
        proof {
            let p = s0.players@[current_player as int];
            p.tokens.lemma_shifted_sum(gem, -1);
            assert(state.players =~= GameState { bag: state.bag, ..s0 }.with_player(
                current_player as int,
                PlayerState { tokens: p.tokens.shifted(gem, -1), ..p },
            ).players);
        }
        if state.players[current_player].tokens.total() > 10 {
            state.phase = TurnPhase::DiscardTokens;
        } else {
            Self::finish_turn(state);
        }
        Ok(())
    }
}

impl GameEngine {
    fn step_take_tokens(state: &mut GameState, count: u8, positions: [(usize, usize); 3]) -> (res:
        Result<(), String>)
        requires
            old(state).step_safe(Action::TakeTokens { count, positions }),
        ensures
            res is Ok <==> old(state).step_ok(Action::TakeTokens { count, positions }),
            res is Ok ==> step_post(*old(state), Action::TakeTokens { count, positions }, *final(state)),
            res is Err ==> *final(state) == refused_state(*old(state), Action::TakeTokens { count, positions }),
    {
        if !matches!(state.phase, TurnPhase::MandatoryAction) {
            return Err("Not in MandatoryAction phase".to_string());
        }
        if count == 0 || count > 3 {
            return Err("Invalid token count".to_string());
        }
        let ghost s0 = *state;
        let ghost run = take_run(s0.board, positions, count as int, 0, Seq::empty());
        let mut taken: Vec<GemType> = Vec::new();
        let mut i: usize = 0;
        while i < count as usize
            invariant
                1 <= count <= 3,
                0 <= i <= count,
                taken@.len() == i,
                s0 == *old(state),
                s0.phase == TurnPhase::MandatoryAction,
                run == take_run(s0.board, positions, count as int, 0, Seq::empty()),
                *state == (GameState { board: state.board, ..s0 }),
                take_run(state.board, positions, count as int, i as int, taken@) == run,
                forall|j: int| 0 <= j < i ==> #[trigger] taken@[j] != GemType::Gold,
            decreases count - i,
        {
            let (r, c) = positions[i];
            let ghost b = state.board;
            assert(pos_at(positions, i as int) == (r as int, c as int));
            let gem = match state.board.take(r, c) {
                Some(g) => g,
                None => {
                    proof {
                        if in_range(r as int, c as int) {
                            b.lemma_with_cell_same(r as int, c as int);
                            assert(b.cell(r as int, c as int) is None);
                        }
                        assert(take_run(b, positions, count as int, i as int, taken@) == (b, false, taken@));
                        assert(state.board == b);
                        assert(!run.1);
                        assert(run.0 == b);
                        assert(*state == (GameState { board: b, ..s0 }));
                    }
                    return Err("No token at position".to_string());
                },
            };
            if gem.is_gold() {
                return Err("Cannot take gold via TakeTokens".to_string());
            }
            taken.push(gem);
            i = i + 1;
        }
        let current_player = state.current_player;
        let ghost p = s0.players@[current_player as int];
        proof {
            assert(take_run(state.board, positions, count as int, count as int, taken@) == (state.board, true, taken@));
            assert(run == (state.board, true, taken@));
            assert(taken@.skip(0) =~= taken@);
            assert(s0.players =~= s0.with_player(current_player as int, PlayerState { tokens: p.tokens, ..p }).players);
            assert(GameState { board: run.0, ..s0 }.with_player(current_player as int, PlayerState { tokens: p.tokens, ..p }).players
                =~= s0.players);
            assert(s0.step_ok(Action::TakeTokens { count, positions }));
        }
        let mut k: usize = 0;
        while k < taken.len()
            invariant
                0 <= k <= taken@.len(),
                taken@.len() == count,
                count <= 3,
                current_player == s0.current_player,
                current_player < 2,
                p.tokens.sum() + count <= u8::MAX,
                state.players@[current_player as int].tokens.sum() == p.tokens.sum() + k,
                add_taken(state.players@[current_player as int].tokens, taken@.skip(k as int)) == add_taken(p.tokens, taken@),
                *state == (GameState { board: run.0, ..s0 }).with_player(
                    current_player as int,
                    PlayerState { tokens: state.players@[current_player as int].tokens, ..p },
                ),
            decreases taken@.len() - k,
        {
            let gem = taken[k];
            let ghost before = state.players@[current_player as int].tokens;
            proof {
                before.lemma_count_le_sum(gem);
                before.lemma_shifted_sum(gem, 1);
                assert(taken@.skip(k as int).drop_first() =~= taken@.skip(k as int + 1));
                assert(taken@.skip(k as int)[0] == gem);
            }
            state.players[current_player].tokens.add(gem, 1);
            proof {
                assert(state.players =~= (GameState { board: run.0, ..s0 }).with_player(
                    current_player as int,
                    PlayerState { tokens: state.players@[current_player as int].tokens, ..p },
                ).players);
            }
            k = k + 1;
        }
        proof {
            assert(taken@.skip(taken@.len() as int) =~= Seq::<GemType>::empty());
        }
        let mut pearls: usize = 0;
        let mut j: usize = 0;
        while j < taken.len()
            invariant
                0 <= j <= taken@.len(),
                taken@.len() <= 3,
                pearls == taken@.subrange(0, j as int).to_multiset().count(GemType::Pearl),
                pearls <= j,
            decreases taken@.len() - j,
        {
            proof {
                assert(taken@.subrange(0, j as int + 1) =~= taken@.subrange(0, j as int).push(taken@[j as int]));
            }
            if taken[j] == GemType::Pearl {
                pearls = pearls + 1;
            }
            j = j + 1;
        }
        proof {
            assert(taken@.subrange(0, taken@.len() as int) =~= taken@);
        }
        let should_grant_privilege = if count == 3 && taken[0] == taken[1] && taken[1] == taken[2] {
            true
        } else {
            pearls >= 2
        };
        let ghost m = *state;
        if should_grant_privilege {
            let opponent = state.opponent_idx();
            state.grant_privilege_to(opponent);
        }
        Self::after_ability_check(state);
        Ok(())
    }
}

impl GameEngine {
    fn step_reserve_card(state: &mut GameState, tier: CardTier, slot: Option<usize>) -> (res: Result<(), String>)
        requires
            old(state).step_safe(Action::ReserveCard { tier, slot }),
        ensures
            res is Ok <==> old(state).step_ok(Action::ReserveCard { tier, slot }),
            res is Ok ==> step_post(*old(state), Action::ReserveCard { tier, slot }, *final(state)),
            res is Err ==> *final(state) == *old(state),
    {
        if !matches!(state.phase, TurnPhase::MandatoryAction) {
            return Err("Not in MandatoryAction phase".to_string());
        }
        let current_player = state.current_player;
        if state.players[current_player].reserved_cards.len() >= 3 {
            return Err("Reserve limit reached (max 3)".to_string());
        }
        if !state.board.has_gold() {
            return Err("Cannot reserve card: no gold token available on board".to_string());
        }
        let ghost s0 = *state;
        let t = tier.index();
        proof {
            assert(s0.pyramid@[t as int].wf());
        }
        let (card, is_public) = match slot {
            Some(s) => {
                if s >= state.pyramid[t].len() {
                    return Err("Invalid pyramid slot".to_string());
                }
                let c = state.pyramid[t].remove(s);
                if let Some(rep) = state.decks[t].pop() {
                    state.pyramid[t].insert(s, rep);
                    proof {
                        assert(state.row(t as int) =~= s0.row(t as int).update(s as int, s0.deck(t as int).last()));
                    }
                }
                (c, true)
            },
            None => {
                if state.decks[t].is_empty() {
                    return Err("Deck is empty for blind reserve".to_string());
                }
                let c = state.decks[t].pop().unwrap();
                (c, false)
            },
        };
        let ghost s1 = *state;
        state.players[current_player].reserved_cards.push(ReservedCard::new(card, is_public));
        state.phase = TurnPhase::SelectReserveGold;
        proof {
            let p = s0.players@[current_player as int];
            let q = state.players@[current_player as int];
            assert(state.players =~= s0.with_player(
                current_player as int,
                PlayerState { reserved_cards: q.reserved_cards, ..p },
            ).players);
            assert forall|u: int| 0 <= u < 3 && u != t implies #[trigger] state.row(u) == s0.row(u)
                && state.deck(u) == s0.deck(u) by {
            }
        }
        Ok(())
    }
}

/// A successful run moves tokens from the board to the taken list: together they hold
/// what they held before, and each position of the run adds one token.
pub proof fn lemma_take_run_tokens(b: Board, positions: [(usize, usize); 3], n: int, j: int, taken: Seq<GemType>)
    requires
        take_run(b, positions, n, j, taken).1,
        0 <= j,
    ensures
        take_run(b, positions, n, j, taken).0.tokens().add(take_run(b, positions, n, j, taken).2.to_multiset())
            == b.tokens().add(taken.to_multiset()),
        take_run(b, positions, n, j, taken).2.len() == taken.len() + if n > j { n - j } else { 0 },
    decreases n - j,
{
    if j < n {
        let (r, c) = pos_at(positions, j);
        let g = b.cell(r, c).unwrap();
        let nb = b.with_cell(r, c, None);
        lemma_take_run_tokens(nb, positions, n, j + 1, taken.push(g));
        b.lemma_take_cell_tokens(r, c, g);
        assert(taken.push(g).to_multiset() =~= taken.to_multiset().insert(g));
        assert(nb.tokens().add(taken.to_multiset().insert(g)) =~= nb.tokens().insert(g).add(taken.to_multiset()));
    }
}

/// Adding the taken tokens to a collection adds them kind by kind, when the total stays
/// within `u8`.
pub proof fn lemma_add_taken(tc: TokenCollection, taken: Seq<GemType>)
    requires
        tc.sum() + taken.len() <= u8::MAX,
    ensures
        forall|g: GemType| #[trigger] add_taken(tc, taken).count(g) == tc.count(g) + taken.to_multiset().count(g),
        add_taken(tc, taken).sum() == tc.sum() + taken.len(),
    decreases taken.len(),
{
    if taken.len() > 0 {
        let x = taken[0];
        tc.lemma_count_le_sum(x);
        tc.lemma_shifted_sum(x, 1);
        let tc1 = tc.shifted(x, 1);
        lemma_add_taken(tc1, taken.drop_first());
        assert(taken =~= seq![x] + taken.drop_first());
        vstd::seq_lib::lemma_multiset_commutative(seq![x], taken.drop_first());
        assert(seq![x] =~= Seq::<GemType>::empty().push(x));
        assert forall|g: GemType| #[trigger] tc1.count(g) == tc.count(g) + if g == x { 1int } else { 0int } by {
            crate::model::token::lemma_gem_index_roundtrip(g);
            crate::model::token::lemma_gem_index_roundtrip(x);
            if g != x {
                assert(g.spec_index() != x.spec_index());
            }
        }
    } else {
        assert(taken.to_multiset() =~= Multiset::empty());
    }
}

/// A sequence made only of `x` holds its length of `x` and nothing else.
proof fn lemma_repeat_multiset(x: GemType, s: Seq<GemType>)
    requires
        forall|i: int| 0 <= i < s.len() ==> s[i] == x,
    ensures
        forall|g: GemType| #[trigger] s.to_multiset().count(g) == if g == x { s.len() as int } else { 0int },
    decreases s.len(),
{
    if s.len() > 0 {
        lemma_repeat_multiset(x, s.drop_last());
        assert(s =~= s.drop_last().push(x));
    } else {
        assert(s.to_multiset() =~= Multiset::empty());
    }
}

/// The payment sequence of the first `k` kinds holds, of each of those kinds, what the
/// payment counts.
pub proof fn lemma_payment_seq_counts(pay: TokenCollection, k: int)
    requires
        0 <= k <= 7,
    ensures
        forall|g: GemType| #[trigger] payment_seq(pay, k).to_multiset().count(g) == if g.spec_index() < k {
            pay.count(g)
        } else {
            0
        },
    decreases k,
{
    if k > 0 {
        lemma_payment_seq_counts(pay, k - 1);
        let x = GemType::spec_from_index(k - 1).unwrap();
        lemma_repeat_multiset(x, Seq::new(pay.counts@[k - 1] as nat, |i: int| x));
        vstd::seq_lib::lemma_multiset_commutative(payment_seq(pay, k - 1), Seq::new(pay.counts@[k - 1] as nat, |i: int| x));
        assert(Seq::new(pay.counts@[k - 1] as nat, |i: int| GemType::spec_from_index(k - 1).unwrap()) =~= Seq::new(pay.counts@[k - 1] as nat, |i: int| x));
        assert forall|g: GemType| #[trigger] payment_seq(pay, k).to_multiset().count(g) == if g.spec_index() < k {
            pay.count(g)
        } else {
            0
        } by {
            crate::model::token::lemma_gem_index_roundtrip(g);
            if g == x {
                assert(g.spec_index() == k - 1);
            } else {
                assert(g.spec_index() != k - 1);
            }
        }
    } else {
        assert(payment_seq(pay, k).to_multiset() =~= Multiset::empty());
    }
}

/// The payment sequence covers as many tokens as the first `k` counts.
pub proof fn lemma_payment_seq_len(pay: TokenCollection, k: int)
    requires
        0 <= k <= 7,
    ensures
        payment_seq(pay, k).len() == crate::model::token::sum_prefix(pay.counts@, k),
    decreases k,
{
    if k > 0 {
        lemma_payment_seq_len(pay, k - 1);
    }
}

/// Returns the tokens of a payment to the bag, kind by kind (white first, gold last).
fn return_payment_to_bag(bag: &mut StackVec<GemType, MAX_BAG_CAPACITY>, payment: &TokenCollection)
    requires
        old(bag)@.len() + payment.sum() <= MAX_BAG_CAPACITY,
    ensures
        final(bag)@ == old(bag)@ + payment_seq(*payment, 7),
{
    let mut k: usize = 0;
    while k < 7
        invariant
            0 <= k <= 7,
            old(bag)@.len() + payment.sum() <= MAX_BAG_CAPACITY,
            bag@ == old(bag)@ + payment_seq(*payment, k as int),
        decreases 7 - k,
    {
        let gem = GemType::from_index(k).unwrap();
        let cnt = payment.get(gem);
        proof {
            lemma_payment_seq_len(*payment, k as int);
            crate::model::token::lemma_sum_prefix_monotone(payment.counts@, k as int + 1, 7);
        }
        let mut j: u8 = 0;
        while j < cnt
            invariant
                0 <= j <= cnt,
                0 <= k < 7,
                cnt == payment.counts@[k as int],
                gem == GemType::spec_from_index(k as int).unwrap(),
                payment_seq(*payment, k as int).len() + cnt <= payment.sum(),
                old(bag)@.len() + payment.sum() <= MAX_BAG_CAPACITY,
                bag@ == old(bag)@ + payment_seq(*payment, k as int) + Seq::new(j as nat, |i: int| gem),
            decreases cnt - j,
        {
            bag.push(gem);
            proof {
                assert(Seq::new(j as nat, |i: int| gem).push(gem) =~= Seq::new(
                    (j + 1) as nat,
                    |i: int| gem,
                ));
            }
            j = j + 1;
        }
        proof {
            assert(old(bag)@ + payment_seq(*payment, k as int) + Seq::new(cnt as nat, |i: int| gem)
                =~= old(bag)@ + payment_seq(*payment, k as int + 1));
        }
        k = k + 1;
    }
}

impl GameEngine {
    /// The card a purchase names, if the slot exists.
    fn purchase_card_target(state: &GameState, from_reserved: bool, tier: CardTier, slot: usize) -> (r:
        Option<JewelCard>)
        requires
            state.current_player < 2,
            state.lists_fit(),
        ensures
            r == purchase_target(*state, from_reserved, tier, slot),
    {
        let current_player = state.current_player;
        if from_reserved {
            if slot >= state.players[current_player].reserved_cards.len() {
                return None;
            }
            Some(state.players[current_player].reserved_cards[slot].card)
        } else {
            let tier_idx = tier.index();
            if slot >= state.pyramid[tier_idx].len() {
                return None;
            }
            Some(state.pyramid[tier_idx].at(slot))
        }
    }

    /// Removes the bought card from the reserve, or from the market (which is refilled).
    fn take_bought_card(state: &mut GameState, from_reserved: bool, tier: CardTier, slot: usize)
        requires
            old(state).current_player < 2,
            purchase_target(*old(state), from_reserved, tier, slot) is Some,
        ensures
            from_reserved ==> {
                &&& final(state).players@[old(state).cp()].reserved_cards@ == old(
                    state,
                ).players@[old(state).cp()].reserved_cards@.remove(slot as int)
                &&& *final(state) == old(state).with_player(
                    old(state).cp(),
                    PlayerState {
                        reserved_cards: final(state).players@[old(state).cp()].reserved_cards,
                        ..old(state).players@[old(state).cp()]
                    },
                )
            },
            !from_reserved ==> {
                &&& old(state).same_but_market(*final(state))
                &&& market_refilled(*old(state), *final(state), tier.spec_index(), slot as int)
            },
    {
        let current_player = state.current_player;
        if from_reserved {
            state.players[current_player].reserved_cards.remove(slot);
            proof {
                let p = old(state).players@[current_player as int];
                assert(state.players =~= old(state).with_player(
                    current_player as int,
                    PlayerState {
                        reserved_cards: state.players@[current_player as int].reserved_cards,
                        ..p
                    },
                ).players);
            }
        } else {
            state.replenish_pyramid_slot(tier, slot);
        }
    }

    /// Takes the bought card from where it was and puts it into play (a joker waits for
    /// its colour); `s0` is the state before the purchase, `payment` what was paid.
    fn complete_purchase(
        state: &mut GameState,
        from_reserved: bool,
        tier: CardTier,
        slot: usize,
        card: JewelCard,
        Ghost(s0): Ghost<GameState>,
        Ghost(payment): Ghost<TokenCollection>,
    )
        requires
            s0.lists_fit(),
            s0.current_player < 2,
            purchase_target(s0, from_reserved, tier, slot) == Some(card),
            card.color != CardColor::Joker ==> s0.players@[s0.cp()].can_play(card, None)
                && s0.end_room(-payment.sum()),
            payment == default_payment(s0.players@[s0.cp()], card),
            forall|i: int| 0 <= i < 7 ==> payment.counts@[i] <= s0.players@[s0.cp()].tokens.counts@[i],
            old(state).bag@ == s0.bag@ + payment_seq(payment, 7),
            *old(state) == (GameState { bag: old(state).bag, ..s0 }).with_player(
                s0.cp(),
                PlayerState { tokens: s0.players@[s0.cp()].tokens.minus(payment), ..s0.players@[s0.cp()] },
            ),
        ensures
            purchase_post(s0, from_reserved, tier, slot, *final(state)),
    {
        let current_player = state.current_player;
        let ghost p = s0.players@[current_player as int];
        proof {
            p.tokens.lemma_minus_sum(payment);
            payment.lemma_count_le_sum(GemType::White);
        }
        Self::take_bought_card(state, from_reserved, tier, slot);
        let ghost taken = *state;
        if card.color == CardColor::Joker {
            state.phase = TurnPhase::CardAbilityJoker { pending_card: card };
            proof {
                let q = state.players@[current_player as int];
                let base = GameState { bag: state.bag, decks: state.decks, pyramid: state.pyramid, ..s0 };
                let p1 = PlayerState {
                    tokens: p.tokens.minus(payment),
                    reserved_cards: q.reserved_cards,
                    cards: q.cards,
                    ..p
                };
                assert(state.players =~= base.with_player(current_player as int, p1).players);
                if !from_reserved {
                    lemma_market_refilled_congruent(*old(state), s0, taken, *state, tier.spec_index(), slot as int);
                }
            }
        } else {
            state.players[current_player].play_card(card, None);
            proof {
                let q = state.players@[current_player as int];
                let base = GameState { bag: state.bag, decks: state.decks, pyramid: state.pyramid, ..s0 };
                let p1 = PlayerState {
                    tokens: p.tokens.minus(payment),
                    reserved_cards: q.reserved_cards,
                    cards: q.cards,
                    ..p
                };
                assert(state.players =~= base.with_player(current_player as int, p1.played(card, None)).players);
            }
            let ghost mid = *state;
            Self::handle_card_ability(state, card.ability, card.color);
            proof {
                lemma_ability_keeps(mid, card.ability, card.color);
                assert(state.players@[current_player as int] == with_privileges(
                    mid.players@[current_player as int],
                    state.players@[current_player as int].privileges,
                ));
                let t = *state;
                let q = t.players@[current_player as int];
                let pay = default_payment(p, card);
                if from_reserved {
                    assert(q.reserved_cards@ == p.reserved_cards@.remove(slot as int));
                    assert(market_unchanged(s0, t));
                } else {
                    assert(q.reserved_cards@ == p.reserved_cards@);
                    lemma_market_refilled_congruent(*old(state), s0, taken, t, tier.spec_index(), slot as int);
                }
                let base = GameState { bag: t.bag, decks: t.decks, pyramid: t.pyramid, ..s0 };
                let p1 = PlayerState {
                    tokens: p.tokens.minus(pay),
                    reserved_cards: q.reserved_cards,
                    cards: q.cards,
                    ..p
                };
                assert(mid == base.with_player(current_player as int, p1.played(card, None)));
                assert(t == ability_state(base.with_player(current_player as int, p1.played(card, None)), card.ability, card.color));
            }
        }
    }

    #[verifier::rlimit(30)]
    fn step_purchase_card(state: &mut GameState, from_reserved: bool, tier: CardTier, slot: usize) -> (res:
        Result<(), String>)
        requires
            old(state).step_safe(Action::PurchaseCard { from_reserved, tier, slot }),
        ensures
            res is Ok <==> old(state).step_ok(Action::PurchaseCard { from_reserved, tier, slot }),
            res is Ok ==> step_post(*old(state), Action::PurchaseCard { from_reserved, tier, slot }, *final(state)),
            res is Err ==> *final(state) == *old(state),
    {
        if !matches!(state.phase, TurnPhase::MandatoryAction) {
            return Err("Not in MandatoryAction phase".to_string());
        }
        let current_player = state.current_player;
        let ghost s0 = *state;
        let ghost p = s0.players@[current_player as int];
        let card = match Self::purchase_card_target(state, from_reserved, tier, slot) {
            Some(c) => c,
            None => {
                return Err(if from_reserved {
                    "Invalid reserved slot".to_string()
                } else {
                    "Invalid pyramid slot".to_string()
                });
            },
        };
        if card.color == CardColor::Joker && !state.players[current_player].has_any_bonus() {
            return Err("Cannot purchase Joker without existing bonuses".to_string());
        }
        let payment = match compute_card_payment(&state.players[current_player], &card) {
            Some(pay) => pay,
            None => return Err("Cannot afford card".to_string()),
        };
        proof {
            assert forall|i: int| 0 <= i < 7 implies payment.counts@[i] <= p.tokens.counts@[i] by {
                if i < 6 {
                    let g = GemType::spec_from_index(i).unwrap();
                    crate::model::token::lemma_gem_index_roundtrip(g);
                }
            }
            assert(payment.counts =~= default_payment(p, card).counts);
            p.tokens.lemma_minus_sum(payment);
        }
        match state.players[current_player].tokens.remove_collection(&payment) {
            Ok(()) => {},
            Err(()) => {
                return Err("Payment deduction failed".to_string());
            },
        }
        return_payment_to_bag(&mut state.bag, &payment);
        proof {
            assert(state.players =~= s0.with_player(
                current_player as int,
                PlayerState { tokens: p.tokens.minus(payment), ..p },
            ).players);
        }
        Self::complete_purchase(state, from_reserved, tier, slot, card, Ghost(s0), Ghost(payment));
        Ok(())
    }
}
impl GameEngine {
    fn step_assign_joker(state: &mut GameState, color: GemType) -> (res: Result<(), String>)
        requires
            old(state).step_safe(Action::AssignJokerColor { color }),
        ensures
            res is Ok <==> old(state).step_ok(Action::AssignJokerColor { color }),
            res is Ok ==> step_post(*old(state), Action::AssignJokerColor { color }, *final(state)),
            res is Err ==> *final(state) == *old(state),
    {
        let pending_card = match state.phase {
            TurnPhase::CardAbilityJoker { pending_card } => pending_card,
            _ => return Err("Not in CardAbilityJoker phase".to_string()),
        };
        let current_player = state.current_player;
        if state.players[current_player].bonuses[color.index()] == 0 {
            return Err("Cannot assign Joker to color without bonus".to_string());
        }
        let ghost s0 = *state;
        let ghost p = s0.players@[current_player as int];
        state.players[current_player].play_card(pending_card, Some(color));
        proof {
            let q = state.players@[current_player as int];
            assert(state.players =~= s0.with_player(
                current_player as int,
                PlayerState { cards: q.cards, ..p.played(pending_card, Some(color)) },
            ).players);
            p.tokens.lemma_count_le_sum(GemType::White);
        }
        let ghost mid = *state;
        let card_color = CardColor::from_gem_type(color).unwrap();
        Self::handle_card_ability(state, pending_card.ability, card_color);
        proof {
            lemma_ability_keeps(mid, pending_card.ability, card_color);
            assert(state.players@[current_player as int] == with_privileges(
                mid.players@[current_player as int],
                state.players@[current_player as int].privileges,
            ));
        }
        Ok(())
    }

    /// Index of the first royal card with this id, if any.
    fn find_royal(state: &GameState, royal_id: u8) -> (r: Option<usize>)
        ensures
            r matches Some(i) ==> i < state.royal_cards@.len() && state.royal_cards@[i as int].id
                == royal_id && forall|j: int| 0 <= j < i ==> state.royal_cards@[j].id != royal_id,
            r is None ==> forall|j: int|
                0 <= j < state.royal_cards@.len() ==> state.royal_cards@[j].id != royal_id,
    {
        let n = state.royal_cards.len();
        let mut i: usize = 0;
        while i < n
            invariant
                0 <= i <= n,
                n == state.royal_cards@.len(),
                forall|j: int| 0 <= j < i ==> state.royal_cards@[j].id != royal_id,
            decreases n - i,
        {
            if state.royal_cards.at(i).id == royal_id {
                return Some(i);
            }
            i = i + 1;
        }
        None
    }

    fn step_select_royal(state: &mut GameState, royal_id: u8) -> (res: Result<(), String>)
        requires
            old(state).step_safe(Action::SelectRoyal { royal_id }),
        ensures
            res is Ok <==> old(state).step_ok(Action::SelectRoyal { royal_id }),
            res is Ok ==> step_post(*old(state), Action::SelectRoyal { royal_id }, *final(state)),
            res is Err ==> *final(state) == *old(state),
    {
        if !matches!(state.phase, TurnPhase::SelectRoyalCard) {
            return Err("Not in SelectRoyalCard phase".to_string());
        }
        let royal_idx = match Self::find_royal(state, royal_id) {
            Some(i) => i,
            None => return Err("Royal card not found on board".to_string()),
        };
        let ghost s0 = *state;
        proof {
            let c = royal_index(s0, royal_id);
            assert(0 <= c < s0.royal_cards@.len() && s0.royal_cards@[c].id == royal_id && forall|j: int|
                0 <= j < c ==> s0.royal_cards@[j].id != royal_id);
            if c < royal_idx {
                assert(s0.royal_cards@[c].id != royal_id);
            }
            if royal_idx < c {
                assert(s0.royal_cards@[royal_idx as int].id != royal_id);
            }
        }
        let royal = state.royal_cards.remove(royal_idx);
        let current_player = state.current_player;
        let ghost p = s0.players@[current_player as int];
        let milestones = state.players[current_player].pending_royal_milestones();
        if milestones.len() > 0 {
            let m = milestones[0];
            state.players[current_player].mark_royal_claimed(m);
        }
        state.players[current_player].claim_royal_card(royal);
        proof {
            let ms = p.spec_pending_milestones();
            let p1 = if ms.len() > 0 { p.marked(ms[0]) } else { p };
            let q = state.players@[current_player as int];
            let p2 = PlayerState {
                royal_cards: q.royal_cards,
                total_points: (p1.total_points + royal.points) as u8,
                ..p1
            };
            assert(state.players =~= (GameState { royal_cards: state.royal_cards, ..s0 }).with_player(
                current_player as int,
                p2,
            ).players);
            p.tokens.lemma_count_le_sum(GemType::White);
        }
        let ghost mid = *state;
        match royal.ability {
            Some(RoyalAbility::ExtraTurn) => {
                state.extra_turn_granted = true;
                Self::after_ability_check(state);
            },
            Some(RoyalAbility::TakePrivilege) => {
                state.grant_privilege_to(current_player);
                Self::after_ability_check(state);
            },
            Some(RoyalAbility::StealToken) => {
                if Self::has_stealable(state) {
                    state.phase = TurnPhase::CardAbilitySteal;
                } else {
                    Self::after_ability_check(state);
                }
            },
            None => {
                Self::after_ability_check(state);
            },
        }
        proof {
            lemma_royal_ability_keeps(mid, royal.ability);
            assert(state.players@[current_player as int] == with_privileges(
                mid.players@[current_player as int],
                state.players@[current_player as int].privileges,
            ));
        }
        Ok(())
    }
}
} // verus!
