use vstd::prelude::*;

use super::engine::{
    ability_state, add_taken, after_check_state, default_payment, lemma_ability_keeps,
    lemma_after_check_keeps, lemma_finish_turn_keeps, lemma_royal_ability_keeps, purchase_target,
    royal_ability_state, royal_index, step_post, take_run,
};
use crate::game_state::phase::TurnPhase;
use crate::game_state::player::PlayerState;
use crate::game_state::state::GameState;
use crate::model::action::Action;
use crate::model::card::{CardColor, CardTier};
use crate::model::token::GemType;

verus! {

/// The turn of the player to move in `s` is over in `t`: a new turn has begun or the
/// game has ended.
pub open spec fn turn_over(s: GameState, t: GameState) -> bool {
    s.phase != TurnPhase::OptionalActions && (t.phase == TurnPhase::OptionalActions || t.phase is GameOver)
}

/// In `t`, if a turn is over, player `p` (the one who moved) holds at most ten tokens.
spec fn ends_within_limit(t: GameState, p: int) -> bool {
    (t.phase == TurnPhase::OptionalActions || t.phase is GameOver) ==> t.players@[p].tokens.sum() <= 10
}

/// The check after an action ends a turn only with at most ten tokens in hand.
proof fn lemma_after_check_limit(s: GameState)
    ensures
        ends_within_limit(after_check_state(s), s.cp()),
{
    lemma_after_check_keeps(s);
    lemma_finish_turn_keeps(s);
}

/// So does a card's ability.
proof fn lemma_ability_limit(s: GameState, ability: Option<crate::model::card::CardAbility>, color: CardColor)
    requires
        s.current_player < 2,
    ensures
        ends_within_limit(ability_state(s, ability, color), s.cp()),
{
    lemma_ability_keeps(s, ability, color);
    lemma_after_check_limit(s);
    lemma_after_check_limit(GameState { extra_turn_granted: true, ..s });
    let g = s.after_grant(s.cp());
    lemma_after_check_limit(g);
    assert(g.players@[s.cp()].tokens == s.players@[s.cp()].tokens);
}

/// So does a royal card's ability.
proof fn lemma_royal_ability_limit(s: GameState, ability: Option<crate::model::card::RoyalAbility>)
    requires
        s.current_player < 2,
    ensures
        ends_within_limit(royal_ability_state(s, ability), s.cp()),
{
    lemma_royal_ability_keeps(s, ability);
    lemma_after_check_limit(s);
    lemma_after_check_limit(GameState { extra_turn_granted: true, ..s });
    let g = s.after_grant(s.cp());
    lemma_after_check_limit(g);
    assert(g.players@[s.cp()].tokens == s.players@[s.cp()].tokens);
}

/// A purchase ends the turn only within the limit.
proof fn lemma_purchase_limit(s: GameState, from_reserved: bool, tier: CardTier, slot: usize, t: GameState)
    requires
        s.step_safe(Action::PurchaseCard { from_reserved, tier, slot }),
        s.step_ok(Action::PurchaseCard { from_reserved, tier, slot }),
        step_post(s, Action::PurchaseCard { from_reserved, tier, slot }, t),
    ensures
        ends_within_limit(t, s.cp()),
{
    let cp = s.cp();
    let p = s.players@[cp];
    let q = t.players@[cp];
    let card = purchase_target(s, from_reserved, tier, slot).unwrap();
    let pay = default_payment(p, card);
    let base = GameState { bag: t.bag, decks: t.decks, pyramid: t.pyramid, ..s };
    let p1 = PlayerState { tokens: p.tokens.minus(pay), reserved_cards: q.reserved_cards, cards: q.cards, ..p };
    if card.color != CardColor::Joker {
        let x = base.with_player(cp, p1.played(card, None));
        lemma_ability_limit(x, card.ability, card.color);
    }
}

/// Choosing a joker's colour ends the turn only within the limit.
proof fn lemma_assign_joker_limit(s: GameState, color: GemType, t: GameState)
    requires
        s.step_safe(Action::AssignJokerColor { color }),
        s.step_ok(Action::AssignJokerColor { color }),
        step_post(s, Action::AssignJokerColor { color }, t),
    ensures
        ends_within_limit(t, s.cp()),
{
    let cp = s.cp();
    let p = s.players@[cp];
    let q = t.players@[cp];
    let pc = s.phase->pending_card;
    let x = s.with_player(cp, PlayerState { cards: q.cards, ..p.played(pc, Some(color)) });
    lemma_ability_limit(x, pc.ability, CardColor::spec_from_gem_type(color).unwrap());
}

/// Taking a royal card ends the turn only within the limit.
proof fn lemma_select_royal_limit(s: GameState, royal_id: u8, t: GameState)
    requires
        s.step_safe(Action::SelectRoyal { royal_id }),
        s.step_ok(Action::SelectRoyal { royal_id }),
        step_post(s, Action::SelectRoyal { royal_id }, t),
    ensures
        ends_within_limit(t, s.cp()),
{
    let cp = s.cp();
    let p = s.players@[cp];
    let q = t.players@[cp];
    let idx = royal_index(s, royal_id);
    let royal = s.royal_cards@[idx];
    let ms = p.spec_pending_milestones();
    let p1 = if ms.len() > 0 { p.marked(ms[0]) } else { p };
    let p2 = PlayerState { royal_cards: q.royal_cards, total_points: (p1.total_points + royal.points) as u8, ..p1 };
    let m = GameState { royal_cards: t.royal_cards, ..s }.with_player(cp, p2);
    lemma_royal_ability_limit(m, royal.ability);
}

/// The hand limit: no accepted step ends a turn, or the game, with more than ten tokens
/// in the hand of the player who moved; above ten, the player discards first.
#[verifier::spinoff_prover]
#[verifier::rlimit(60)]
pub proof fn lemma_turn_ends_within_hand_limit(s: GameState, a: Action, t: GameState)
    requires
        s.step_safe(a),
        s.step_ok(a),
        step_post(s, a, t),
        turn_over(s, t),
    ensures
        t.players@[s.cp()].tokens.sum() <= 10,
{
    let cp = s.cp();
    let p = s.players@[cp];
    match a {
        Action::SkipOptional => {
            lemma_after_check_limit(s);
        },
        Action::UsePrivilege { .. } => {},
        Action::ReplenishBoard => {},
        Action::TakeTokens { count, positions } => {
            let (b, ok, taken) = take_run(s.board, positions, count as int, 0, Seq::empty());
            let m = GameState { board: b, ..s }.with_player(
                cp,
                PlayerState { tokens: add_taken(p.tokens, taken), ..p },
            );
            lemma_after_check_limit(m);
            let g = m.after_grant(s.op());
            lemma_after_check_limit(g);
            assert(g.current_player == s.current_player);
        },
        Action::ReserveCard { .. } => {},
        Action::TakeGoldToken { r, c } => {
            let m = GameState { board: s.board.with_cell(r as int, c as int, None), ..s }.with_player(
                cp,
                PlayerState { tokens: p.tokens.shifted(GemType::Gold, 1), ..p },
            );
            lemma_after_check_limit(m);
        },
        Action::PurchaseCard { from_reserved, tier, slot } => lemma_purchase_limit(s, from_reserved, tier, slot, t),
        Action::AssignJokerColor { color } => lemma_assign_joker_limit(s, color, t),
        Action::TakeSameColorToken { r, c } => {
            let g = s.board.cell(r as int, c as int).unwrap();
            let m = GameState { board: s.board.with_cell(r as int, c as int, None), ..s }.with_player(
                cp,
                PlayerState { tokens: p.tokens.shifted(g, 1), ..p },
            );
            lemma_after_check_limit(m);
        },
        Action::StealToken { gem } => {
            let o = s.players@[s.op()];
            let m = s.with_player(s.op(), PlayerState { tokens: o.tokens.shifted(gem, -1), ..o }).with_player(
                cp,
                PlayerState { tokens: p.tokens.shifted(gem, 1), ..p },
            );
            lemma_after_check_limit(m);
        },
        Action::SelectRoyal { royal_id } => lemma_select_royal_limit(s, royal_id, t),
        Action::DiscardToken { gem } => {
            let m = GameState { bag: t.bag, ..s }.with_player(
                cp,
                PlayerState { tokens: p.tokens.shifted(gem, -1), ..p },
            );
            lemma_finish_turn_keeps(m);
        },
    }
}

} // verus!
