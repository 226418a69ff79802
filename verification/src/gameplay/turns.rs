use vstd::prelude::*;

use super::engine::{purchase_target, royal_index, step_post};
use crate::game_state::phase::TurnPhase;
use crate::game_state::state::GameState;
use crate::model::action::Action;
use crate::model::card::{CardAbility, CardTier, RoyalAbility};

verus! {

/// The card abilities that give the buyer another turn.
pub open spec fn grants_extra_turn(ability: Option<CardAbility>) -> bool {
    ability == Some(CardAbility::ExtraTurn) || ability == Some(CardAbility::ColorCopyAndExtraTurn)
}

/// Who moves after a purchase that ends the turn (the next turn begins in the optional
/// phase, so no victory, royal choice or discard is pending): the buyer again when the
/// card grants an extra turn; otherwise the opponent, unless an extra turn was already
/// granted this turn.
pub proof fn lemma_purchase_turn_order(s: GameState, from_reserved: bool, tier: CardTier, slot: usize, t: GameState)
    requires
        s.current_player < 2,
        s.step_ok(Action::PurchaseCard { from_reserved, tier, slot }),
        step_post(s, Action::PurchaseCard { from_reserved, tier, slot }, t),
        t.phase == TurnPhase::OptionalActions,
    ensures
        grants_extra_turn(purchase_target(s, from_reserved, tier, slot)->0.ability) ==> t.current_player
            == s.current_player,
        !grants_extra_turn(purchase_target(s, from_reserved, tier, slot)->0.ability) && !s.extra_turn_granted
            ==> t.current_player == 1 - s.current_player,
        !t.extra_turn_granted,
{
}

/// A purchase of a card granting an extra turn that stops for a royal choice or a discard
/// keeps the extra turn for when the turn ends.
pub proof fn lemma_purchase_keeps_extra_turn(s: GameState, from_reserved: bool, tier: CardTier, slot: usize, t: GameState)
    requires
        s.current_player < 2,
        s.step_ok(Action::PurchaseCard { from_reserved, tier, slot }),
        step_post(s, Action::PurchaseCard { from_reserved, tier, slot }, t),
        t.phase == TurnPhase::SelectRoyalCard || t.phase == TurnPhase::DiscardTokens,
        grants_extra_turn(purchase_target(s, from_reserved, tier, slot)->0.ability),
    ensures
        t.extra_turn_granted,
        t.current_player == s.current_player,
{
}

/// A move that ends the turn (taking tokens, taking gold after a reservation, taking a
/// token of a card's colour, stealing, discarding) hands it to the opponent, unless an
/// extra turn was granted this turn, in which case the same player moves again.
pub proof fn lemma_turn_end_order(s: GameState, a: Action, t: GameState)
    requires
        s.current_player < 2,
        a is TakeTokens || a is TakeGoldToken || a is TakeSameColorToken || a is StealToken || a is DiscardToken,
        s.step_ok(a),
        step_post(s, a, t),
        t.phase == TurnPhase::OptionalActions,
    ensures
        t.current_player == if s.extra_turn_granted {
            s.current_player
        } else {
            (1 - s.current_player) as usize
        },
        !t.extra_turn_granted,
{
}

/// Who moves after a joker is given its colour and the turn ends (the next turn begins in
/// the optional phase): the buyer again when the joker grants an extra turn; otherwise
/// the opponent, unless an extra turn was already granted this turn.
pub proof fn lemma_joker_turn_order(s: GameState, color: crate::model::token::GemType, t: GameState)
    requires
        s.current_player < 2,
        s.step_ok(Action::AssignJokerColor { color }),
        step_post(s, Action::AssignJokerColor { color }, t),
        t.phase == TurnPhase::OptionalActions,
    ensures
        s.phase matches TurnPhase::CardAbilityJoker { pending_card } && grants_extra_turn(pending_card.ability)
            ==> t.current_player == s.current_player,
        s.phase matches TurnPhase::CardAbilityJoker { pending_card } && !grants_extra_turn(pending_card.ability)
            && !s.extra_turn_granted ==> t.current_player == 1 - s.current_player,
        !t.extra_turn_granted,
{
}

/// Who moves after a royal card is taken and the turn ends (the next turn begins in the
/// optional phase): the taker again when the royal card grants an extra turn; otherwise
/// the opponent, unless an extra turn was already granted this turn.
pub proof fn lemma_royal_turn_order(s: GameState, royal_id: u8, t: GameState)
    requires
        s.current_player < 2,
        s.step_ok(Action::SelectRoyal { royal_id }),
        step_post(s, Action::SelectRoyal { royal_id }, t),
        t.phase == TurnPhase::OptionalActions,
    ensures
        s.royal_cards@[royal_index(s, royal_id)].ability == Some(RoyalAbility::ExtraTurn) ==> t.current_player
            == s.current_player,
        s.royal_cards@[royal_index(s, royal_id)].ability != Some(RoyalAbility::ExtraTurn) && !s.extra_turn_granted
            ==> t.current_player == 1 - s.current_player,
        !t.extra_turn_granted,
{
}

} // verus!
