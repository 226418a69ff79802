use vstd::prelude::*;

use super::engine::{
    ability_state, add_taken, after_check_state, default_payment, finish_turn_state, lemma_ability_keeps,
    lemma_after_check_keeps, lemma_finish_turn_keeps, lemma_royal_ability_keeps, purchase_target,
    royal_ability_state, royal_index, step_post, take_run,
};
use crate::game_state::phase::TurnPhase;
use crate::game_state::player::PlayerState;
use crate::game_state::state::GameState;
use crate::model::action::Action;
use crate::model::card::{CardColor, CardTier};
use crate::model::token::GemType;

verus! {

/// How many royal milestones (three and six crowns) a player has taken.
pub open spec fn claimed_count(p: PlayerState) -> int {
    (if p.royals_claimed@[0] { 1int } else { 0int }) + (if p.royals_claimed@[1] { 1int } else { 0int })
}

/// Each player holds one royal card per milestone taken, and a royal choice waits only
/// while the player to move has a milestone to take.
pub open spec fn royals_consistent(s: GameState) -> bool {
    &&& forall|i: int| 0 <= i < 2 ==> #[trigger] s.players@[i].royal_cards@.len() == claimed_count(s.players@[i])
    &&& s.phase == TurnPhase::SelectRoyalCard ==> s.players@[s.cp()].spec_pending_milestones().len() > 0
}

/// `t` has the royal cards and the milestones taken of each player of `s`.
spec fn royals_same(s: GameState, t: GameState) -> bool {
    forall|i: int|
        0 <= i < 2 ==> #[trigger] t.players@[i].royal_cards@ == s.players@[i].royal_cards@
            && t.players@[i].royals_claimed == s.players@[i].royals_claimed
}

/// A royal choice in `t` waits for a milestone.
spec fn royal_wait_ok(t: GameState) -> bool {
    t.phase == TurnPhase::SelectRoyalCard ==> t.players@[t.cp()].spec_pending_milestones().len() > 0
}

/// A state with the royal cards and milestones of a consistent one, whose royal choice
/// waits for a milestone, is consistent.
proof fn lemma_royals_frame(s: GameState, t: GameState)
    requires
        royals_consistent(s),
        royals_same(s, t),
        royal_wait_ok(t),
    ensures
        royals_consistent(t),
{
    assert forall|i: int| 0 <= i < 2 implies #[trigger] t.players@[i].royal_cards@.len() == claimed_count(t.players@[i]) by {
        assert(s.players@[i].royal_cards@.len() == claimed_count(s.players@[i]));
    }
}

/// The check after an action keeps the royal cards and waits for a royal choice only
/// with a milestone to take.
proof fn lemma_after_check_royals(s: GameState)
    ensures
        royals_same(s, after_check_state(s)),
        royal_wait_ok(after_check_state(s)),
{
    lemma_after_check_keeps(s);
    lemma_finish_turn_keeps(s);
}

/// So does the end of a turn, which never waits for a royal choice.
proof fn lemma_finish_royals(s: GameState)
    ensures
        royals_same(s, finish_turn_state(s)),
        finish_turn_state(s).phase != TurnPhase::SelectRoyalCard,
{
    lemma_finish_turn_keeps(s);
}

/// So does a card's ability.
proof fn lemma_ability_royals(s: GameState, ability: Option<crate::model::card::CardAbility>, color: CardColor)
    requires
        s.current_player < 2,
    ensures
        royals_same(s, ability_state(s, ability, color)),
        royal_wait_ok(ability_state(s, ability, color)),
{
    lemma_ability_keeps(s, ability, color);
    lemma_after_check_royals(s);
    lemma_after_check_royals(GameState { extra_turn_granted: true, ..s });
    lemma_after_check_royals(s.after_grant(s.cp()));
}

/// So does a royal card's ability.
proof fn lemma_royal_ability_royals(s: GameState, ability: Option<crate::model::card::RoyalAbility>)
    requires
        s.current_player < 2,
    ensures
        royals_same(s, royal_ability_state(s, ability)),
        royal_wait_ok(royal_ability_state(s, ability)),
{
    lemma_royal_ability_keeps(s, ability);
    lemma_after_check_royals(s);
    lemma_after_check_royals(GameState { extra_turn_granted: true, ..s });
    lemma_after_check_royals(s.after_grant(s.cp()));
}

/// Taking a royal card marks the first milestone waiting and adds the card.
proof fn lemma_select_royal_keeps(s: GameState, royal_id: u8, t: GameState)
    requires
        royals_consistent(s),
        s.step_safe(Action::SelectRoyal { royal_id }),
        s.step_ok(Action::SelectRoyal { royal_id }),
        step_post(s, Action::SelectRoyal { royal_id }, t),
    ensures
        royals_consistent(t),
{
    let cp = s.cp();
    let p = s.players@[cp];
    let q = t.players@[cp];
    let idx = royal_index(s, royal_id);
    let royal = s.royal_cards@[idx];
    let ms = p.spec_pending_milestones();
    let p1 = p.marked(ms[0]);
    let p2 = PlayerState { royal_cards: q.royal_cards, total_points: (p1.total_points + royal.points) as u8, ..p1 };
    let m = GameState { royal_cards: t.royal_cards, ..s }.with_player(cp, p2);
    lemma_royal_ability_royals(m, royal.ability);
    assert(claimed_count(p1) == claimed_count(p) + 1);
    assert forall|i: int| 0 <= i < 2 implies #[trigger] t.players@[i].royal_cards@.len() == claimed_count(t.players@[i]) by {
        assert(s.players@[i].royal_cards@.len() == claimed_count(s.players@[i]));
        if i == cp {
            assert(t.players@[i].royal_cards@ == m.players@[i].royal_cards@);
            assert(t.players@[i].royals_claimed == p1.royals_claimed);
        } else {
            assert(t.players@[i].royal_cards@ == s.players@[i].royal_cards@);
            assert(t.players@[i].royals_claimed == s.players@[i].royals_claimed);
        }
    }
}

/// Buying a card changes no royal card or milestone taken.
proof fn lemma_purchase_keeps_royals(s: GameState, from_reserved: bool, tier: CardTier, slot: usize, t: GameState)
    requires
        royals_consistent(s),
        s.step_safe(Action::PurchaseCard { from_reserved, tier, slot }),
        s.step_ok(Action::PurchaseCard { from_reserved, tier, slot }),
        step_post(s, Action::PurchaseCard { from_reserved, tier, slot }, t),
    ensures
        royals_consistent(t),
{
    let cp = s.cp();
    let p = s.players@[cp];
    let q = t.players@[cp];
    let card = purchase_target(s, from_reserved, tier, slot).unwrap();
    let pay = default_payment(p, card);
    let base = GameState { bag: t.bag, decks: t.decks, pyramid: t.pyramid, ..s };
    let p1 = PlayerState { tokens: p.tokens.minus(pay), reserved_cards: q.reserved_cards, cards: q.cards, ..p };
    if card.color == CardColor::Joker {
        lemma_royals_frame(s, t);
    } else {
        let x = base.with_player(cp, p1.played(card, None));
        lemma_ability_royals(x, card.ability, card.color);
        lemma_royals_frame(s, t);
    }
}

/// Choosing a joker's colour changes no royal card or milestone taken.
proof fn lemma_assign_joker_keeps_royals(s: GameState, color: GemType, t: GameState)
    requires
        royals_consistent(s),
        s.step_safe(Action::AssignJokerColor { color }),
        s.step_ok(Action::AssignJokerColor { color }),
        step_post(s, Action::AssignJokerColor { color }, t),
    ensures
        royals_consistent(t),
{
    let cp = s.cp();
    let p = s.players@[cp];
    let q = t.players@[cp];
    let pc = s.phase->pending_card;
    let x = s.with_player(cp, PlayerState { cards: q.cards, ..p.played(pc, Some(color)) });
    lemma_ability_royals(x, pc.ability, CardColor::spec_from_gem_type(color).unwrap());
    lemma_royals_frame(s, t);
}

/// Every accepted step keeps the royal cards consistent with the milestones taken: a
/// player holds one royal card per milestone of three and six crowns taken, so never
/// more than two, and a royal choice is offered only with a milestone to take.
#[verifier::spinoff_prover]
#[verifier::rlimit(60)]
pub proof fn lemma_step_keeps_royals(s: GameState, a: Action, t: GameState)
    requires
        royals_consistent(s),
        s.step_safe(a),
        s.step_ok(a),
        step_post(s, a, t),
    ensures
        royals_consistent(t),
        forall|i: int| 0 <= i < 2 ==> #[trigger] t.players@[i].royal_cards@.len() <= 2,
{
    let cp = s.cp();
    let p = s.players@[cp];
    match a {
        Action::SkipOptional => {
            if s.phase != TurnPhase::OptionalActions {
                lemma_after_check_royals(s);
            }
            lemma_royals_frame(s, t);
        },
        Action::UsePrivilege { r, c } => {
            lemma_royals_frame(s, t);
        },
        Action::ReplenishBoard => {
            lemma_royals_frame(s, t);
        },
        Action::TakeTokens { count, positions } => {
            let (b, ok, taken) = take_run(s.board, positions, count as int, 0, Seq::empty());
            let m = GameState { board: b, ..s }.with_player(
                cp,
                PlayerState { tokens: add_taken(p.tokens, taken), ..p },
            );
            lemma_after_check_royals(m);
            lemma_after_check_royals(m.after_grant(s.op()));
            lemma_royals_frame(s, t);
        },
        Action::ReserveCard { .. } => {
            lemma_royals_frame(s, t);
        },
        Action::TakeGoldToken { r, c } => {
            let m = GameState { board: s.board.with_cell(r as int, c as int, None), ..s }.with_player(
                cp,
                PlayerState { tokens: p.tokens.shifted(GemType::Gold, 1), ..p },
            );
            lemma_after_check_royals(m);
            lemma_royals_frame(s, t);
        },
        Action::PurchaseCard { from_reserved, tier, slot } => lemma_purchase_keeps_royals(s, from_reserved, tier, slot, t),
        Action::AssignJokerColor { color } => lemma_assign_joker_keeps_royals(s, color, t),
        Action::TakeSameColorToken { r, c } => {
            let g = s.board.cell(r as int, c as int).unwrap();
            let m = GameState { board: s.board.with_cell(r as int, c as int, None), ..s }.with_player(
                cp,
                PlayerState { tokens: p.tokens.shifted(g, 1), ..p },
            );
            lemma_after_check_royals(m);
            lemma_royals_frame(s, t);
        },
        Action::StealToken { gem } => {
            let o = s.players@[s.op()];
            let m = s.with_player(s.op(), PlayerState { tokens: o.tokens.shifted(gem, -1), ..o }).with_player(
                cp,
                PlayerState { tokens: p.tokens.shifted(gem, 1), ..p },
            );
            lemma_after_check_royals(m);
            lemma_royals_frame(s, t);
        },
        Action::SelectRoyal { royal_id } => lemma_select_royal_keeps(s, royal_id, t),
        Action::DiscardToken { gem } => {
            let m = GameState { bag: t.bag, ..s }.with_player(
                cp,
                PlayerState { tokens: p.tokens.shifted(gem, -1), ..p },
            );
            lemma_finish_royals(m);
            lemma_royals_frame(s, t);
        },
    }
    assert forall|i: int| 0 <= i < 2 implies #[trigger] t.players@[i].royal_cards@.len() <= 2 by {
        assert(t.players@[i].royal_cards@.len() == claimed_count(t.players@[i]));
    }
}

} // verus!
