use vstd::prelude::*;

use super::engine::{
    ability_state, after_check_state, finish_turn_state, lemma_ability_keeps,
    lemma_after_check_keeps, lemma_finish_turn_keeps, lemma_royal_ability_keeps,
    opp_has_stealable, purchase_post, royal_ability_state, royal_index, step_post,
};
use super::rules::{can_replenish, is_legal, mandatory_choice};
use crate::game_state::board::in_range;
use crate::game_state::phase::TurnPhase;
use crate::game_state::state::GameState;
use crate::model::action::Action;
use crate::model::card::{CardColor, CardTier};
use crate::model::token::GemType;

verus! {

/// The phase can be played: a pending joker has a colour to join, a same-colour ability
/// has a token of that colour on the board, a steal has a token to take, a royal choice has
/// a royal card, a discard has more than ten tokens to reduce, and a reservation has gold
/// on the board to take.
pub open spec fn phase_consistent(s: GameState) -> bool {
    let p = s.players@[s.cp()];
    match s.phase {
        TurnPhase::CardAbilityJoker { .. } => p.spec_has_any_bonus(),
        TurnPhase::CardAbilitySameColor { color } => s.board.spec_contains(color),
        TurnPhase::CardAbilitySteal => opp_has_stealable(s),
        TurnPhase::SelectRoyalCard => s.royal_cards@.len() > 0,
        TurnPhase::DiscardTokens => p.tokens.sum() > 10,
        TurnPhase::SelectReserveGold => s.board.spec_has_gold(),
        _ => true,
    }
}

/// The end of a turn leaves a playable phase and a player to move.
pub proof fn lemma_finish_turn_consistent(s: GameState)
    requires
        s.current_player < 2,
    ensures
        phase_consistent(finish_turn_state(s)),
        finish_turn_state(s).current_player < 2,
{
}

/// So does the check that follows an action.
pub proof fn lemma_after_check_consistent(s: GameState)
    requires
        s.current_player < 2,
    ensures
        phase_consistent(after_check_state(s)),
        after_check_state(s).current_player < 2,
{
    lemma_finish_turn_consistent(s);
}

/// So does a card's ability.
pub proof fn lemma_ability_consistent(s: GameState, ability: Option<crate::model::card::CardAbility>, color: CardColor)
    requires
        s.current_player < 2,
    ensures
        phase_consistent(ability_state(s, ability, color)),
        ability_state(s, ability, color).current_player < 2,
{
    lemma_after_check_consistent(s);
    lemma_after_check_consistent(GameState { extra_turn_granted: true, ..s });
    lemma_after_check_consistent(s.after_grant(s.cp()));
    match ability {
        Some(crate::model::card::CardAbility::TakeSameColor) => {
            if let Some(g) = color.spec_to_gem_type() {
                if s.board.spec_contains(g) {
                    let t = GameState { phase: TurnPhase::CardAbilitySameColor { color: g }, ..s };
                    assert(t.board == s.board);
                    assert(phase_consistent(t));
                }
            }
        },
        Some(crate::model::card::CardAbility::StealToken) => {
            if opp_has_stealable(s) {
                let t = GameState { phase: TurnPhase::CardAbilitySteal, ..s };
                let i = choose|i: int| 0 <= i < 6 && s.players@[s.op()].tokens.counts@[i] > 0;
                assert(t.players@[t.op()].tokens.counts@[i] > 0);
                assert(phase_consistent(t));
            }
        },
        _ => {},
    }
}

/// So does a royal card's ability.
pub proof fn lemma_royal_ability_consistent(s: GameState, ability: Option<crate::model::card::RoyalAbility>)
    requires
        s.current_player < 2,
    ensures
        phase_consistent(royal_ability_state(s, ability)),
        royal_ability_state(s, ability).current_player < 2,
{
    lemma_after_check_consistent(s);
    lemma_after_check_consistent(GameState { extra_turn_granted: true, ..s });
    lemma_after_check_consistent(s.after_grant(s.cp()));
    if ability == Some(crate::model::card::RoyalAbility::StealToken) && opp_has_stealable(s) {
        let t = GameState { phase: TurnPhase::CardAbilitySteal, ..s };
        let i = choose|i: int| 0 <= i < 6 && s.players@[s.op()].tokens.counts@[i] > 0;
        assert(t.players@[t.op()].tokens.counts@[i] > 0);
    }
}

/// In every state of a game that is not over there is a legal move: the rules never leave
/// the player to move without a choice.
pub proof fn lemma_legal_action_exists(s: GameState)
    requires
        s.current_player < 2,
        phase_consistent(s),
        !(s.phase is GameOver),
    ensures
        exists|a: Action| is_legal(s, a),
{
    let p = s.players@[s.cp()];
    match s.phase {
        TurnPhase::OptionalActions => {
            if can_replenish(s) {
                assert(is_legal(s, Action::ReplenishBoard));
            } else {
                assert(is_legal(s, Action::SkipOptional));
            }
        },
        TurnPhase::MandatoryAction => {
            if exists|b: Action| #[trigger] mandatory_choice(s, b) {
                let b = choose|b: Action| #[trigger] mandatory_choice(s, b);
                assert(is_legal(s, b));
            } else {
                assert(is_legal(s, super::rules::mandatory_fallback(s)));
            }
        },
        TurnPhase::CardAbilityJoker { .. } => {
            let i = choose|i: int| 0 <= i < 5 && p.bonuses@[i] > 0;
            let g = GemType::spec_from_index(i).unwrap();
            assert(is_legal(s, Action::AssignJokerColor { color: g }));
        },
        TurnPhase::CardAbilitySameColor { color } => {
            let (r, c) = choose|r: int, c: int| in_range(r, c) && s.board.cell(r, c) == Some(color);
            assert(is_legal(s, Action::TakeSameColorToken { r: r as usize, c: c as usize }));
        },
        TurnPhase::CardAbilitySteal => {
            let i = choose|i: int| 0 <= i < 6 && s.players@[s.op()].tokens.counts@[i] > 0;
            let g = GemType::spec_from_index(i).unwrap();
            assert(is_legal(s, Action::StealToken { gem: g }));
        },
        TurnPhase::SelectRoyalCard => {
            assert(is_legal(s, Action::SelectRoyal { royal_id: s.royal_cards@[0].id }));
        },
        TurnPhase::DiscardTokens => {
            let i = lemma_some_count_positive(p.tokens);
            let g = GemType::spec_from_index(i).unwrap();
            assert(is_legal(s, Action::DiscardToken { gem: g }));
        },
        TurnPhase::SelectReserveGold => {
            let (r, c) = choose|r: int, c: int| in_range(r, c) && s.board.cell(r, c) == Some(GemType::Gold);
            assert(is_legal(s, Action::TakeGoldToken { r: r as usize, c: c as usize }));
        },
        TurnPhase::GameOver(_) => {},
    }
}

/// A collection with tokens holds some kind.
proof fn lemma_some_count_positive(tc: crate::model::token::TokenCollection) -> (i: int)
    requires
        tc.sum() > 0,
    ensures
        0 <= i < 7,
        tc.counts@[i] > 0,
{
    reveal_with_fuel(crate::model::token::sum_prefix, 8);
    if tc.counts@[0] > 0 {
        0
    } else if tc.counts@[1] > 0 {
        1
    } else if tc.counts@[2] > 0 {
        2
    } else if tc.counts@[3] > 0 {
        3
    } else if tc.counts@[4] > 0 {
        4
    } else if tc.counts@[5] > 0 {
        5
    } else {
        6
    }
}

/// The three privilege scrolls are in the pool or with the players.
pub open spec fn privileges_conserved(s: GameState) -> bool {
    s.privilege_pool + s.players@[0].privileges + s.players@[1].privileges == 3
}

/// The bounds and the scroll count of a game.
pub open spec fn invariant_core(s: GameState) -> bool {
    s.well_formed() && privileges_conserved(s)
}

/// The bounds, the scroll count, and a phase that can be played.
pub open spec fn playable(s: GameState) -> bool {
    invariant_core(s) && phase_consistent(s)
}

/// The 25 tokens of the game are all on the board, in the bag or with the players.
pub open spec fn tokens_conserved(s: GameState) -> bool {
    forall|g: GemType| #[trigger] token_total(s, g) == crate::game_state::state::initial_tokens().to_multiset().count(g)
}

/// What every state reached in a game keeps: its bounds, the three scrolls, a phase that
/// can be played, and the 25 tokens.
pub open spec fn game_invariant(s: GameState) -> bool {
    playable(s) && tokens_conserved(s)
}

/// `t` differs from `s` at most in the players' scrolls and the pool.
pub open spec fn same_but_privileges(s: GameState, t: GameState) -> bool {
    &&& t.board == s.board
    &&& t.bag == s.bag
    &&& t.decks == s.decks
    &&& t.pyramid == s.pyramid
    &&& t.royal_cards == s.royal_cards
    &&& forall|i: int| 0 <= i < 2 ==> #[trigger] t.players@[i] == crate::game_state::state::with_privileges(s.players@[i], t.players@[i].privileges)
}

/// The bounds hold of a state whose lists are no longer than those of a well-formed
/// state, with at most four royal cards numbered below four and a player to move.
pub proof fn lemma_wf_frame(s: GameState, t: GameState)
    requires
        s.well_formed(),
        t.bag@.len() <= 25,
        t.royal_cards@.len() <= 4,
        forall|i: int| 0 <= i < t.royal_cards@.len() ==> #[trigger] t.royal_cards@[i].id < 4,
        t.row(0).len() <= s.row(0).len(),
        t.row(1).len() <= s.row(1).len(),
        t.row(2).len() <= s.row(2).len(),
        t.deck(0).len() <= s.deck(0).len(),
        t.deck(1).len() <= s.deck(1).len(),
        t.deck(2).len() <= s.deck(2).len(),
        t.current_player < 2,
        t.players@[0].reserved_cards@.len() <= s.players@[0].reserved_cards@.len(),
        t.players@[1].reserved_cards@.len() <= s.players@[1].reserved_cards@.len(),
    ensures
        t.well_formed(),
{
    assert(s.decks@[0].wf() && s.decks@[1].wf() && s.decks@[2].wf());
    assert(s.pyramid@[0].wf() && s.pyramid@[1].wf() && s.pyramid@[2].wf());
    assert(s.row(0).len() <= 5 && s.row(1).len() <= 4 && s.row(2).len() <= 3);
    assert(s.players@[0].reserved_cards@.len() <= 3 && s.players@[1].reserved_cards@.len() <= 3);
    assert forall|u: int| 0 <= u < 3 implies #[trigger] t.decks@[u].wf() by {
        assert(t.deck(u) == t.decks@[u]@);
    }
    assert forall|u: int| 0 <= u < 3 implies #[trigger] t.pyramid@[u].wf() by {
        assert(t.row(u) == t.pyramid@[u]@);
    }
    assert forall|u: int| 0 <= u < 3 implies #[trigger] t.row(u).len()
        <= CardTier::spec_from_index(u).spec_market_capacity() by {
    }
    assert forall|i: int| 0 <= i < 2 implies #[trigger] t.players@[i].reserved_cards@.len() <= 3 by {
    }
}

/// The same, for a state that keeps the lists of a well-formed state.
pub proof fn lemma_wf_same_lists(s: GameState, t: GameState)
    requires
        s.well_formed(),
        t.bag == s.bag,
        t.decks == s.decks,
        t.pyramid == s.pyramid,
        t.royal_cards == s.royal_cards,
        t.current_player < 2,
        t.players@[0].reserved_cards@.len() == s.players@[0].reserved_cards@.len(),
        t.players@[1].reserved_cards@.len() == s.players@[1].reserved_cards@.len(),
    ensures
        t.well_formed(),
{
    assert forall|i: int| 0 <= i < t.royal_cards@.len() implies #[trigger] t.royal_cards@[i].id < 4 by {
        assert(s.royal_cards@[i].id < 4);
    }
    lemma_wf_frame(s, t);
}

/// A state that differs from one satisfying the core invariant only in scrolls keeps
/// the bounds.
proof fn lemma_same_but_privileges_wf(s: GameState, t: GameState)
    requires
        s.well_formed(),
        same_but_privileges(s, t),
        t.current_player < 2,
    ensures
        t.well_formed(),
{
    assert(t.players@[0].reserved_cards == s.players@[0].reserved_cards);
    assert(t.players@[1].reserved_cards == s.players@[1].reserved_cards);
    lemma_wf_same_lists(s, t);
}

/// Granting a scroll keeps the core invariant and changes only scrolls.
pub proof fn lemma_after_grant_core(s: GameState, p: int)
    requires
        invariant_core(s),
        0 <= p < 2,
    ensures
        invariant_core(s.after_grant(p)),
        same_but_privileges(s, s.after_grant(p)),
{
    let t = s.after_grant(p);
    assert forall|i: int| 0 <= i < 2 implies #[trigger] t.players@[i] == crate::game_state::state::with_privileges(s.players@[i], t.players@[i].privileges) by {
    }
    lemma_same_but_privileges_wf(s, t);
}

/// The check after an action keeps the invariant.
pub proof fn lemma_after_check_invariant(s: GameState)
    requires
        invariant_core(s),
    ensures
        playable(after_check_state(s)),
{
    lemma_after_check_keeps(s);
    lemma_after_check_consistent(s);
    lemma_finish_turn_keeps(s);
    lemma_wf_same_lists(s, after_check_state(s));
}

/// A card's ability keeps the invariant.
pub proof fn lemma_ability_invariant(s: GameState, ability: Option<crate::model::card::CardAbility>, color: CardColor)
    requires
        invariant_core(s),
    ensures
        playable(ability_state(s, ability, color)),
        same_but_privileges(s, ability_state(s, ability, color)),
{
    lemma_ability_keeps(s, ability, color);
    lemma_ability_consistent(s, ability, color);
    lemma_after_check_invariant(s);
    lemma_wf_same_lists(s, GameState { extra_turn_granted: true, ..s });
    lemma_after_check_invariant(GameState { extra_turn_granted: true, ..s });
    lemma_after_grant_core(s, s.cp());
    lemma_after_check_invariant(s.after_grant(s.cp()));
    lemma_after_check_keeps(s.after_grant(s.cp()));
    lemma_after_check_keeps(GameState { extra_turn_granted: true, ..s });
    lemma_after_check_keeps(s);
    let t = ability_state(s, ability, color);
    lemma_same_but_privileges_wf(s, t);
    if ability == Some(crate::model::card::CardAbility::TakePrivilege) {
        assert(privileges_conserved(s.after_grant(s.cp())));
    } else {
        assert(t.privilege_pool == s.privilege_pool);
        assert(t.players@[0].privileges == s.players@[0].privileges);
        assert(t.players@[1].privileges == s.players@[1].privileges);
    }
}

/// A royal card's ability keeps the invariant.
pub proof fn lemma_royal_ability_invariant(s: GameState, ability: Option<crate::model::card::RoyalAbility>)
    requires
        invariant_core(s),
    ensures
        playable(royal_ability_state(s, ability)),
        same_but_privileges(s, royal_ability_state(s, ability)),
{
    lemma_royal_ability_keeps(s, ability);
    lemma_royal_ability_consistent(s, ability);
    lemma_after_check_invariant(s);
    lemma_wf_same_lists(s, GameState { extra_turn_granted: true, ..s });
    lemma_after_check_invariant(GameState { extra_turn_granted: true, ..s });
    lemma_after_grant_core(s, s.cp());
    lemma_after_check_invariant(s.after_grant(s.cp()));
    lemma_after_check_keeps(s.after_grant(s.cp()));
    lemma_after_check_keeps(GameState { extra_turn_granted: true, ..s });
    lemma_after_check_keeps(s);
    let t = royal_ability_state(s, ability);
    lemma_same_but_privileges_wf(s, t);
    if ability == Some(crate::model::card::RoyalAbility::TakePrivilege) {
        assert(privileges_conserved(s.after_grant(s.cp())));
    } else {
        assert(t.privilege_pool == s.privilege_pool);
        assert(t.players@[0].privileges == s.players@[0].privileges);
        assert(t.players@[1].privileges == s.players@[1].privileges);
    }
}

/// A state that differs from an invariant one only by the current player's holdings
/// (same reserve size) keeps the core invariant.
proof fn lemma_core_with_player(s: GameState, m: GameState, q: crate::game_state::player::PlayerState)
    requires
        invariant_core(s),
        m == s.with_player(s.cp(), q),
        q.reserved_cards@.len() == s.players@[s.cp()].reserved_cards@.len(),
        q.privileges == s.players@[s.cp()].privileges,
    ensures
        invariant_core(m),
{
    lemma_wf_same_lists(s, m);
}

proof fn lemma_skip_keeps(s: GameState, t: GameState)
    requires
        playable(s),
        s.step_ok(Action::SkipOptional),
        step_post(s, Action::SkipOptional, t),
    ensures
        playable(t),
{
    if s.phase == TurnPhase::OptionalActions {
        lemma_wf_same_lists(s, t);
    } else {
        lemma_after_check_invariant(s);
    }
}

proof fn lemma_use_privilege_keeps(s: GameState, r: usize, c: usize, t: GameState)
    requires
        playable(s),
        s.step_ok(Action::UsePrivilege { r, c }),
        step_post(s, Action::UsePrivilege { r, c }, t),
    ensures
        playable(t),
{
    lemma_wf_same_lists(s, t);
}

proof fn lemma_replenish_keeps(s: GameState, t: GameState)
    requires
        playable(s),
        s.step_ok(Action::ReplenishBoard),
        step_post(s, Action::ReplenishBoard, t),
    ensures
        playable(t),
{
    broadcast use vstd::seq_lib::group_to_multiset_ensures;

    let sh = super::engine::replenish_order(s);
    s.board.lemma_well_shaped();
    crate::game_state::board::lemma_spiral_fill_conserves(s.board.cells(), sh, 0);
    assert(sh.to_multiset().len() == s.bag@.to_multiset().len());
    assert(sh.len() == s.bag@.len());
    let g = s.after_grant(s.op());
    lemma_after_grant_core(s, s.op());
    lemma_wf_frame(g, t);
}

proof fn lemma_take_tokens_keeps(s: GameState, count: u8, positions: [(usize, usize); 3], t: GameState)
    requires
        playable(s),
        s.step_ok(Action::TakeTokens { count, positions }),
        step_post(s, Action::TakeTokens { count, positions }, t),
    ensures
        playable(t),
{
    let p = s.players@[s.cp()];
    let (b, ok, taken) = super::engine::take_run(s.board, positions, count as int, 0, Seq::empty());
    let m0 = GameState { board: b, ..s };
    let m = m0.with_player(s.cp(), crate::game_state::player::PlayerState { tokens: super::engine::add_taken(p.tokens, taken), ..p });
    lemma_wf_same_lists(s, m0);
    lemma_core_with_player(m0, m, crate::game_state::player::PlayerState { tokens: super::engine::add_taken(p.tokens, taken), ..p });
    if super::engine::take_penalty(taken) {
        lemma_after_grant_core(m, s.op());
        lemma_after_check_invariant(m.after_grant(s.op()));
    } else {
        lemma_after_check_invariant(m);
    }
}

proof fn lemma_reserve_keeps(s: GameState, tier: CardTier, slot: Option<usize>, t: GameState)
    requires
        playable(s),
        s.step_ok(Action::ReserveCard { tier, slot }),
        step_post(s, Action::ReserveCard { tier, slot }, t),
    ensures
        playable(t),
{
    let cp = s.cp();
    let ti = tier.spec_index();
    assert(t.row(0).len() <= s.row(0).len() && t.row(1).len() <= s.row(1).len() && t.row(2).len() <= s.row(2).len());
    assert(t.deck(0).len() <= s.deck(0).len() && t.deck(1).len() <= s.deck(1).len() && t.deck(2).len() <= s.deck(2).len());
    assert(s.players@[cp].reserved_cards@.len() < 3);
    assert(s.decks@[0].wf() && s.decks@[1].wf() && s.decks@[2].wf());
    assert(s.pyramid@[0].wf() && s.pyramid@[1].wf() && s.pyramid@[2].wf());
    assert(s.row(0).len() <= 5 && s.row(1).len() <= 4 && s.row(2).len() <= 3);
    assert(s.players@[0].reserved_cards@.len() <= 3 && s.players@[1].reserved_cards@.len() <= 3);
    assert forall|u: int| 0 <= u < 3 implies #[trigger] t.decks@[u].wf() by {
        assert(t.deck(u) == t.decks@[u]@);
    }
    assert forall|u: int| 0 <= u < 3 implies #[trigger] t.pyramid@[u].wf() by {
        assert(t.row(u) == t.pyramid@[u]@);
    }
    assert forall|u: int| 0 <= u < 3 implies #[trigger] t.row(u).len()
        <= CardTier::spec_from_index(u).spec_market_capacity() by {
    }
    assert forall|i: int| 0 <= i < 2 implies #[trigger] t.players@[i].reserved_cards@.len() <= 3 by {
    }
    assert forall|i: int| 0 <= i < t.royal_cards@.len() implies #[trigger] t.royal_cards@[i].id < 4 by {
        assert(s.royal_cards@[i].id < 4);
    }
}

proof fn lemma_board_take_keeps(s: GameState, a: Action, t: GameState)
    requires
        playable(s),
        a is TakeGoldToken || a is TakeSameColorToken,
        s.step_ok(a),
        step_post(s, a, t),
    ensures
        playable(t),
{
    let p = s.players@[s.cp()];
    let (r, c, g) = match a {
        Action::TakeGoldToken { r, c } => (r, c, GemType::Gold),
        Action::TakeSameColorToken { r, c } => (r, c, s.board.cell(r as int, c as int).unwrap()),
        _ => (0usize, 0usize, GemType::Gold),
    };
    let m0 = GameState { board: s.board.with_cell(r as int, c as int, None), ..s };
    let q = crate::game_state::player::PlayerState { tokens: p.tokens.shifted(g, 1), ..p };
    lemma_wf_same_lists(s, m0);
    lemma_core_with_player(m0, m0.with_player(s.cp(), q), q);
    lemma_after_check_invariant(m0.with_player(s.cp(), q));
}

proof fn lemma_steal_keeps(s: GameState, gem: GemType, t: GameState)
    requires
        playable(s),
        s.step_ok(Action::StealToken { gem }),
        step_post(s, Action::StealToken { gem }, t),
    ensures
        playable(t),
{
    let p = s.players@[s.cp()];
    let o = s.players@[s.op()];
    let m1 = s.with_player(s.op(), crate::game_state::player::PlayerState { tokens: o.tokens.shifted(gem, -1), ..o });
    let m = m1.with_player(s.cp(), crate::game_state::player::PlayerState { tokens: p.tokens.shifted(gem, 1), ..p });
    lemma_wf_same_lists(s, m);
    lemma_after_check_invariant(m);
}

proof fn lemma_discard_keeps(s: GameState, gem: GemType, t: GameState)
    requires
        playable(s),
        s.step_safe(Action::DiscardToken { gem }),
        s.step_ok(Action::DiscardToken { gem }),
        step_post(s, Action::DiscardToken { gem }, t),
    ensures
        playable(t),
{
    let p = s.players@[s.cp()];
    let m = GameState { bag: t.bag, ..s }.with_player(
        s.cp(),
        crate::game_state::player::PlayerState { tokens: p.tokens.shifted(gem, -1), ..p },
    );
    assert(m.bag@.len() <= 25);
    lemma_wf_frame(s, m);
    if m.players@[s.cp()].tokens.sum() > 10 {
        assert(t == m);
    } else {
        lemma_finish_turn_consistent(m);
        lemma_finish_turn_keeps(m);
        lemma_wf_same_lists(m, t);
    }
}

proof fn lemma_assign_joker_keeps(s: GameState, color: GemType, t: GameState)
    requires
        playable(s),
        s.step_ok(Action::AssignJokerColor { color }),
        step_post(s, Action::AssignJokerColor { color }, t),
    ensures
        playable(t),
{
    let p = s.players@[s.cp()];
    let q = t.players@[s.cp()];
    if let TurnPhase::CardAbilityJoker { pending_card } = s.phase {
        let p1 = crate::game_state::player::PlayerState { cards: q.cards, ..p.played(pending_card, Some(color)) };
        lemma_core_with_player(s, s.with_player(s.cp(), p1), p1);
        lemma_ability_invariant(
            s.with_player(s.cp(), p1),
            pending_card.ability,
            CardColor::spec_from_gem_type(color).unwrap(),
        );
    }
}

proof fn lemma_select_royal_keeps(s: GameState, royal_id: u8, t: GameState)
    requires
        playable(s),
        s.step_ok(Action::SelectRoyal { royal_id }),
        step_post(s, Action::SelectRoyal { royal_id }, t),
    ensures
        playable(t),
{
    let cp = s.cp();
    let p = s.players@[cp];
    let q = t.players@[cp];
    let idx = royal_index(s, royal_id);
    let i0 = choose|i: int| 0 <= i < s.royal_cards@.len() && #[trigger] s.royal_cards@[i].id == royal_id;
    super::rules::lemma_royal_index_found(s, royal_id, i0);
    let royal = s.royal_cards@[idx];
    let ms = p.spec_pending_milestones();
    let p1 = if ms.len() > 0 { p.marked(ms[0]) } else { p };
    let p2 = crate::game_state::player::PlayerState {
        royal_cards: q.royal_cards,
        total_points: (p1.total_points + royal.points) as u8,
        ..p1
    };
    let m = GameState { royal_cards: t.royal_cards, ..s }.with_player(cp, p2);
    lemma_royal_ability_keeps(m, royal.ability);
    assert forall|i: int| 0 <= i < m.royal_cards@.len() implies #[trigger] m.royal_cards@[i].id < 4 by {
        if i < idx {
            assert(m.royal_cards@[i] == s.royal_cards@[i]);
        } else {
            assert(m.royal_cards@[i] == s.royal_cards@[i + 1]);
        }
    }
    assert(s.royal_cards.wf());
    lemma_wf_frame(s, m);
    lemma_royal_ability_invariant(m, royal.ability);
}

/// The default payment takes no more of a kind than the player holds.
pub proof fn lemma_default_payment_held(p: crate::game_state::player::PlayerState, card: crate::model::card::JewelCard)
    requires
        p.spec_can_afford(card),
    ensures
        forall|i: int| 0 <= i < 7 ==> #[trigger] super::engine::default_payment(p, card).counts@[i] <= p.tokens.counts@[i],
        super::engine::default_payment(p, card).sum() <= p.tokens.sum(),
{
    let pay = super::engine::default_payment(p, card);
    p.lemma_shortfall_upto_monotone(card, 0, 6);
    assert forall|i: int| 0 <= i < 7 implies #[trigger] pay.counts@[i] <= p.tokens.counts@[i] by {
        if i < 6 {
            let g = GemType::spec_from_index(i).unwrap();
            crate::model::token::lemma_gem_index_roundtrip(g);
            let x = super::payment::pay_exact(p, card, i);
            assert(0 <= x <= p.tokens.counts@[i]);
            assert(pay.counts@[i] == x as u8);
        } else {
            assert(0 <= p.gold_needed(card) <= p.tokens.counts@[6]);
        }
    }
    p.tokens.lemma_minus_sum(pay);
    pay.lemma_count_le_sum(GemType::White);
}

proof fn lemma_purchase_keeps(s: GameState, from_reserved: bool, tier: CardTier, slot: usize, t: GameState)
    requires
        playable(s),
        s.step_safe(Action::PurchaseCard { from_reserved, tier, slot }),
        s.step_ok(Action::PurchaseCard { from_reserved, tier, slot }),
        purchase_post(s, from_reserved, tier, slot, t),
    ensures
        playable(t),
{
    let cp = s.cp();
    let p = s.players@[cp];
    let q = t.players@[cp];
    let card = super::engine::purchase_target(s, from_reserved, tier, slot).unwrap();
    let pay = super::engine::default_payment(p, card);
    lemma_default_payment_held(p, card);
    super::engine::lemma_payment_seq_len(pay, 7);
    let base = GameState { bag: t.bag, decks: t.decks, pyramid: t.pyramid, ..s };
    let p1 = crate::game_state::player::PlayerState {
        tokens: p.tokens.minus(pay),
        reserved_cards: q.reserved_cards,
        cards: q.cards,
        ..p
    };
    assert(t.row(0).len() <= s.row(0).len() && t.row(1).len() <= s.row(1).len() && t.row(2).len() <= s.row(2).len());
    assert(t.deck(0).len() <= s.deck(0).len() && t.deck(1).len() <= s.deck(1).len() && t.deck(2).len() <= s.deck(2).len());
    assert forall|i: int| 0 <= i < s.royal_cards@.len() implies #[trigger] s.royal_cards@[i].id < 4 by {
    }
    if card.color == CardColor::Joker {
        let m = base.with_player(cp, p1);
        assert(m.row(0) == t.row(0) && m.row(1) == t.row(1) && m.row(2) == t.row(2));
        assert(m.deck(0) == t.deck(0) && m.deck(1) == t.deck(1) && m.deck(2) == t.deck(2));
        lemma_wf_frame(s, m);
        lemma_wf_same_lists(m, t);
    } else {
        let m = base.with_player(cp, p1.played(card, None));
        assert(m.row(0) == t.row(0) && m.row(1) == t.row(1) && m.row(2) == t.row(2));
        assert(m.deck(0) == t.deck(0) && m.deck(1) == t.deck(1) && m.deck(2) == t.deck(2));
        lemma_ability_keeps(m, card.ability, card.color);
        lemma_wf_frame(s, m);
        lemma_ability_invariant(m, card.ability, card.color);
    }
}

/// Every accepted step keeps the bounds, the three scrolls, and a playable phase.
pub proof fn lemma_step_keeps_playable(s: GameState, a: Action, t: GameState)
    requires
        playable(s),
        s.step_safe(a),
        s.step_ok(a),
        step_post(s, a, t),
    ensures
        playable(t),
{
    match a {
        Action::SkipOptional => lemma_skip_keeps(s, t),
        Action::UsePrivilege { r, c } => lemma_use_privilege_keeps(s, r, c, t),
        Action::ReplenishBoard => lemma_replenish_keeps(s, t),
        Action::TakeTokens { count, positions } => lemma_take_tokens_keeps(s, count, positions, t),
        Action::ReserveCard { tier, slot } => lemma_reserve_keeps(s, tier, slot, t),
        Action::TakeGoldToken { .. } => lemma_board_take_keeps(s, a, t),
        Action::PurchaseCard { from_reserved, tier, slot } => lemma_purchase_keeps(s, from_reserved, tier, slot, t),
        Action::AssignJokerColor { color } => lemma_assign_joker_keeps(s, color, t),
        Action::TakeSameColorToken { .. } => lemma_board_take_keeps(s, a, t),
        Action::StealToken { gem } => lemma_steal_keeps(s, gem, t),
        Action::SelectRoyal { royal_id } => lemma_select_royal_keeps(s, royal_id, t),
        Action::DiscardToken { gem } => lemma_discard_keeps(s, gem, t),
    }
}

/// Tokens of kind `g` in the game: on the board, in the bag, and held by the players.
pub open spec fn token_total(s: GameState, g: GemType) -> int {
    s.board.tokens().count(g) + s.bag@.to_multiset().count(g) + s.players@[0].tokens.count(g)
        + s.players@[1].tokens.count(g)
}

/// Changing one count of a collection changes that kind only.
pub proof fn lemma_shifted_count(tc: crate::model::token::TokenCollection, g: GemType, d: int, h: GemType)
    requires
        0 <= tc.count(g) + d <= u8::MAX,
    ensures
        tc.shifted(g, d).count(h) == tc.count(h) + if h == g { d } else { 0 },
{
    crate::model::token::lemma_gem_index_roundtrip(g);
    crate::model::token::lemma_gem_index_roundtrip(h);
    if h != g {
        assert(h.spec_index() != g.spec_index());
    }
}

/// The check after an action moves no token.
proof fn lemma_after_check_tokens(s: GameState)
    ensures
        forall|g: GemType| #[trigger] token_total(after_check_state(s), g) == token_total(s, g),
{
    lemma_after_check_keeps(s);
}

/// Moving one token of kind `g` from the board cell (r, c) to the current player.
proof fn lemma_board_to_player_tokens(s: GameState, r: int, c: int, g: GemType, m: GameState)
    requires
        s.current_player < 2,
        in_range(r, c),
        s.board.cell(r, c) == Some(g),
        s.players@[s.cp()].tokens.count(g) + 1 <= u8::MAX,
        m.board == s.board.with_cell(r, c, None),
        m.bag == s.bag,
        m.players@[s.cp()].tokens == s.players@[s.cp()].tokens.shifted(g, 1),
        m.players@[s.op()].tokens == s.players@[s.op()].tokens,
    ensures
        forall|h: GemType| #[trigger] token_total(m, h) == token_total(s, h),
{
    s.board.lemma_take_cell_tokens(r, c, g);
    s.players@[s.cp()].tokens.lemma_count_le_sum(g);
    assert forall|h: GemType| #[trigger] token_total(m, h) == token_total(s, h) by {
        lemma_shifted_count(s.players@[s.cp()].tokens, g, 1, h);
    }
}

proof fn lemma_take_tokens_conserves(s: GameState, count: u8, positions: [(usize, usize); 3], t: GameState)
    requires
        s.step_safe(Action::TakeTokens { count, positions }),
        s.step_ok(Action::TakeTokens { count, positions }),
        step_post(s, Action::TakeTokens { count, positions }, t),
    ensures
        forall|g: GemType| #[trigger] token_total(t, g) == token_total(s, g),
{
    broadcast use vstd::seq_lib::group_to_multiset_ensures;

    let p = s.players@[s.cp()];
    let (b, ok, taken) = super::engine::take_run(s.board, positions, count as int, 0, Seq::empty());
    super::engine::lemma_take_run_tokens(s.board, positions, count as int, 0, Seq::empty());
    super::engine::lemma_add_taken(p.tokens, taken);
    let m = GameState { board: b, ..s }.with_player(
        s.cp(),
        crate::game_state::player::PlayerState { tokens: super::engine::add_taken(p.tokens, taken), ..p },
    );
    assert(Seq::<GemType>::empty().to_multiset() =~= vstd::multiset::Multiset::empty());
    assert(s.board.tokens().add(vstd::multiset::Multiset::empty()) =~= s.board.tokens());
    assert forall|g: GemType| #[trigger] token_total(m, g) == token_total(s, g) by {
        assert(b.tokens().add(taken.to_multiset()).count(g) == s.board.tokens().count(g));
    }
    if super::engine::take_penalty(taken) {
        let m2 = m.after_grant(s.op());
        assert(m2.players@[0].tokens == m.players@[0].tokens && m2.players@[1].tokens == m.players@[1].tokens);
        lemma_after_check_tokens(m2);
    } else {
        lemma_after_check_tokens(m);
    }
}

#[verifier::spinoff_prover]
#[verifier::rlimit(40)]
proof fn lemma_purchase_conserves(s: GameState, from_reserved: bool, tier: CardTier, slot: usize, t: GameState)
    requires
        s.step_safe(Action::PurchaseCard { from_reserved, tier, slot }),
        s.step_ok(Action::PurchaseCard { from_reserved, tier, slot }),
        purchase_post(s, from_reserved, tier, slot, t),
    ensures
        forall|g: GemType| #[trigger] token_total(t, g) == token_total(s, g),
{
    broadcast use vstd::seq_lib::group_to_multiset_ensures;

    let cp = s.cp();
    let p = s.players@[cp];
    let q = t.players@[cp];
    let card = super::engine::purchase_target(s, from_reserved, tier, slot).unwrap();
    let pay = super::engine::default_payment(p, card);
    lemma_default_payment_held(p, card);
    super::engine::lemma_payment_seq_counts(pay, 7);
    vstd::seq_lib::lemma_multiset_commutative(s.bag@, super::engine::payment_seq(pay, 7));
    let base = GameState { bag: t.bag, decks: t.decks, pyramid: t.pyramid, ..s };
    let p1 = crate::game_state::player::PlayerState {
        tokens: p.tokens.minus(pay),
        reserved_cards: q.reserved_cards,
        cards: q.cards,
        ..p
    };
    let m = if card.color == CardColor::Joker {
        base.with_player(cp, p1)
    } else {
        base.with_player(cp, p1.played(card, None))
    };
    assert forall|g: GemType| #[trigger] token_total(m, g) == token_total(s, g) by {
        crate::model::token::lemma_gem_index_roundtrip(g);
        assert(m.players@[cp].tokens == p.tokens.minus(pay));
        assert(p.tokens.minus(pay).count(g) == p.tokens.count(g) - pay.count(g));
    }
    if card.color != CardColor::Joker {
        lemma_ability_keeps(m, card.ability, card.color);
        assert(t.players@[0].tokens == m.players@[0].tokens && t.players@[1].tokens == m.players@[1].tokens);
    }
}

proof fn lemma_use_privilege_conserves(s: GameState, r: usize, c: usize, t: GameState)
    requires
        s.step_safe(Action::UsePrivilege { r, c }),
        s.step_ok(Action::UsePrivilege { r, c }),
        step_post(s, Action::UsePrivilege { r, c }, t),
    ensures
        forall|g: GemType| #[trigger] token_total(t, g) == token_total(s, g),
{
    let g = s.board.cell(r as int, c as int).unwrap();
    s.players@[s.cp()].tokens.lemma_count_le_sum(g);
    lemma_board_to_player_tokens(s, r as int, c as int, g, t);
}

proof fn lemma_replenish_conserves(s: GameState, t: GameState)
    requires
        s.step_safe(Action::ReplenishBoard),
        s.step_ok(Action::ReplenishBoard),
        step_post(s, Action::ReplenishBoard, t),
    ensures
        forall|g: GemType| #[trigger] token_total(t, g) == token_total(s, g),
{
    let sh = super::engine::replenish_order(s);
    s.board.lemma_well_shaped();
    crate::game_state::board::lemma_spiral_fill_conserves(s.board.cells(), sh, 0);
    assert forall|g: GemType| #[trigger] token_total(t, g) == token_total(s, g) by {
        assert(t.board.tokens().add(t.bag@.to_multiset()).count(g) == s.board.tokens().add(
            s.bag@.to_multiset(),
        ).count(g));
    }
}

proof fn lemma_board_take_conserves(s: GameState, a: Action, t: GameState)
    requires
        s.step_safe(a),
        a is TakeGoldToken || a is TakeSameColorToken,
        s.step_ok(a),
        step_post(s, a, t),
    ensures
        forall|g: GemType| #[trigger] token_total(t, g) == token_total(s, g),
{
    let p = s.players@[s.cp()];
    let (r, c, g) = match a {
        Action::TakeGoldToken { r, c } => (r, c, GemType::Gold),
        Action::TakeSameColorToken { r, c } => (r, c, s.board.cell(r as int, c as int).unwrap()),
        _ => (0usize, 0usize, GemType::Gold),
    };
    let m = GameState { board: s.board.with_cell(r as int, c as int, None), ..s }.with_player(
        s.cp(),
        crate::game_state::player::PlayerState { tokens: p.tokens.shifted(g, 1), ..p },
    );
    p.tokens.lemma_count_le_sum(g);
    lemma_board_to_player_tokens(s, r as int, c as int, g, m);
    lemma_after_check_tokens(m);
}

proof fn lemma_assign_joker_conserves(s: GameState, color: GemType, t: GameState)
    requires
        s.step_safe(Action::AssignJokerColor { color }),
        s.step_ok(Action::AssignJokerColor { color }),
        step_post(s, Action::AssignJokerColor { color }, t),
    ensures
        forall|g: GemType| #[trigger] token_total(t, g) == token_total(s, g),
{
    let cp = s.cp();
    let p = s.players@[cp];
    if let TurnPhase::CardAbilityJoker { pending_card } = s.phase {
        let q = t.players@[cp];
        let m = s.with_player(
            cp,
            crate::game_state::player::PlayerState { cards: q.cards, ..p.played(pending_card, Some(color)) },
        );
        lemma_ability_keeps(m, pending_card.ability, CardColor::spec_from_gem_type(color).unwrap());
        assert(t.players@[0].tokens == m.players@[0].tokens && t.players@[1].tokens == m.players@[1].tokens);
    }
}

proof fn lemma_steal_conserves(s: GameState, gem: GemType, t: GameState)
    requires
        s.step_safe(Action::StealToken { gem }),
        s.step_ok(Action::StealToken { gem }),
        step_post(s, Action::StealToken { gem }, t),
    ensures
        forall|g: GemType| #[trigger] token_total(t, g) == token_total(s, g),
{
    let cp = s.cp();
    let p = s.players@[cp];
    let o = s.players@[s.op()];
    let m = s.with_player(s.op(), crate::game_state::player::PlayerState { tokens: o.tokens.shifted(gem, -1), ..o }).with_player(
        cp,
        crate::game_state::player::PlayerState { tokens: p.tokens.shifted(gem, 1), ..p },
    );
    p.tokens.lemma_count_le_sum(gem);
    assert forall|h: GemType| #[trigger] token_total(m, h) == token_total(s, h) by {
        lemma_shifted_count(o.tokens, gem, -1, h);
        lemma_shifted_count(p.tokens, gem, 1, h);
    }
    lemma_after_check_tokens(m);
}

proof fn lemma_select_royal_conserves(s: GameState, royal_id: u8, t: GameState)
    requires
        s.step_safe(Action::SelectRoyal { royal_id }),
        s.step_ok(Action::SelectRoyal { royal_id }),
        step_post(s, Action::SelectRoyal { royal_id }, t),
    ensures
        forall|g: GemType| #[trigger] token_total(t, g) == token_total(s, g),
{
    let cp = s.cp();
    let p = s.players@[cp];
    let idx = royal_index(s, royal_id);
    let royal = s.royal_cards@[idx];
    let q = t.players@[cp];
    let ms = p.spec_pending_milestones();
    let p1 = if ms.len() > 0 { p.marked(ms[0]) } else { p };
    let p2 = crate::game_state::player::PlayerState {
        royal_cards: q.royal_cards,
        total_points: (p1.total_points + royal.points) as u8,
        ..p1
    };
    let m = GameState { royal_cards: t.royal_cards, ..s }.with_player(cp, p2);
    lemma_royal_ability_keeps(m, royal.ability);
    assert(t.players@[0].tokens == m.players@[0].tokens && t.players@[1].tokens == m.players@[1].tokens);
}

proof fn lemma_discard_conserves(s: GameState, gem: GemType, t: GameState)
    requires
        s.step_safe(Action::DiscardToken { gem }),
        s.step_ok(Action::DiscardToken { gem }),
        step_post(s, Action::DiscardToken { gem }, t),
    ensures
        forall|g: GemType| #[trigger] token_total(t, g) == token_total(s, g),
{
    broadcast use vstd::seq_lib::group_to_multiset_ensures;

    let cp = s.cp();
    let p = s.players@[cp];
    let m = GameState { bag: t.bag, ..s }.with_player(
        cp,
        crate::game_state::player::PlayerState { tokens: p.tokens.shifted(gem, -1), ..p },
    );
    assert forall|h: GemType| #[trigger] token_total(m, h) == token_total(s, h) by {
        lemma_shifted_count(p.tokens, gem, -1, h);
    }
    lemma_finish_turn_keeps(m);
}

/// No accepted step creates or destroys a token: of each kind, the board, the bag and the
/// two players hold together as many after the step as before.
pub proof fn lemma_step_conserves_tokens(s: GameState, a: Action, t: GameState)
    requires
        s.step_safe(a),
        s.step_ok(a),
        step_post(s, a, t),
    ensures
        forall|g: GemType| #[trigger] token_total(t, g) == token_total(s, g),
{
    match a {
        Action::SkipOptional => lemma_after_check_tokens(s),
        Action::UsePrivilege { r, c } => lemma_use_privilege_conserves(s, r, c, t),
        Action::ReplenishBoard => lemma_replenish_conserves(s, t),
        Action::TakeTokens { count, positions } => lemma_take_tokens_conserves(s, count, positions, t),
        Action::ReserveCard { .. } => {},
        Action::TakeGoldToken { .. } => lemma_board_take_conserves(s, a, t),
        Action::PurchaseCard { from_reserved, tier, slot } => lemma_purchase_conserves(s, from_reserved, tier, slot, t),
        Action::AssignJokerColor { color } => lemma_assign_joker_conserves(s, color, t),
        Action::TakeSameColorToken { .. } => lemma_board_take_conserves(s, a, t),
        Action::StealToken { gem } => lemma_steal_conserves(s, gem, t),
        Action::SelectRoyal { royal_id } => lemma_select_royal_conserves(s, royal_id, t),
        Action::DiscardToken { gem } => lemma_discard_conserves(s, gem, t),
    }
}

/// Every accepted step keeps the invariant of a game (see `game_invariant`). With
/// `lemma_legal_action_exists`, a game in progress never reaches a state without a legal
/// move, and no token ever appears or disappears.
pub proof fn lemma_step_keeps_invariant(s: GameState, a: Action, t: GameState)
    requires
        game_invariant(s),
        s.step_safe(a),
        s.step_ok(a),
        step_post(s, a, t),
    ensures
        game_invariant(t),
{
    lemma_step_keeps_playable(s, a, t);
    lemma_step_conserves_tokens(s, a, t);
}

/// Tokens of the first `n` kinds in a multiset of tokens.
pub open spec fn kinds_prefix(m: vstd::multiset::Multiset<GemType>, n: int) -> int
    decreases n,
{
    if n <= 0 {
        0
    } else {
        kinds_prefix(m, n - 1) + m.count(GemType::spec_from_index(n - 1).unwrap())
    }
}

/// Adding a token adds one to the count of the kinds up to it.
proof fn lemma_kinds_insert(m: vstd::multiset::Multiset<GemType>, x: GemType, n: int)
    requires
        0 <= n <= 7,
    ensures
        kinds_prefix(m.insert(x), n) == kinds_prefix(m, n) + if x.spec_index() < n { 1int } else { 0int },
    decreases n,
{
    broadcast use vstd::multiset::group_multiset_axioms;

    crate::model::token::lemma_gem_index_roundtrip(x);
    if n > 0 {
        lemma_kinds_insert(m, x, n - 1);
    }
}

/// A list of tokens holds as many tokens as its kinds count.
proof fn lemma_seq_kinds(s: Seq<GemType>)
    ensures
        kinds_prefix(s.to_multiset(), 7) == s.len(),
    decreases s.len(),
{
    broadcast use vstd::seq_lib::group_to_multiset_ensures;
    broadcast use vstd::multiset::group_multiset_axioms;

    if s.len() == 0 {
        assert(kinds_prefix(s.to_multiset(), 7) == 0) by {
            reveal_with_fuel(kinds_prefix, 8);
        }
    } else {
        lemma_seq_kinds(s.drop_last());
        assert(s =~= s.drop_last().push(s.last()));
        lemma_kinds_insert(s.drop_last().to_multiset(), s.last(), 7);
        crate::model::token::lemma_gem_index_roundtrip(s.last());
    }
}

/// The bag and one player hold, kind by kind, no more than the whole game.
proof fn lemma_bag_and_player(s: GameState, pl: int, n: int)
    requires
        tokens_conserved(s),
        0 <= pl < 2,
        0 <= n <= 7,
    ensures
        kinds_prefix(s.bag@.to_multiset(), n) + crate::model::token::sum_prefix(s.players@[pl].tokens.counts@, n)
            <= kinds_prefix(crate::game_state::state::initial_tokens().to_multiset(), n),
    decreases n,
{
    if n > 0 {
        lemma_bag_and_player(s, pl, n - 1);
        let g = GemType::spec_from_index(n - 1).unwrap();
        assert(token_total(s, g) == crate::game_state::state::initial_tokens().to_multiset().count(g));
        assert(g.spec_index() == n - 1);
    }
}

/// While a player discards, the bag has room for a token, and the player holds no
/// more than the game's 25 tokens.
pub proof fn lemma_discard_room(s: GameState)
    requires
        game_invariant(s),
    ensures
        s.players@[s.cp()].tokens.sum() <= 25,
        s.phase == TurnPhase::DiscardTokens ==> s.bag@.len() < 25,
{
    lemma_bag_and_player(s, s.cp(), 7);
    lemma_seq_kinds(s.bag@);
    lemma_seq_kinds(crate::game_state::state::initial_tokens());
    assert(crate::game_state::state::initial_tokens().len() == 25);
}

} // verus!
