use vstd::prelude::*;

use crate::game_state::board::{in_range, is_line_at, Board};
use crate::game_state::phase::TurnPhase;
use crate::game_state::player::PlayerState;
use crate::game_state::state::GameState;
use super::engine::lemma_valid_line_take_run;
use crate::model::action::Action;
use crate::model::card::{CardColor, CardTier, JewelCard};
use crate::model::token::GemType;

verus! {

broadcast use {
    vstd::seq_lib::lemma_seq_contains_after_push,
    vstd::seq_lib::lemma_seq_empty_contains_nothing,
};

/// `count` and `positions` name a line of one to three adjacent non-gold tokens.
pub open spec fn is_token_line(b: Board, count: int, positions: [(usize, usize); 3]) -> bool {
    exists|d: int, r: int, c: int|
        #![trigger b.line_valid(count, d, r, c)]
        b.line_valid(count, d, r, c) && is_line_at(count, positions, d, r, c)
}

/// The player may buy `card`: a joker needs a bonus to join, and the price must be covered.
pub open spec fn can_buy(p: PlayerState, card: JewelCard) -> bool {
    &&& card.color == CardColor::Joker ==> p.spec_has_any_bonus()
    &&& p.spec_can_afford(card)
}

/// The board can be refilled: not yet this turn, tokens in the bag, room on the board.
pub open spec fn can_replenish(s: GameState) -> bool {
    &&& !s.replenished_this_turn
    &&& s.bag@.len() > 0
    &&& s.board.spec_has_empty_slot()
}

/// A move of the optional phase: spend a privilege on a non-gold token; refill the board
/// when it can be refilled; or skip, unless no mandatory move exists and the board can be
/// refilled (then it must be).
pub open spec fn optional_choice(s: GameState, a: Action) -> bool {
    let p = s.players@[s.cp()];
    match a {
        Action::SkipOptional => (exists|b: Action| #[trigger] mandatory_choice(s, b)) || !can_replenish(s),
        Action::UsePrivilege { r, c } => p.privileges > 0 && s.board.takeable(r as int, c as int),
        Action::ReplenishBoard => can_replenish(s),
        _ => false,
    }
}

/// A mandatory move: take a line of tokens; reserve a card (gold on the board, fewer than
/// three reserved) from a market slot or blind from a non-empty deck; or buy a market card
/// or one of one's reserved cards (named with its own level).
pub open spec fn mandatory_choice(s: GameState, a: Action) -> bool {
    let p = s.players@[s.cp()];
    match a {
        Action::TakeTokens { count, positions } => is_token_line(s.board, count as int, positions),
        Action::ReserveCard { tier, slot } => {
            &&& s.board.spec_has_gold()
            &&& p.reserved_cards@.len() < 3
            &&& match slot {
                Some(sl) => sl < s.row(tier.spec_index()).len(),
                None => s.deck(tier.spec_index()).len() > 0,
            }
        },
        Action::PurchaseCard { from_reserved, tier, slot } => if from_reserved {
            &&& slot < p.reserved_cards@.len()
            &&& tier == p.reserved_cards@[slot as int].card.tier
            &&& can_buy(p, p.reserved_cards@[slot as int].card)
        } else {
            &&& slot < s.row(tier.spec_index()).len()
            &&& can_buy(p, s.row(tier.spec_index())[slot as int])
        },
        _ => false,
    }
}

/// The move offered when no mandatory move exists: refill the board if possible,
/// otherwise give up the mandatory action.
pub open spec fn mandatory_fallback(s: GameState) -> Action {
    if can_replenish(s) {
        Action::ReplenishBoard
    } else {
        Action::SkipOptional
    }
}

/// `a` is one of the moves the rules offer in state `s`.
pub open spec fn is_legal(s: GameState, a: Action) -> bool {
    let p = s.players@[s.cp()];
    match s.phase {
        TurnPhase::OptionalActions => optional_choice(s, a),
        TurnPhase::MandatoryAction => mandatory_choice(s, a) || ((forall|b: Action|
            !#[trigger] mandatory_choice(s, b)) && a == mandatory_fallback(s)),
        TurnPhase::CardAbilityJoker { .. } => match a {
            Action::AssignJokerColor { color } => color.spec_is_basic() && p.bonuses@[color.spec_index()]
                > 0,
            _ => false,
        },
        TurnPhase::CardAbilitySameColor { color } => match a {
            Action::TakeSameColorToken { r, c } => in_range(r as int, c as int) && s.board.cell(
                r as int,
                c as int,
            ) == Some(color),
            _ => false,
        },
        TurnPhase::CardAbilitySteal => match a {
            Action::StealToken { gem } => gem != GemType::Gold && s.players@[s.op()].tokens.count(gem)
                > 0,
            _ => false,
        },
        TurnPhase::SelectRoyalCard => match a {
            Action::SelectRoyal { royal_id } => exists|i: int|
                0 <= i < s.royal_cards@.len() && #[trigger] s.royal_cards@[i].id == royal_id,
            _ => false,
        },
        TurnPhase::DiscardTokens => match a {
            Action::DiscardToken { gem } => p.tokens.count(gem) > 0,
            _ => false,
        },
        TurnPhase::SelectReserveGold => match a {
            Action::TakeGoldToken { r, c } => in_range(r as int, c as int) && s.board.cell(
                r as int,
                c as int,
            ) == Some(GemType::Gold),
            _ => false,
        },
        TurnPhase::GameOver(_) => false,
    }
}

impl GameState {
    /// The phase offers purchases, directly or after the optional actions.
    pub open spec fn may_buy(&self) -> bool {
        self.phase == TurnPhase::OptionalActions || self.phase == TurnPhase::MandatoryAction
    }

    /// The gold the current player would need for any card on offer to them fits in a
    /// `u8` (the engine sums it in one).
    pub open spec fn price_sums_fit(&self) -> bool {
        let p = self.players@[self.cp()];
        &&& forall|t: int, i: int|
            0 <= t < 3 && 0 <= i < self.row(t).len() ==> p.gold_needed(#[trigger] self.row(t)[i])
                <= u8::MAX
        &&& forall|i: int|
            0 <= i < p.reserved_cards@.len() ==> p.gold_needed(
                #[trigger] p.reserved_cards@[i].card,
            ) <= u8::MAX
    }
}

/// Generates the moves the rules allow in a state.
pub struct RuleEngine;

impl RuleEngine {
    /// Every move the rules allow in `state`, and no other.
    pub fn legal_actions(state: &GameState) -> (r: Vec<Action>)
        requires
            state.current_player < 2,
            state.lists_fit(),
            state.may_buy() ==> state.price_sums_fit(),
        ensures
            forall|a: Action| r@.contains(a) <==> is_legal(*state, a),
            (state.phase == TurnPhase::SelectRoyalCard ==> royal_ids_distinct(*state)) ==> r@.no_duplicates(),
    {
        match state.phase {
            TurnPhase::OptionalActions => Self::legal_optional_actions(state),
            TurnPhase::MandatoryAction => Self::legal_mandatory_actions(state),
            TurnPhase::CardAbilityJoker { .. } => Self::legal_joker_actions(state),
            TurnPhase::CardAbilitySameColor { color } => Self::legal_same_color_actions(state, color),
            TurnPhase::CardAbilitySteal => Self::legal_steal_actions(state),
            TurnPhase::SelectRoyalCard => Self::legal_royal_actions(state),
            TurnPhase::DiscardTokens => Self::legal_discard_actions(state),
            TurnPhase::SelectReserveGold => Self::legal_reserve_gold_actions(state),
            TurnPhase::GameOver(_) => Vec::new(),
        }
    }

    fn legal_optional_actions(state: &GameState) -> (r: Vec<Action>)
        requires
            state.current_player < 2,
            state.lists_fit(),
            state.price_sums_fit(),
        ensures
            forall|a: Action| r@.contains(a) <==> optional_choice(*state, a),
            r@.no_duplicates(),
    {
        let player = &state.players[state.current_player];
        let can_refill = Self::replenish_possible(state);
        let mandatory = Self::mandatory_choices(state);
        let skip_allowed = mandatory.len() > 0 || !can_refill;
        proof {
            if mandatory@.len() > 0 {
                assert(mandatory@.contains(mandatory@[0]));
                assert(mandatory_choice(*state, mandatory@[0]));
            } else {
                assert forall|b: Action| !#[trigger] mandatory_choice(*state, b) by {
                    assert(!mandatory@.contains(b));
                }
            }
        }
        let mut actions: Vec<Action> = Vec::new();
        if skip_allowed {
            actions.push(Action::SkipOptional);
        }
        if player.privileges > 0 {
            let mut k: usize = 0;
            while k < 25
                invariant
                    0 <= k <= 25,
                    *player == state.players@[state.cp()],
                    player.privileges > 0,
                    forall|a: Action|
                        actions@.contains(a) <==> ((a == Action::SkipOptional && skip_allowed) || (a matches Action::UsePrivilege {
                            r,
                            c,
                        } && r * 5 + c < k && state.board.takeable(r as int, c as int))),
                    actions@.no_duplicates(),
                decreases 25 - k,
            {
                let r = k / 5;
                let c = k % 5;
                if let Some(gem) = state.board.get(r, c) {
                    if !gem.is_gold() {
                        proof {
                            assert(r * 5 + c == k) by (nonlinear_arith)
                                requires
                                    r == k / 5,
                                    c == k % 5,
                            ;
                            assert(!actions@.contains(Action::UsePrivilege { r, c }));
                        }
                        actions.push(Action::UsePrivilege { r, c });
                    }
                }
                proof {
                    assert forall|a: Action|
                        actions@.contains(a) <==> ((a == Action::SkipOptional && skip_allowed) || (a matches Action::UsePrivilege {
                            r,
                            c,
                        } && r * 5 + c < k + 1 && state.board.takeable(r as int, c as int))) by {
                        if let Action::UsePrivilege { r: rr, c: cc } = a {
                            if rr * 5 + cc == k && cc < 5 {
                                assert(rr == r && cc == c) by (nonlinear_arith)
                                    requires
                                        rr * 5 + cc == k,
                                        cc < 5,
                                        r == k / 5,
                                        c == k % 5,
                                ;
                            }
                        }
                    }
                }
                k = k + 1;
            }
        }
        if can_refill {
            proof {
                if skip_allowed {
                    assert(actions@.contains(Action::SkipOptional));
                }
                assert(!actions@.contains(Action::ReplenishBoard));
            }
            actions.push(Action::ReplenishBoard);
        }
        proof {
            assert forall|a: Action| actions@.contains(a) <==> optional_choice(*state, a) by {
                if let Action::UsePrivilege { r, c } = a {
                    if state.board.takeable(r as int, c as int) {
                        assert(r * 5 + c < 25);
                    }
                }
            }
        }
        actions
    }
}

impl RuleEngine {
    fn legal_joker_actions(state: &GameState) -> (r: Vec<Action>)
        requires
            state.current_player < 2,
        ensures
            forall|a: Action|
                r@.contains(a) <==> (a matches Action::AssignJokerColor { color } && color.spec_is_basic()
                    && state.players@[state.cp()].bonuses@[color.spec_index()] > 0),
            r@.no_duplicates(),
    {
        let player = &state.players[state.current_player];
        let mut actions: Vec<Action> = Vec::new();
        let mut i: usize = 0;
        while i < 5
            invariant
                0 <= i <= 5,
                *player == state.players@[state.cp()],
                forall|a: Action|
                    actions@.contains(a) <==> (a matches Action::AssignJokerColor { color }
                        && color.spec_index() < i && player.bonuses@[color.spec_index()] > 0),
                actions@.no_duplicates(),
            decreases 5 - i,
        {
            let gem = GemType::from_index(i).unwrap();
            if player.bonuses[i] > 0 {
                proof {
                    assert(!actions@.contains(Action::AssignJokerColor { color: gem }));
                }
                actions.push(Action::AssignJokerColor { color: gem });
            }
            i = i + 1;
        }
        actions
    }

    fn legal_same_color_actions(state: &GameState, target_color: GemType) -> (r: Vec<Action>)
        ensures
            forall|a: Action|
                r@.contains(a) <==> (a matches Action::TakeSameColorToken { r, c } && in_range(
                    r as int,
                    c as int,
                ) && state.board.cell(r as int, c as int) == Some(target_color)),
            r@.no_duplicates(),
    {
        let mut actions: Vec<Action> = Vec::new();
        let mut k: usize = 0;
        while k < 25
            invariant
                0 <= k <= 25,
                forall|a: Action|
                    actions@.contains(a) <==> (a matches Action::TakeSameColorToken { r, c } && r * 5 + c
                        < k && in_range(r as int, c as int) && state.board.cell(r as int, c as int)
                        == Some(target_color)),
                actions@.no_duplicates(),
            decreases 25 - k,
        {
            let r = k / 5;
            let c = k % 5;
            let cell = state.board.get(r, c);
            if cell == Some(target_color) {
                proof {
                    assert(r * 5 + c == k);
                    assert(!actions@.contains(Action::TakeSameColorToken { r, c }));
                }
                actions.push(Action::TakeSameColorToken { r, c });
            }
            proof {
                assert forall|a: Action|
                    actions@.contains(a) <==> (a matches Action::TakeSameColorToken { r, c } && r * 5 + c
                        < k + 1 && in_range(r as int, c as int) && state.board.cell(r as int, c as int)
                        == Some(target_color)) by {
                    if let Action::TakeSameColorToken { r: rr, c: cc } = a {
                        if rr * 5 + cc == k && cc < 5 {
                            assert(rr == r && cc == c) by (nonlinear_arith)
                                requires
                                    rr * 5 + cc == k,
                                    cc < 5,
                                    r == k / 5,
                                    c == k % 5,
                            ;
                        }
                    }
                }
            }
            k = k + 1;
        }
        actions
    }

    fn legal_reserve_gold_actions(state: &GameState) -> (r: Vec<Action>)
        ensures
            forall|a: Action|
                r@.contains(a) <==> (a matches Action::TakeGoldToken { r, c } && in_range(r as int, c as int)
                    && state.board.cell(r as int, c as int) == Some(GemType::Gold)),
            r@.no_duplicates(),
    {
        let mut actions: Vec<Action> = Vec::new();
        let mut k: usize = 0;
        while k < 25
            invariant
                0 <= k <= 25,
                forall|a: Action|
                    actions@.contains(a) <==> (a matches Action::TakeGoldToken { r, c } && r * 5 + c < k
                        && in_range(r as int, c as int) && state.board.cell(r as int, c as int) == Some(
                        GemType::Gold,
                    )),
                actions@.no_duplicates(),
            decreases 25 - k,
        {
            let r = k / 5;
            let c = k % 5;
            let cell = state.board.get(r, c);
            if cell == Some(GemType::Gold) {
                proof {
                    assert(r * 5 + c == k);
                    assert(!actions@.contains(Action::TakeGoldToken { r, c }));
                }
                actions.push(Action::TakeGoldToken { r, c });
            }
            proof {
                assert forall|a: Action|
                    actions@.contains(a) <==> (a matches Action::TakeGoldToken { r, c } && r * 5 + c < k + 1
                        && in_range(r as int, c as int) && state.board.cell(r as int, c as int) == Some(
                        GemType::Gold,
                    )) by {
                    if let Action::TakeGoldToken { r: rr, c: cc } = a {
                        if rr * 5 + cc == k && cc < 5 {
                            assert(rr == r && cc == c) by (nonlinear_arith)
                                requires
                                    rr * 5 + cc == k,
                                    cc < 5,
                                    r == k / 5,
                                    c == k % 5,
                            ;
                        }
                    }
                }
            }
            k = k + 1;
        }
        actions
    }

    fn legal_steal_actions(state: &GameState) -> (r: Vec<Action>)
        requires
            state.current_player < 2,
        ensures
            forall|a: Action|
                r@.contains(a) <==> (a matches Action::StealToken { gem } && gem != GemType::Gold
                    && state.players@[state.op()].tokens.count(gem) > 0),
            r@.no_duplicates(),
    {
        let opponent = &state.players[state.opponent_idx()];
        let mut actions: Vec<Action> = Vec::new();
        let mut i: usize = 0;
        while i < 6
            invariant
                0 <= i <= 6,
                *opponent == state.players@[state.op()],
                forall|a: Action|
                    actions@.contains(a) <==> (a matches Action::StealToken { gem } && gem.spec_index() < i
                        && opponent.tokens.count(gem) > 0),
                actions@.no_duplicates(),
            decreases 6 - i,
        {
            let gem = GemType::from_index(i).unwrap();
            if opponent.tokens.get(gem) > 0 {
                proof {
                    assert(!actions@.contains(Action::StealToken { gem }));
                }
                actions.push(Action::StealToken { gem });
            }
            i = i + 1;
        }
        actions
    }

    fn legal_discard_actions(state: &GameState) -> (r: Vec<Action>)
        requires
            state.current_player < 2,
        ensures
            forall|a: Action|
                r@.contains(a) <==> (a matches Action::DiscardToken { gem } && state.players@[state.cp()].tokens.count(gem) > 0),
            r@.no_duplicates(),
    {
        let player = &state.players[state.current_player];
        let mut actions: Vec<Action> = Vec::new();
        let mut i: usize = 0;
        while i < 7
            invariant
                0 <= i <= 7,
                *player == state.players@[state.cp()],
                forall|a: Action|
                    actions@.contains(a) <==> (a matches Action::DiscardToken { gem } && gem.spec_index() < i
                        && player.tokens.count(gem) > 0),
                actions@.no_duplicates(),
            decreases 7 - i,
        {
            let gem = GemType::from_index(i).unwrap();
            if player.tokens.get(gem) > 0 {
                proof {
                    assert(!actions@.contains(Action::DiscardToken { gem }));
                }
                actions.push(Action::DiscardToken { gem });
            }
            i = i + 1;
        }
        actions
    }

    fn legal_royal_actions(state: &GameState) -> (r: Vec<Action>)
        ensures
            forall|a: Action|
                r@.contains(a) <==> (a matches Action::SelectRoyal { royal_id } && exists|i: int|
                    0 <= i < state.royal_cards@.len() && #[trigger] state.royal_cards@[i].id == royal_id),
            royal_ids_distinct(*state) ==> r@.no_duplicates(),
    {
        let n = state.royal_cards.len();
        let mut actions: Vec<Action> = Vec::new();
        let mut i: usize = 0;
        while i < n
            invariant
                0 <= i <= n,
                n == state.royal_cards@.len(),
                forall|a: Action|
                    actions@.contains(a) <==> (a matches Action::SelectRoyal { royal_id } && exists|j: int|
                        0 <= j < i && #[trigger] state.royal_cards@[j].id == royal_id),
                actions@.len() == i,
                forall|j: int| 0 <= j < i ==> #[trigger] actions@[j] == (Action::SelectRoyal { royal_id: state.royal_cards@[j].id }),
            decreases n - i,
        {
            let royal = state.royal_cards.at(i);
            actions.push(Action::SelectRoyal { royal_id: royal.id });
            proof {
                assert forall|a: Action|
                    actions@.contains(a) <==> (a matches Action::SelectRoyal { royal_id } && exists|j: int|
                        0 <= j < i + 1 && #[trigger] state.royal_cards@[j].id == royal_id) by {
                    if let Action::SelectRoyal { royal_id } = a {
                        if royal_id == royal.id {
                            assert(state.royal_cards@[i as int].id == royal_id);
                        }
                    }
                }
            }
            i = i + 1;
        }
        proof {
            if royal_ids_distinct(*state) {
                assert forall|x: int, y: int| 0 <= x < actions@.len() && 0 <= y < actions@.len() && x != y implies actions@[x]
                    != actions@[y] by {
                    assert(state.royal_cards@[x].id != state.royal_cards@[y].id);
                }
            }
        }
        actions
    }
}

/// No two royal cards on offer share an id.
pub open spec fn royal_ids_distinct(s: GameState) -> bool {
    forall|i: int, j: int|
        0 <= i < s.royal_cards@.len() && 0 <= j < s.royal_cards@.len() && i != j ==> #[trigger] s.royal_cards@[i].id
            != #[trigger] s.royal_cards@[j].id
}

/// The coordinates of a line are determined by its start, direction and length.
proof fn lemma_line_positions_unique(
    count: int,
    p1: [(usize, usize); 3],
    p2: [(usize, usize); 3],
    d: int,
    r: int,
    c: int,
)
    requires
        is_line_at(count, p1, d, r, c),
        is_line_at(count, p2, d, r, c),
    ensures
        p1 == p2,
{
    assert(p1@[0] == p2@[0]);
    assert(p1@[1] == p2@[1]);
    assert(p1@[2] == p2@[2]);
    assert(p1 =~= p2);
}

/// A reservation from `slot` (or blind when `None`) names an existing card.
pub open spec fn reserve_slot_ok(s: GameState, tier: CardTier, slot: Option<usize>) -> bool {
    match slot {
        Some(sl) => sl < s.row(tier.spec_index()).len(),
        None => s.deck(tier.spec_index()).len() > 0,
    }
}

impl RuleEngine {
    /// Appends a take for every line of one to three adjacent non-gold tokens.
    fn push_line_actions(state: &GameState, actions: &mut Vec<Action>)
        ensures
            forall|a: Action|
                final(actions)@.contains(a) <==> (old(actions)@.contains(a) || (a matches Action::TakeTokens {
                    count,
                    positions,
                } && is_token_line(state.board, count as int, positions))),
            old(actions)@.len() == 0 ==> final(actions)@.no_duplicates(),
    {
        let lines = state.board.find_all_lines();
        let n = lines.len();
        let mut i: usize = 0;
        while i < n
            invariant
                0 <= i <= n,
                n == lines@.len(),
                crate::game_state::board::lines_ordered(lines@),
                old(actions)@.len() == 0 ==> actions@.len() == i && forall|j: int|
                    0 <= j < i ==> #[trigger] actions@[j] == (Action::TakeTokens {
                        count: lines@[j].count,
                        positions: lines@[j].positions,
                    }),
                forall|a: Action|
                    actions@.contains(a) <==> (old(actions)@.contains(a) || (a matches Action::TakeTokens {
                        count,
                        positions,
                    } && exists|j: int|
                        0 <= j < i && #[trigger] lines@[j].count == count && lines@[j].positions
                            == positions)),
            decreases n - i,
        {
            let line = lines[i];
            actions.push(Action::TakeTokens { count: line.count, positions: line.positions });
            proof {
                assert forall|a: Action|
                    actions@.contains(a) <==> (old(actions)@.contains(a) || (a matches Action::TakeTokens {
                        count,
                        positions,
                    } && exists|j: int|
                        0 <= j < i + 1 && #[trigger] lines@[j].count == count && lines@[j].positions
                            == positions)) by {
                    if let Action::TakeTokens { count, positions } = a {
                        if count == line.count && positions == line.positions {
                            assert(lines@[i as int].count == count);
                        }
                    }
                }
            }
            i = i + 1;
        }
        proof {
            assert forall|a: Action|
                actions@.contains(a) <==> (old(actions)@.contains(a) || (a matches Action::TakeTokens {
                    count,
                    positions,
                } && is_token_line(state.board, count as int, positions))) by {
                if let Action::TakeTokens { count, positions } = a {
                    if exists|j: int|
                        0 <= j < n && #[trigger] lines@[j].count == count && lines@[j].positions
                            == positions {
                        let j = choose|j: int|
                            0 <= j < n && #[trigger] lines@[j].count == count && lines@[j].positions
                                == positions;
                        assert(state.board.candidate_ok(lines@[j]));
                    }
                    if is_token_line(state.board, count as int, positions) {
                        let (d, r, c) = choose|d: int, r: int, c: int|
                            #![trigger state.board.line_valid(count as int, d, r, c)]
                            state.board.line_valid(count as int, d, r, c) && is_line_at(
                                count as int,
                                positions,
                                d,
                                r,
                                c,
                            );
                        assert(crate::game_state::board::covered(lines@, count as int, d, r, c));
                        let j = choose|j: int|
                            0 <= j < lines@.len() && #[trigger] lines@[j].count == count as int
                                && is_line_at(count as int, lines@[j].positions, d, r, c);
                        lemma_line_positions_unique(count as int, positions, lines@[j].positions, d, r, c);
                    }
                }
            }
            if old(actions)@.len() == 0 {
                assert forall|x: int, y: int|
                    0 <= x < actions@.len() && 0 <= y < actions@.len() && x != y implies actions@[x]
                    != actions@[y] by {
                    if x < y {
                        assert(crate::game_state::board::line_key(lines@[x].count, lines@[x].positions)
                            < crate::game_state::board::line_key(lines@[y].count, lines@[y].positions));
                    } else {
                        assert(crate::game_state::board::line_key(lines@[y].count, lines@[y].positions)
                            < crate::game_state::board::line_key(lines@[x].count, lines@[x].positions));
                    }
                }
            }
        }
    }

    /// Appends every reservation: each market slot of each level, then that level's deck.
    fn push_reserve_actions(state: &GameState, actions: &mut Vec<Action>)
        requires
            state.lists_fit(),
        ensures
            forall|a: Action|
                final(actions)@.contains(a) <==> (old(actions)@.contains(a) || (a matches Action::ReserveCard {
                    tier,
                    slot,
                } && reserve_slot_ok(*state, tier, slot))),
            old(actions)@.no_duplicates() && (forall|a: Action| #[trigger] old(actions)@.contains(a) ==> !(a is ReserveCard))
                ==> final(actions)@.no_duplicates(),
    {
        let ghost fresh = old(actions)@.no_duplicates() && (forall|a: Action| #[trigger] old(actions)@.contains(a) ==> !(a is ReserveCard));
        let mut t: usize = 0;
        while t < 3
            invariant
                0 <= t <= 3,
                state.lists_fit(),
                fresh == (old(actions)@.no_duplicates() && (forall|a: Action| #[trigger] old(actions)@.contains(a) ==> !(a is ReserveCard))),
                fresh ==> actions@.no_duplicates(),
                forall|a: Action|
                    actions@.contains(a) <==> (old(actions)@.contains(a) || (a matches Action::ReserveCard {
                        tier,
                        slot,
                    } && tier.spec_index() < t && reserve_slot_ok(*state, tier, slot))),
            decreases 3 - t,
        {
            let tier = CardTier::from_index(t);
            let n = state.pyramid[t].len();
            let mut j: usize = 0;
            while j < n
                invariant
                    0 <= j <= n,
                    t < 3,
                    tier.spec_index() == t,
                    n == state.row(t as int).len(),
                    forall|a: Action|
                        actions@.contains(a) <==> (old(actions)@.contains(a) || (a matches Action::ReserveCard {
                            tier,
                            slot,
                        } && ((tier.spec_index() < t && reserve_slot_ok(*state, tier, slot)) || (
                        tier.spec_index() == t && (slot matches Some(sl) && sl < j))))),
                    fresh == (old(actions)@.no_duplicates() && (forall|a: Action| #[trigger] old(actions)@.contains(a) ==> !(a is ReserveCard))),
                    fresh ==> actions@.no_duplicates(),
                decreases n - j,
            {
                proof {
                    if fresh {
                        assert(!actions@.contains(Action::ReserveCard { tier, slot: Some(j) }));
                    }
                }
                actions.push(Action::ReserveCard { tier, slot: Some(j) });
                j = j + 1;
            }
            if !state.decks[t].is_empty() {
                proof {
                    if fresh {
                        assert(!actions@.contains(Action::ReserveCard { tier, slot: None }));
                    }
                }
                actions.push(Action::ReserveCard { tier, slot: None });
            }
            t = t + 1;
        }
    }

    /// Appends a purchase for every market card the current player may buy.
    fn push_market_purchases(state: &GameState, actions: &mut Vec<Action>)
        requires
            state.current_player < 2,
            state.lists_fit(),
            state.price_sums_fit(),
        ensures
            forall|a: Action|
                final(actions)@.contains(a) <==> (old(actions)@.contains(a) || (a matches Action::PurchaseCard {
                    from_reserved,
                    tier,
                    slot,
                } && !from_reserved && slot < state.row(tier.spec_index()).len() && can_buy(
                    state.players@[state.cp()],
                    state.row(tier.spec_index())[slot as int],
                ))),
            old(actions)@.no_duplicates() && (forall|a: Action| #[trigger] old(actions)@.contains(a) ==> !(a is PurchaseCard))
                ==> final(actions)@.no_duplicates(),
    {
        let ghost fresh = old(actions)@.no_duplicates() && (forall|a: Action| #[trigger] old(actions)@.contains(a) ==> !(a is PurchaseCard));
        let player = &state.players[state.current_player];
        let has_bonus = player.has_any_bonus();
        let mut t: usize = 0;
        while t < 3
            invariant
                0 <= t <= 3,
                fresh == (old(actions)@.no_duplicates() && (forall|a: Action| #[trigger] old(actions)@.contains(a) ==> !(a is PurchaseCard))),
                fresh ==> actions@.no_duplicates(),
                *player == state.players@[state.cp()],
                has_bonus == player.spec_has_any_bonus(),
                state.lists_fit(),
                state.price_sums_fit(),
                forall|a: Action|
                    actions@.contains(a) <==> (old(actions)@.contains(a) || (a matches Action::PurchaseCard {
                        from_reserved,
                        tier,
                        slot,
                    } && !from_reserved && tier.spec_index() < t && slot < state.row(
                        tier.spec_index(),
                    ).len() && can_buy(*player, state.row(tier.spec_index())[slot as int]))),
            decreases 3 - t,
        {
            let tier = CardTier::from_index(t);
            let n = state.pyramid[t].len();
            let mut j: usize = 0;
            while j < n
                invariant
                    0 <= j <= n,
                    t < 3,
                    tier.spec_index() == t,
                    n == state.row(t as int).len(),
                    *player == state.players@[state.cp()],
                    has_bonus == player.spec_has_any_bonus(),
                    state.price_sums_fit(),
                    forall|a: Action|
                        actions@.contains(a) <==> (old(actions)@.contains(a) || (a matches Action::PurchaseCard {
                            from_reserved,
                            tier,
                            slot,
                        } && !from_reserved && slot < state.row(tier.spec_index()).len() && can_buy(
                            *player,
                            state.row(tier.spec_index())[slot as int],
                        ) && (tier.spec_index() < t || (tier.spec_index() == t && slot < j)))),
                    fresh == (old(actions)@.no_duplicates() && (forall|a: Action| #[trigger] old(actions)@.contains(a) ==> !(a is PurchaseCard))),
                    fresh ==> actions@.no_duplicates(),
                decreases n - j,
            {
                let card = state.pyramid[t].at(j);
                proof {
                    assert(player.gold_needed(state.row(t as int)[j as int]) <= u8::MAX);
                }
                if !(card.color == CardColor::Joker && !has_bonus) && player.can_afford(&card) {
                    proof {
                        if fresh {
                            assert(!actions@.contains(Action::PurchaseCard { from_reserved: false, tier, slot: j }));
                        }
                    }
                    actions.push(Action::PurchaseCard { from_reserved: false, tier, slot: j });
                }
                j = j + 1;
            }
            t = t + 1;
        }
    }

    /// Appends a purchase for every reserved card the current player may buy.
    fn push_reserved_purchases(state: &GameState, actions: &mut Vec<Action>)
        requires
            state.current_player < 2,
            state.price_sums_fit(),
        ensures
            forall|a: Action|
                final(actions)@.contains(a) <==> (old(actions)@.contains(a) || (a matches Action::PurchaseCard {
                    from_reserved,
                    tier,
                    slot,
                } && from_reserved && slot < state.players@[state.cp()].reserved_cards@.len() && tier
                    == state.players@[state.cp()].reserved_cards@[slot as int].card.tier && can_buy(
                    state.players@[state.cp()],
                    state.players@[state.cp()].reserved_cards@[slot as int].card,
                ))),
            old(actions)@.no_duplicates() && (forall|a: Action| #[trigger] old(actions)@.contains(a) ==> !(a matches Action::PurchaseCard { from_reserved: true, .. }))
                ==> final(actions)@.no_duplicates(),
    {
        let ghost fresh = old(actions)@.no_duplicates() && (forall|a: Action| #[trigger] old(actions)@.contains(a) ==> !(a matches Action::PurchaseCard { from_reserved: true, .. }));
        let player = &state.players[state.current_player];
        let has_bonus = player.has_any_bonus();
        let n = player.reserved_cards.len();
        let mut j: usize = 0;
        while j < n
            invariant
                0 <= j <= n,
                fresh == (old(actions)@.no_duplicates() && (forall|a: Action| #[trigger] old(actions)@.contains(a) ==> !(a matches Action::PurchaseCard { from_reserved: true, .. }))),
                fresh ==> actions@.no_duplicates(),
                n == player.reserved_cards@.len(),
                *player == state.players@[state.cp()],
                has_bonus == player.spec_has_any_bonus(),
                state.price_sums_fit(),
                forall|a: Action|
                    actions@.contains(a) <==> (old(actions)@.contains(a) || (a matches Action::PurchaseCard {
                        from_reserved,
                        tier,
                        slot,
                    } && from_reserved && slot < j && tier == player.reserved_cards@[slot as int].card.tier
                        && can_buy(*player, player.reserved_cards@[slot as int].card))),
            decreases n - j,
        {
            let card = player.reserved_cards[j].card;
            proof {
                assert(player.gold_needed(player.reserved_cards@[j as int].card) <= u8::MAX);
            }
            if !(card.color == CardColor::Joker && !has_bonus) && player.can_afford(&card) {
                proof {
                    if fresh {
                        assert(!actions@.contains(Action::PurchaseCard { from_reserved: true, tier: card.tier, slot: j }));
                    }
                }
                actions.push(Action::PurchaseCard { from_reserved: true, tier: card.tier, slot: j });
            }
            j = j + 1;
        }
    }

    /// The mandatory moves: takes of lines, then reservations, then purchases of market
    /// cards, then purchases of reserved cards.
    fn mandatory_choices(state: &GameState) -> (r: Vec<Action>)
        requires
            state.current_player < 2,
            state.lists_fit(),
            state.price_sums_fit(),
        ensures
            forall|a: Action| r@.contains(a) <==> mandatory_choice(*state, a),
            r@.no_duplicates(),
    {
        let player = &state.players[state.current_player];
        let mut actions: Vec<Action> = Vec::new();
        Self::push_line_actions(state, &mut actions);
        let ghost after_lines = actions@;
        proof {
            assert forall|a: Action| #[trigger] actions@.contains(a) implies a is TakeTokens by {}
        }
        if state.board.has_gold() && player.reserved_cards.len() < 3 {
            Self::push_reserve_actions(state, &mut actions);
        }
        proof {
            assert forall|a: Action| #[trigger] actions@.contains(a) implies !(a is PurchaseCard) by {
                if after_lines.contains(a) {
                    assert(a is TakeTokens);
                }
            }
        }
        Self::push_market_purchases(state, &mut actions);
        proof {
            assert forall|a: Action| #[trigger] actions@.contains(a) implies !(a matches Action::PurchaseCard {
                from_reserved: true,
                ..
            }) by {
                if after_lines.contains(a) {
                    assert(a is TakeTokens);
                }
            }
        }
        Self::push_reserved_purchases(state, &mut actions);
        proof {
            assert forall|a: Action| actions@.contains(a) <==> mandatory_choice(*state, a) by {
                assert(after_lines.contains(a) <==> (a matches Action::TakeTokens { count, positions }
                    && is_token_line(state.board, count as int, positions)));
            }
        }
        actions
    }

    /// Whether the board can be refilled now.
    fn replenish_possible(state: &GameState) -> (r: bool)
        ensures
            r == can_replenish(*state),
    {
        !state.replenished_this_turn && !state.bag.is_empty() && state.board.has_empty_slot()
    }

    fn legal_mandatory_actions(state: &GameState) -> (r: Vec<Action>)
        requires
            state.current_player < 2,
            state.lists_fit(),
            state.price_sums_fit(),
        ensures
            forall|a: Action|
                r@.contains(a) <==> (mandatory_choice(*state, a) || ((forall|b: Action|
                    !#[trigger] mandatory_choice(*state, b)) && a == mandatory_fallback(*state))),
            r@.no_duplicates(),
    {
        let mut actions = Self::mandatory_choices(state);
        if actions.len() == 0 {
            proof {
                assert forall|b: Action| !#[trigger] mandatory_choice(*state, b) by {
                    assert(!actions@.contains(b));
                }
            }
            if Self::replenish_possible(state) {
                actions.push(Action::ReplenishBoard);
            } else {
                actions.push(Action::SkipOptional);
            }
        } else {
            proof {
                let w = actions@[0];
                assert(actions@.contains(w));
                assert(mandatory_choice(*state, w));
            }
        }
        actions
    }
}

/// Every move the rules offer is one the engine accepts: for each action of
/// `RuleEngine::legal_actions`, `GameEngine::step` returns `Ok`.
pub proof fn lemma_legal_action_accepted(s: GameState, a: Action)
    requires
        is_legal(s, a),
    ensures
        s.step_ok(a),
{
    let p = s.players@[s.cp()];
    match s.phase {
        TurnPhase::MandatoryAction => {
            if mandatory_choice(s, a) {
                if let Action::TakeTokens { count, positions } = a {
                    let (d, r, c) = choose|d: int, r: int, c: int|
                        #![trigger s.board.line_valid(count as int, d, r, c)]
                        s.board.line_valid(count as int, d, r, c) && is_line_at(
                            count as int,
                            positions,
                            d,
                            r,
                            c,
                        );
                    lemma_valid_line_take_run(s.board, count as int, positions, d, r, c);
                }
            }
        },
        _ => {},
    }
}

/// The royal card chosen by id is the first with that id.
pub proof fn lemma_royal_index_found(s: GameState, royal_id: u8, i: int)
    requires
        0 <= i < s.royal_cards@.len(),
        s.royal_cards@[i].id == royal_id,
    ensures
        0 <= super::engine::royal_index(s, royal_id) < s.royal_cards@.len(),
        s.royal_cards@[super::engine::royal_index(s, royal_id)].id == royal_id,
    decreases i,
{
    if exists|j: int| 0 <= j < i && s.royal_cards@[j].id == royal_id {
        let j = choose|j: int| 0 <= j < i && s.royal_cards@[j].id == royal_id;
        lemma_royal_index_found(s, royal_id, j);
    } else {
        assert(0 <= i < s.royal_cards@.len() && s.royal_cards@[i].id == royal_id && forall|j: int|
            0 <= j < i ==> s.royal_cards@[j].id != royal_id);
    }
}

} // verus!
