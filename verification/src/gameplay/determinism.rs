use vstd::prelude::*;

use super::engine::step_post;
use crate::game_state::board::spiral_fill;
use crate::game_state::phase::TurnPhase;
use crate::game_state::state::{dealt_bag, dealt_level, empty_cells, GameState};
use crate::model::action::Action;
use crate::model::card::JewelCard;

verus! {

/// Replenishing the board is determined by the state: the bag is drawn in the order the
/// game's next step seed fixes, so two replenishments of one state lay out the same board
/// and leave the same bag, and differ in nothing else.
pub proof fn lemma_replenish_deterministic(s: GameState, t1: GameState, t2: GameState)
    requires
        step_post(s, Action::ReplenishBoard, t1),
        step_post(s, Action::ReplenishBoard, t2),
    ensures
        t1.board.cells() == t2.board.cells(),
        t1.bag@ == t2.bag@,
        t1 == (GameState { board: t1.board, bag: t1.bag, ..t2 }),
{
}

/// The board is refilled at most once a turn: a refill is accepted in the optional or
/// mandatory phase when the turn has not refilled yet, the bag holds tokens and the board
/// has room; once it is done, another refill in the same turn is refused.
pub proof fn lemma_replenish_once_a_turn(s: GameState, t: GameState)
    requires
        step_post(s, Action::ReplenishBoard, t),
    ensures
        s.step_ok(Action::ReplenishBoard) <==> ((s.phase == TurnPhase::OptionalActions || s.phase
            == TurnPhase::MandatoryAction) && !s.replenished_this_turn && s.bag@.len() > 0
            && s.board.spec_has_empty_slot()),
        t.replenished_this_turn,
        !t.step_ok(Action::ReplenishBoard),
{
}

/// The deal of a new game is determined by the seed and the catalogue: two deals with the
/// same seed and cards have the same decks, market rows, board and bag.
pub proof fn lemma_deal_deterministic(seed: u64, cards: Seq<JewelCard>, r1: GameState, r2: GameState)
    requires
        forall|t: int| 0 <= t < 3 ==> #[trigger] dealt_level(cards, seed, t, r1.deck(t), r1.row(t)),
        forall|t: int| 0 <= t < 3 ==> #[trigger] dealt_level(cards, seed, t, r2.deck(t), r2.row(t)),
        (r1.board.cells(), r1.bag@) == spiral_fill(empty_cells(), dealt_bag(cards, seed), 0),
        (r2.board.cells(), r2.bag@) == spiral_fill(empty_cells(), dealt_bag(cards, seed), 0),
    ensures
        r1.deck(0) == r2.deck(0) && r1.deck(1) == r2.deck(1) && r1.deck(2) == r2.deck(2),
        r1.row(0) == r2.row(0) && r1.row(1) == r2.row(1) && r1.row(2) == r2.row(2),
        r1.board.cells() == r2.board.cells(),
        r1.bag@ == r2.bag@,
{
    assert(dealt_level(cards, seed, 0, r1.deck(0), r1.row(0)) && dealt_level(cards, seed, 0, r2.deck(0), r2.row(0)));
    assert(dealt_level(cards, seed, 1, r1.deck(1), r1.row(1)) && dealt_level(cards, seed, 1, r2.deck(1), r2.row(1)));
    assert(dealt_level(cards, seed, 2, r1.deck(2), r1.row(2)) && dealt_level(cards, seed, 2, r2.deck(2), r2.row(2)));
}

} // verus!
