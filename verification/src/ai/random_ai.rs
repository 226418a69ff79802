use rand_chacha::ChaCha8Rng;
use vstd::prelude::*;

use crate::game_state::state::GameState;
use crate::gameplay::rules::{is_legal, RuleEngine};
use crate::model::action::Action;
use crate::rng::choose_item;

verus! {

/// A player that picks one of the legal moves at random.
pub struct RandomAI;

impl RandomAI {
    /// One of the legal moves of `state`, drawn from `rng`; none when there is no legal
    /// move.
    pub fn select_action(state: &GameState, rng: &mut ChaCha8Rng) -> (r: Option<Action>)
        requires
            state.current_player < 2,
            state.lists_fit(),
            state.may_buy() ==> state.price_sums_fit(),
        ensures
            r is None <==> forall|a: Action| !is_legal(*state, a),
            r matches Some(a) ==> is_legal(*state, a),
    {
        let actions = RuleEngine::legal_actions(state);
        let r = choose_item(&actions, rng);
        proof {
            if actions@.len() > 0 {
                assert(actions@.contains(actions@[0]));
                assert(is_legal(*state, actions@[0]));
            } else {
                assert forall|a: Action| !is_legal(*state, a) by {
                    assert(!actions@.contains(a));
                }
            }
        }
        r
    }
}

} // verus!
