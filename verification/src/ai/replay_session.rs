use vstd::prelude::*;

use super::interactive::{step_record, SessionStep};
use super::random_ai::RandomAI;
use super::replay::PlayerType;
use crate::game_state::phase::TurnPhase;
use crate::game_state::state::{new_game_post, tier_cards, GameState, MAX_DECK_CAPACITY};
use crate::gameplay::engine::{refused_state, step_post, GameEngine};
use crate::gameplay::rules::is_legal;
use crate::model::action::Action;
use crate::model::card::JewelCard;
use rand_chacha::ChaCha8Rng;

verus! {

/// Why a replay could not advance.
#[derive(Debug, Clone, PartialEq, Eq)]
pub enum ReplayError {
    /// The player to move had no move to play.
    NoLegalAction,
    /// The engine refused the move, with its message.
    Refused(String),
}

/// A game played by programs, with the steps played so far.
pub struct ReplaySession {
    pub seed: u64,
    pub player_types: [PlayerType; 2],
    pub live_game: GameState,
    pub history: Vec<SessionStep>,
    /// The jewel cards games are dealt from.
    pub cards: Vec<JewelCard>,
}

impl ReplaySession {
    /// A new replay dealt from `cards` with `seed`; its history holds the start of the game.
    pub fn new_with_players(seed: u64, player_types: [PlayerType; 2], cards: Vec<JewelCard>) -> (r: Self)
        requires
            forall|t: int| 0 <= t < 3 ==> #[trigger] tier_cards(cards@, t).len() <= MAX_DECK_CAPACITY,
        ensures
            r.seed == seed,
            r.player_types == player_types,
            r.cards@ == cards@,
            new_game_post(seed, cards@, r.live_game),
            r.history@ == seq![step_record(r.live_game, None, 0, false)],
    {
        let game = GameState::new_game(seed, cards.as_slice());
        let start = SessionStep {
            step_index: 0,
            round_number: game.turn_number,
            player: game.current_player,
            action: None,
            phase: game.phase,
            by_human: false,
        };
        let mut history: Vec<SessionStep> = Vec::new();
        history.push(start);
        ReplaySession { seed, player_types, live_game: game, history, cards }
    }

    /// Starts again with `seed` and the same players and cards.
    pub fn reset(&mut self, seed: u64)
        requires
            forall|t: int| 0 <= t < 3 ==> #[trigger] tier_cards(old(self).cards@, t).len() <= MAX_DECK_CAPACITY,
        ensures
            final(self).seed == seed,
            final(self).player_types == old(self).player_types,
            final(self).cards@ == old(self).cards@,
            new_game_post(seed, old(self).cards@, final(self).live_game),
            final(self).history@ == seq![step_record(final(self).live_game, None, 0, false)],
    {
        let types = self.player_types;
        self.reset_with_players(seed, types);
    }

    /// Starts again with `seed` and these players, dealt from the same cards.
    pub fn reset_with_players(&mut self, seed: u64, player_types: [PlayerType; 2])
        requires
            forall|t: int| 0 <= t < 3 ==> #[trigger] tier_cards(old(self).cards@, t).len() <= MAX_DECK_CAPACITY,
        ensures
            final(self).seed == seed,
            final(self).player_types == player_types,
            final(self).cards@ == old(self).cards@,
            new_game_post(seed, old(self).cards@, final(self).live_game),
            final(self).history@ == seq![step_record(final(self).live_game, None, 0, false)],
    {
        let cards = crate::game_state::player::copy_list(&self.cards);
        *self = Self::new_with_players(seed, player_types, cards);
    }

    /// Sets the player type of side `player_idx`; any other index changes nothing.
    pub fn set_player_type(&mut self, player_idx: usize, p_type: PlayerType)
        ensures
            final(self).seed == old(self).seed,
            final(self).live_game == old(self).live_game,
            final(self).history@ == old(self).history@,
            final(self).cards@ == old(self).cards@,
            final(self).player_types@ == if player_idx < 2 {
                old(self).player_types@.update(player_idx as int, p_type)
            } else {
                old(self).player_types@
            },
    {
        if player_idx < 2 {
            self.player_types[player_idx] = p_type;
        }
    }

    /// Plays the move chosen for the player to move and records it. A finished game
    /// gives `Ok(false)` and changes nothing; no move gives `NoLegalAction`; a move the
    /// engine refuses gives its message, and the history stays as it was.
    pub fn play_choice(&mut self, choice: Option<Action>) -> (r: Result<bool, ReplayError>)
        requires
            old(self).live_game.current_player < 2,
            old(self).history@.len() < usize::MAX,
            choice matches Some(a) ==> old(self).live_game.step_safe(a),
        ensures
            final(self).seed == old(self).seed,
            final(self).player_types == old(self).player_types,
            final(self).cards@ == old(self).cards@,
            old(self).live_game.phase is GameOver ==> r == Ok::<bool, ReplayError>(false) && final(self).live_game
                == old(self).live_game && final(self).history@ == old(self).history@,
            !(old(self).live_game.phase is GameOver) ==> match choice {
                None => r == Err::<bool, ReplayError>(ReplayError::NoLegalAction) && final(self).live_game
                    == old(self).live_game && final(self).history@ == old(self).history@,
                Some(a) => {
                    &&& r is Ok <==> old(self).live_game.step_ok(a)
                    &&& r is Ok ==> r == Ok::<bool, ReplayError>(true) && step_post(
                        old(self).live_game,
                        a,
                        final(self).live_game,
                    ) && final(self).history@ == old(self).history@.push(
                        step_record(old(self).live_game, Some(a), old(self).history@.len() as int, false),
                    )
                    &&& r is Err ==> r->Err_0 is Refused && final(self).live_game == refused_state(
                        old(self).live_game,
                        a,
                    ) && final(self).history@ == old(self).history@
                },
            },
    {
        if matches!(self.live_game.phase, TurnPhase::GameOver(_)) {
            return Ok(false);
        }
        let action = match choice {
            Some(a) => a,
            None => {
                return Err(ReplayError::NoLegalAction);
            },
        };
        let entry = SessionStep {
            step_index: self.history.len(),
            round_number: self.live_game.turn_number,
            player: self.live_game.current_player,
            action: Some(action),
            phase: self.live_game.phase,
            by_human: false,
        };
        match GameEngine::step(&mut self.live_game, &action) {
            Ok(()) => {
                self.history.push(entry);
                Ok(true)
            },
            Err(msg) => Err(ReplayError::Refused(msg)),
        }
    }

    /// One step of a player drawing a legal move from `rng`: a finished game gives
    /// `Ok(false)`; otherwise the drawn move is played and recorded.
    pub fn step_random(&mut self, rng: &mut ChaCha8Rng) -> (r: Result<bool, ReplayError>)
        requires
            old(self).live_game.current_player < 2,
            old(self).live_game.lists_fit(),
            old(self).live_game.may_buy() ==> old(self).live_game.price_sums_fit(),
            old(self).history@.len() < usize::MAX,
            forall|a: Action| #[trigger] is_legal(old(self).live_game, a) ==> old(self).live_game.step_safe(a),
        ensures
            final(self).seed == old(self).seed,
            final(self).player_types == old(self).player_types,
            final(self).cards@ == old(self).cards@,
            old(self).live_game.phase is GameOver ==> r == Ok::<bool, ReplayError>(false) && final(self).live_game
                == old(self).live_game && final(self).history@ == old(self).history@,
            !(old(self).live_game.phase is GameOver) ==> {
                ||| (forall|a: Action| !is_legal(old(self).live_game, a)) && r == Err::<bool, ReplayError>(
                    ReplayError::NoLegalAction,
                ) && final(self).live_game == old(self).live_game && final(self).history@ == old(self).history@
                ||| exists|a: Action|
                    #[trigger] is_legal(old(self).live_game, a) && r == Ok::<bool, ReplayError>(true) && step_post(
                        old(self).live_game,
                        a,
                        final(self).live_game,
                    ) && final(self).history@ == old(self).history@.push(
                        step_record(old(self).live_game, Some(a), old(self).history@.len() as int, false),
                    )
            },
    {
        if matches!(self.live_game.phase, TurnPhase::GameOver(_)) {
            return Ok(false);
        }
        let choice = RandomAI::select_action(&self.live_game, rng);
        proof {
            if let Some(a) = choice {
                crate::gameplay::rules::lemma_legal_action_accepted(self.live_game, a);
                assert(is_legal(self.live_game, a));
                assert(self.live_game.step_safe(a));
            }
        }
        self.play_choice(choice)
    }

    /// The step recorded at `index`, if there is one.
    pub fn get_step(&self, index: usize) -> (r: Option<SessionStep>)
        ensures
            r == if index < self.history@.len() {
                Some(self.history@[index as int])
            } else {
                None::<SessionStep>
            },
    {
        if index < self.history.len() {
            Some(self.history[index])
        } else {
            None
        }
    }
}

} // verus!
