//! Rules engine for the two-player gem and card game Splendor Duel: tokens, cards, the
//! 5x5 board, the per-turn phase machine, legal-move generation and the discrete action
//! encoding, each with its contract; interactive and replayed games over the engine; and
//! the request routing of the game's web server.

pub mod ai;
pub mod bridge;
pub mod game_state;
pub mod gameplay;
pub mod model;
pub mod rng;
pub mod routes;
pub mod web;

pub use ai::interactive::{InteractiveSession, SessionError, SessionStep};
pub use ai::replay_session::{ReplayError, ReplaySession};
pub use ai::{PlayerKind, PlayerType, RandomAI};
pub use bridge::{action_mask, action_mask_from_legals, action_to_id, all_line_definitions, LineDef, ACTION_SIZE, OBS_SIZE};
pub use game_state::{Board, GameState, LineCandidate, PlayerState, TurnPhase, VictoryReason};
pub use gameplay::{check_victory, compute_card_payment, GameEngine, RuleEngine};
pub use model::{
    Action, CardAbility, CardColor, CardCost, CardTier, GemType, JewelCard, ReservedCard,
    RoyalAbility, RoyalCard, StackVec, TokenCollection,
};
