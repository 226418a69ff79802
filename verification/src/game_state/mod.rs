pub mod accounting;
pub mod board;
pub mod phase;
pub mod player;
pub mod state;

pub use board::{Board, LineCandidate};
pub use phase::{TurnPhase, VictoryReason};
pub use player::PlayerState;
pub use state::GameState;
