pub mod interactive;
pub mod mcts;
pub mod random_ai;
pub mod replay;
pub mod replay_session;

pub use random_ai::RandomAI;
pub use interactive::PlayerKind;
pub use replay::{action_category, PlayerType};
