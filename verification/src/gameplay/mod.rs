pub mod card_flow;
pub mod determinism;
pub mod engine;
pub mod hand_limit;
pub mod invariants;
pub mod payment;
pub mod royals;
pub mod rules;
pub mod scoring;
pub mod turns;

pub use engine::GameEngine;
pub use payment::{check_payment_divergence, compute_card_payment, compute_custom_payment, PaymentDivergenceInfo};
pub use rules::RuleEngine;
pub use scoring::check_victory;
