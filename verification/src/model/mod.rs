pub mod action;
pub mod card;
pub mod stack_vec;
pub mod token;

pub use action::Action;
pub use card::{
    CardAbility, CardColor, CardCost, CardTier, JewelCard, ReservedCard, RoyalAbility, RoyalCard,
};
pub use stack_vec::StackVec;
pub use token::{GemType, TokenCollection};
