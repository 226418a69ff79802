use vstd::prelude::*;

use crate::model::card::JewelCard;
use crate::model::token::GemType;

verus! {

/// Why the game was won.
#[derive(Debug, Clone, Copy, PartialEq, Eq, Hash, Structural)]
pub enum VictoryReason {
    TwentyPrestigePoints,
    TenCrowns,
    TenPointsSameColor(GemType),
}

/// Phase of the current turn.
#[derive(Debug, Clone, Copy, PartialEq, Eq, Structural)]
pub enum TurnPhase {
    /// Optional actions: use privilege scrolls, replenish the board, or skip.
    OptionalActions,
    /// The mandatory action: take a line of tokens, reserve a card, or buy a card.
    MandatoryAction,
    /// A card was reserved: take a gold token from the board.
    SelectReserveGold,
    /// A joker was bought: choose the colour it joins.
    CardAbilityJoker { pending_card: JewelCard },
    /// Card ability: take a token of `color` from the board.
    CardAbilitySameColor { color: GemType },
    /// Card or royal ability: take a token from the opponent.
    CardAbilitySteal,
    /// A crown milestone was reached: choose a royal card.
    SelectRoyalCard,
    /// More than ten tokens are held: discard one at a time.
    DiscardTokens,
    /// The game is over.
    GameOver(VictoryReason),
}

} // verus!
