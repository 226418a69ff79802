use vstd::prelude::*;

use super::token::GemType;

verus! {

/// Jewel card level (1, 2, 3).
#[derive(Debug, Clone, Copy, PartialEq, Eq, PartialOrd, Ord, Hash, Structural)]
pub enum CardTier {
    Tier1,
    Tier2,
    Tier3,
}

impl CardTier {
    pub open spec fn spec_index(self) -> int {
        match self {
            CardTier::Tier1 => 0,
            CardTier::Tier2 => 1,
            CardTier::Tier3 => 2,
        }
    }

    /// Number of face-up market slots of this level.
    pub open spec fn spec_market_capacity(self) -> int {
        match self {
            CardTier::Tier1 => 5,
            CardTier::Tier2 => 4,
            CardTier::Tier3 => 3,
        }
    }

    pub open spec fn spec_from_index(i: int) -> CardTier {
        if i == 0 {
            CardTier::Tier1
        } else if i == 1 {
            CardTier::Tier2
        } else {
            CardTier::Tier3
        }
    }

    /// The three levels in order.
    pub fn all() -> (r: [CardTier; 3])
        ensures
            r@ == seq![CardTier::Tier1, CardTier::Tier2, CardTier::Tier3],
    {
        let r = [CardTier::Tier1, CardTier::Tier2, CardTier::Tier3];
        assert(r@ =~= seq![CardTier::Tier1, CardTier::Tier2, CardTier::Tier3]);
        r
    }

    pub fn from_index(i: usize) -> (r: CardTier)
        requires
            i < 3,
        ensures
            r == Self::spec_from_index(i as int),
            r.spec_index() == i,
    {
        if i == 0 {
            CardTier::Tier1
        } else if i == 1 {
            CardTier::Tier2
        } else {
            CardTier::Tier3
        }
    }

    pub fn index(self) -> (r: usize)
        ensures
            r == self.spec_index(),
            r < 3,
    {
        match self {
            CardTier::Tier1 => 0,
            CardTier::Tier2 => 1,
            CardTier::Tier3 => 2,
        }
    }

    pub fn market_capacity(self) -> (r: usize)
        ensures
            r == self.spec_market_capacity(),
    {
        match self {
            CardTier::Tier1 => 5,
            CardTier::Tier2 => 4,
            CardTier::Tier3 => 3,
        }
    }
}

/// Colour of a jewel card: one of the five gem colours, a prestige-only card, or a
/// joker that takes the colour of a bonus its owner already has.
#[derive(Debug, Clone, Copy, PartialEq, Eq, Hash, Structural)]
pub enum CardColor {
    White,
    Blue,
    Green,
    Red,
    Black,
    Points,
    Joker,
}

impl CardColor {
    /// The gem colour of a coloured card (none for prestige and joker cards).
    pub open spec fn spec_to_gem_type(self) -> Option<GemType> {
        match self {
            CardColor::White => Some(GemType::White),
            CardColor::Blue => Some(GemType::Blue),
            CardColor::Green => Some(GemType::Green),
            CardColor::Red => Some(GemType::Red),
            CardColor::Black => Some(GemType::Black),
            CardColor::Points => None,
            CardColor::Joker => None,
        }
    }

    /// The card colour of a basic gem (none for pearl and gold).
    pub open spec fn spec_from_gem_type(gem: GemType) -> Option<CardColor> {
        match gem {
            GemType::White => Some(CardColor::White),
            GemType::Blue => Some(CardColor::Blue),
            GemType::Green => Some(CardColor::Green),
            GemType::Red => Some(CardColor::Red),
            GemType::Black => Some(CardColor::Black),
            GemType::Pearl => None,
            GemType::Gold => None,
        }
    }

    pub fn to_gem_type(self) -> (r: Option<GemType>)
        ensures
            r == self.spec_to_gem_type(),
            r matches Some(g) ==> g.spec_is_basic(),
    {
        match self {
            CardColor::White => Some(GemType::White),
            CardColor::Blue => Some(GemType::Blue),
            CardColor::Green => Some(GemType::Green),
            CardColor::Red => Some(GemType::Red),
            CardColor::Black => Some(GemType::Black),
            CardColor::Points | CardColor::Joker => None,
        }
    }

    pub fn from_gem_type(gem: GemType) -> (r: Option<Self>)
        ensures
            r == Self::spec_from_gem_type(gem),
            r is Some <==> gem.spec_is_basic(),
            r matches Some(c) ==> c.spec_to_gem_type() == Some(gem),
    {
        match gem {
            GemType::White => Some(CardColor::White),
            GemType::Blue => Some(CardColor::Blue),
            GemType::Green => Some(CardColor::Green),
            GemType::Red => Some(CardColor::Red),
            GemType::Black => Some(CardColor::Black),
            GemType::Pearl | GemType::Gold => None,
        }
    }
}

/// Ability printed on a jewel card.
#[derive(Debug, Clone, Copy, PartialEq, Eq, Hash, Structural)]
pub enum CardAbility {
    ExtraTurn,
    TakePrivilege,
    TakeSameColor,
    StealToken,
    ColorCopy,
    ColorCopyAndExtraTurn,
}

/// Price of a card in white, blue, green, red, black and pearl tokens.
#[derive(Debug, Clone, Copy, PartialEq, Eq, Default, Structural)]
pub struct CardCost {
    pub white: u8,
    pub blue: u8,
    pub green: u8,
    pub red: u8,
    pub black: u8,
    pub pearl: u8,
}

impl CardCost {
    /// Price in tokens of kind `gem` (gold is never part of a price).
    pub open spec fn spec_get(&self, gem: GemType) -> u8 {
        match gem {
            GemType::White => self.white,
            GemType::Blue => self.blue,
            GemType::Green => self.green,
            GemType::Red => self.red,
            GemType::Black => self.black,
            GemType::Pearl => self.pearl,
            GemType::Gold => 0,
        }
    }

    pub fn new(white: u8, blue: u8, green: u8, red: u8, black: u8, pearl: u8) -> (r: Self)
        ensures
            r == (CardCost { white, blue, green, red, black, pearl }),
    {
        CardCost { white, blue, green, red, black, pearl }
    }

    pub fn get(&self, gem: GemType) -> (r: u8)
        ensures
            r == self.spec_get(gem),
    {
        match gem {
            GemType::White => self.white,
            GemType::Blue => self.blue,
            GemType::Green => self.green,
            GemType::Red => self.red,
            GemType::Black => self.black,
            GemType::Pearl => self.pearl,
            GemType::Gold => 0,
        }
    }
}

/// A jewel card.
#[derive(Debug, Clone, Copy, PartialEq, Eq, Structural)]
pub struct JewelCard {
    pub id: u8,
    pub tier: CardTier,
    pub color: CardColor,
    pub points: u8,
    pub bonus: u8,
    pub ability: Option<CardAbility>,
    pub crowns: u8,
    pub cost: CardCost,
}

/// A reserved jewel card; `is_public` is false for a card drawn blind from a deck.
#[derive(Debug, Clone, Copy, PartialEq, Eq, Structural)]
pub struct ReservedCard {
    pub card: JewelCard,
    pub is_public: bool,
}

impl ReservedCard {
    pub fn new(card: JewelCard, is_public: bool) -> (r: Self)
        ensures
            r == (ReservedCard { card, is_public }),
    {
        ReservedCard { card, is_public }
    }
}

/// Ability of a royal card.
#[derive(Debug, Clone, Copy, PartialEq, Eq, Hash, Structural)]
pub enum RoyalAbility {
    StealToken,
    TakePrivilege,
    ExtraTurn,
}

/// A royal card.
#[derive(Debug, Clone, Copy, PartialEq, Eq, Structural)]
pub struct RoyalCard {
    pub id: u8,
    pub points: u8,
    pub ability: Option<RoyalAbility>,
}

/// The royal card with the given id (0..4) of the standard set: three cards worth
/// two points with the steal, privilege and extra-turn abilities, and one worth three.
pub open spec fn spec_royal_card(id: int) -> RoyalCard {
    if id == 0 {
        RoyalCard { id: 0, points: 2, ability: Some(RoyalAbility::StealToken) }
    } else if id == 1 {
        RoyalCard { id: 1, points: 2, ability: Some(RoyalAbility::TakePrivilege) }
    } else if id == 2 {
        RoyalCard { id: 2, points: 2, ability: Some(RoyalAbility::ExtraTurn) }
    } else {
        RoyalCard { id: 3, points: 3, ability: None }
    }
}

/// The four royal cards of a game, in id order.
pub fn all_royal_cards() -> (r: [RoyalCard; 4])
    ensures
        forall|i: int| 0 <= i < 4 ==> r@[i] == spec_royal_card(i),
{
    [
        RoyalCard { id: 0, points: 2, ability: Some(RoyalAbility::StealToken) },
        RoyalCard { id: 1, points: 2, ability: Some(RoyalAbility::TakePrivilege) },
        RoyalCard { id: 2, points: 2, ability: Some(RoyalAbility::ExtraTurn) },
        RoyalCard { id: 3, points: 3, ability: None },
    ]
}

} // verus!
