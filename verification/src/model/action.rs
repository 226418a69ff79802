use vstd::prelude::*;

use super::card::CardTier;
use super::token::GemType;

verus! {

/// A move of the game. Board coordinates are (row, column) in 0..5.
#[derive(Debug, Clone, Copy, PartialEq, Eq, Hash)]
pub enum Action {
    /// Optional phase: skip the remaining optional actions (in the mandatory phase:
    /// give up the mandatory action when none is possible).
    SkipOptional,
    /// Optional phase: spend a privilege scroll to take one non-gold token from the board.
    UsePrivilege { r: usize, c: usize },
    /// Refill the board from the bag along the spiral, once a turn; the opponent gains a
    /// privilege and the optional actions end.
    ReplenishBoard,
    /// Mandatory: take 1 to 3 adjacent non-gold tokens in a line (the first `count`
    /// positions are used).
    TakeTokens { count: u8, positions: [(usize, usize); 3] },
    /// Mandatory: reserve a card, from the market slot `slot` of level `tier`, or blind
    /// from the top of that level's deck when `slot` is `None`; needs gold on the board.
    ReserveCard { tier: CardTier, slot: Option<usize> },
    /// Mandatory: buy a card from the market (`from_reserved == false`, `slot` in the
    /// row of `tier`) or from one's own reserved cards (`slot` in that list).
    PurchaseCard { from_reserved: bool, tier: CardTier, slot: usize },
    /// After reserving: take one gold token from the board.
    TakeGoldToken { r: usize, c: usize },
    /// Joker card bought: attach it to a colour in which the buyer has a bonus.
    AssignJokerColor { color: GemType },
    /// Card ability: take a token of the card's colour from the board.
    TakeSameColorToken { r: usize, c: usize },
    /// Card or royal ability: take one non-gold token from the opponent.
    StealToken { gem: GemType },
    /// Crown milestone reached: take the royal card with this id.
    SelectRoyal { royal_id: u8 },
    /// More than ten tokens held: return one to the bag.
    DiscardToken { gem: GemType },
}

impl Action {
    /// Whether two actions are the same move.
    pub fn same_as(&self, other: &Action) -> (r: bool)
        ensures
            r == (*self == *other),
    {
        match (*self, *other) {
            (Action::SkipOptional, Action::SkipOptional) => true,
            (Action::UsePrivilege { r: r1, c: c1 }, Action::UsePrivilege { r: r2, c: c2 }) => r1 == r2 && c1 == c2,
            (Action::ReplenishBoard, Action::ReplenishBoard) => true,
            (Action::TakeTokens { count: n1, positions: p1 }, Action::TakeTokens { count: n2, positions: p2 }) => {
                let same = n1 == n2 && p1[0].0 == p2[0].0 && p1[0].1 == p2[0].1 && p1[1].0 == p2[1].0 && p1[1].1
                    == p2[1].1 && p1[2].0 == p2[2].0 && p1[2].1 == p2[2].1;
                proof {
                    if same {
                        assert(p1@ =~= p2@);
                        vstd::array::axiom_array_ext_equal(p1, p2);
                    }
                }
                same
            },
            (Action::ReserveCard { tier: t1, slot: s1 }, Action::ReserveCard { tier: t2, slot: s2 }) => {
                t1 == t2 && match (s1, s2) {
                    (Some(a), Some(b)) => a == b,
                    (None, None) => true,
                    _ => false,
                }
            },
            (
                Action::PurchaseCard { from_reserved: f1, tier: t1, slot: s1 },
                Action::PurchaseCard { from_reserved: f2, tier: t2, slot: s2 },
            ) => f1 == f2 && t1 == t2 && s1 == s2,
            (Action::TakeGoldToken { r: r1, c: c1 }, Action::TakeGoldToken { r: r2, c: c2 }) => r1 == r2 && c1 == c2,
            (Action::AssignJokerColor { color: a }, Action::AssignJokerColor { color: b }) => a == b,
            (Action::TakeSameColorToken { r: r1, c: c1 }, Action::TakeSameColorToken { r: r2, c: c2 }) => r1 == r2
                && c1 == c2,
            (Action::StealToken { gem: a }, Action::StealToken { gem: b }) => a == b,
            (Action::SelectRoyal { royal_id: a }, Action::SelectRoyal { royal_id: b }) => a == b,
            (Action::DiscardToken { gem: a }, Action::DiscardToken { gem: b }) => a == b,
            _ => false,
        }
    }
}

} // verus!
