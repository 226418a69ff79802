use vstd::prelude::*;

use crate::game_state::phase::VictoryReason;
use crate::game_state::player::PlayerState;
use crate::model::token::GemType;

verus! {

/// The victory the player has reached, checked in order: 20 prestige points, 10 crowns,
/// 10 prestige points in one colour (the first such colour in white, blue, green, red,
/// black order).
pub open spec fn spec_victory(p: PlayerState) -> Option<VictoryReason> {
    if p.total_points >= 20 {
        Some(VictoryReason::TwentyPrestigePoints)
    } else if p.total_crowns >= 10 {
        Some(VictoryReason::TenCrowns)
    } else if p.color_points@[0] >= 10 {
        Some(VictoryReason::TenPointsSameColor(GemType::White))
    } else if p.color_points@[1] >= 10 {
        Some(VictoryReason::TenPointsSameColor(GemType::Blue))
    } else if p.color_points@[2] >= 10 {
        Some(VictoryReason::TenPointsSameColor(GemType::Green))
    } else if p.color_points@[3] >= 10 {
        Some(VictoryReason::TenPointsSameColor(GemType::Red))
    } else if p.color_points@[4] >= 10 {
        Some(VictoryReason::TenPointsSameColor(GemType::Black))
    } else {
        None
    }
}

/// Whether the player has met a victory condition, and which.
pub fn check_victory(player: &PlayerState) -> (r: Option<VictoryReason>)
    ensures
        r == spec_victory(*player),
{
    if player.total_points >= 20 {
        return Some(VictoryReason::TwentyPrestigePoints);
    }
    if player.total_crowns >= 10 {
        return Some(VictoryReason::TenCrowns);
    }
    let mut i: usize = 0;
    while i < 5
        invariant
            0 <= i <= 5,
            player.total_points < 20,
            player.total_crowns < 10,
            forall|j: int| 0 <= j < i ==> player.color_points@[j] < 10,
        decreases 5 - i,
    {
        if player.color_points[i] >= 10 {
            return Some(VictoryReason::TenPointsSameColor(GemType::from_index(i).unwrap()));
        }
        i = i + 1;
    }
    None
}

/// A player has won exactly when one of the three conditions holds.
pub proof fn lemma_victory_iff(p: PlayerState)
    ensures
        spec_victory(p) is Some <==> (p.total_points >= 20 || p.total_crowns >= 10 || exists|i: int|
            0 <= i < 5 && p.color_points@[i] >= 10),
{
    if p.color_points@[0] >= 10 || p.color_points@[1] >= 10 || p.color_points@[2] >= 10
        || p.color_points@[3] >= 10 || p.color_points@[4] >= 10 {
    }
}

} // verus!
