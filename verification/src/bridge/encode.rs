use vstd::prelude::*;

use crate::game_state::board::{dir_c, dir_r, in_range};
use crate::game_state::player::PlayerState;
use crate::game_state::state::GameState;
use crate::gameplay::rules::{can_buy, is_legal, RuleEngine};
use crate::gameplay::scoring::spec_victory;
use crate::model::action::Action;
use crate::model::card::{CardColor, CardTier, JewelCard};
use crate::model::token::GemType;

verus! {

/// Features per card slot of the observation.
pub const CARD_FEAT_DIM: usize = 38;

/// Reserved-card slots per player in the observation.
pub const RESERVED_CARDS_SLOTS: usize = 3;

/// Features per player in the observation.
pub const PLAYER_DASHBOARD_DIM: usize = 24 + RESERVED_CARDS_SLOTS * CARD_FEAT_DIM;

/// Length of the observation vector.
pub const OBS_SIZE: usize = 225 + 12 * CARD_FEAT_DIM + 4 + 2 * PLAYER_DASHBOARD_DIM + 44;

/// Number of discrete action ids.
pub const ACTION_SIZE: usize = 288;

/// A line of two or three cells of the board (unused positions are (0, 0)).
#[derive(Debug, Clone, Copy, PartialEq, Eq)]
pub struct LineDef {
    pub count: u8,
    pub positions: [(usize, usize); 3],
}

/// The line of `count` (2 or 3) cells from (r, c) in direction `d`.
pub open spec fn line_def(d: int, r: int, c: int, count: u8) -> LineDef {
    LineDef {
        count,
        positions: [
            (r as usize, c as usize),
            ((r + dir_r(d)) as usize, (c + dir_c(d)) as usize),
            if count == 3 {
                ((r + 2 * dir_r(d)) as usize, (c + 2 * dir_c(d)) as usize)
            } else {
                (0usize, 0usize)
            },
        ],
    }
}

/// The lines that start at the `k`-th (direction, cell) pair, directions outermost and
/// cells in row-major order: the line of two if it fits on the board, then the line of
/// three if that fits too.
pub open spec fn line_entries(k: int) -> Seq<LineDef> {
    let d = k / 25;
    let r = (k % 25) / 5;
    let c = k % 5;
    if in_range(r + dir_r(d), c + dir_c(d)) {
        seq![line_def(d, r, c, 2)] + if in_range(r + 2 * dir_r(d), c + 2 * dir_c(d)) {
            seq![line_def(d, r, c, 3)]
        } else {
            Seq::empty()
        }
    } else {
        Seq::empty()
    }
}

/// The lines of the first `k` (direction, cell) pairs.
pub open spec fn lines_upto(k: int) -> Seq<LineDef>
    decreases k,
{
    if k <= 0 {
        Seq::empty()
    } else {
        lines_upto(k - 1) + line_entries(k - 1)
    }
}

/// All lines of two or three cells, in the order of the action ids.
pub open spec fn spec_all_lines() -> Seq<LineDef> {
    lines_upto(100)
}

/// `l` is the line named by `count` and `positions` (the third position only counts for
/// a line of three).
pub open spec fn line_matches(l: LineDef, count: u8, positions: [(usize, usize); 3]) -> bool {
    &&& l.count == count
    &&& l.positions@[0] == positions@[0]
    &&& l.positions@[1] == positions@[1]
    &&& (count == 2 || l.positions@[2] == positions@[2])
}

/// Index of the first line of `lines` from `i` on that matches, or 0 when none does.
pub open spec fn first_line_match(
    lines: Seq<LineDef>,
    count: u8,
    positions: [(usize, usize); 3],
    i: int,
) -> int
    decreases lines.len() - i,
{
    if i >= lines.len() || i < 0 {
        0
    } else if line_matches(lines[i], count, positions) {
        i
    } else {
        first_line_match(lines, count, positions, i + 1)
    }
}

/// Offset of a market slot's level among the twelve market slots (5, 4 and 3 per level).
pub open spec fn tier_offset(tier: CardTier) -> int {
    match tier {
        CardTier::Tier1 => 0,
        CardTier::Tier2 => 5,
        CardTier::Tier3 => 9,
    }
}

/// The discrete id of an action.
pub open spec fn spec_action_id(a: Action) -> int {
    match a {
        Action::SkipOptional => 0,
        Action::UsePrivilege { r, c } => 1 + (r * 5 + c),
        Action::ReplenishBoard => 26,
        Action::TakeTokens { count, positions } => if count == 1 {
            27 + (positions@[0].0 * 5 + positions@[0].1)
        } else {
            52 + first_line_match(spec_all_lines(), count, positions, 0)
        },
        Action::ReserveCard { tier, slot } => match slot {
            Some(s) => 172 + tier_offset(tier) + s,
            None => 184 + tier.spec_index(),
        },
        Action::PurchaseCard { from_reserved, tier, slot } => if from_reserved {
            199 + slot
        } else {
            187 + tier_offset(tier) + slot
        },
        Action::AssignJokerColor { color } => 202 + color.spec_index(),
        Action::TakeSameColorToken { r, c } => 207 + (r * 5 + c),
        Action::StealToken { gem } => 232 + gem.spec_index(),
        Action::SelectRoyal { royal_id } => 239 + royal_id,
        Action::DiscardToken { gem } => 243 + gem.spec_index(),
        Action::TakeGoldToken { r, c } => 250 + (r * 5 + c),
    }
}

/// Builds the table of lines (see `all_line_definitions`).
fn generate_all_line_definitions() -> (lines: Vec<LineDef>)
    ensures
        lines@ == spec_all_lines(),
{
    let mut lines: Vec<LineDef> = Vec::new();
    let mut k: usize = 0;
    while k < 100
        invariant
            0 <= k <= 100,
            lines@ == lines_upto(k as int),
        decreases 100 - k,
    {
        let d = k / 25;
        let r = ((k % 25) / 5) as isize;
        let c = (k % 5) as isize;
        let (dr, dc): (isize, isize) = if d == 0 {
            (0, 1)
        } else if d == 1 {
            (1, 0)
        } else if d == 2 {
            (1, 1)
        } else {
            (1, -1)
        };
        let ghost before = lines@;
        let r1 = r + dr;
        let c1 = c + dc;
        if 0 <= r1 && r1 < 5 && 0 <= c1 && c1 < 5 {
            let two = LineDef { count: 2, positions: [(r as usize, c as usize), (r1 as usize, c1 as usize), (0, 0)] };
            proof {
                assert(two == line_def(d as int, r as int, c as int, 2));
            }
            lines.push(two);
            let r2 = r1 + dr;
            let c2 = c1 + dc;
            if 0 <= r2 && r2 < 5 && 0 <= c2 && c2 < 5 {
                let three = LineDef {
                    count: 3,
                    positions: [(r as usize, c as usize), (r1 as usize, c1 as usize), (r2 as usize, c2 as usize)],
                };
                proof {
                    assert(three == line_def(d as int, r as int, c as int, 3));
                }
                lines.push(three);
            }
        }
        proof {
            assert(lines@ =~= before + line_entries(k as int));
        }
        k = k + 1;
    }
    lines
}

/// Every line of two or three cells, directions in the order right, down, down-right,
/// down-left, start cells in row-major order, the line of two before the line of three.
pub fn all_line_definitions() -> (lines: Vec<LineDef>)
    ensures
        lines@ == spec_all_lines(),
{
    generate_all_line_definitions()
}

/// Index of the first line of the table that matches, or 0 when none does.
fn line_index(count: u8, positions: [(usize, usize); 3]) -> (r: usize)
    ensures
        r == first_line_match(spec_all_lines(), count, positions, 0),
{
    let lines = all_line_definitions();
    let n = lines.len();
    let mut i: usize = 0;
    while i < n
        invariant
            0 <= i <= n,
            n == lines@.len(),
            lines@ == spec_all_lines(),
            first_line_match(lines@, count, positions, i as int) == first_line_match(
                lines@,
                count,
                positions,
                0,
            ),
        decreases n - i,
    {
        let l = lines[i];
        if l.count == count && l.positions[0].0 == positions[0].0 && l.positions[0].1 == positions[0].1
            && l.positions[1].0 == positions[1].0 && l.positions[1].1 == positions[1].1 && (count == 2
            || (l.positions[2].0 == positions[2].0 && l.positions[2].1 == positions[2].1)) {
            return i;
        }
        i = i + 1;
    }
    0
}

/// The discrete id of `action` (see `spec_action_id`); it is computed in
/// `usize`, so it must fit.
pub fn action_to_id(action: &Action) -> (id: usize)
    requires
        spec_action_id(*action) <= usize::MAX,
    ensures
        id == spec_action_id(*action),
{
    match *action {
        Action::SkipOptional => 0,
        Action::UsePrivilege { r, c } => 1 + (r * 5 + c),
        Action::ReplenishBoard => 26,
        Action::TakeTokens { count, positions } => {
            if count == 1 {
                let (r, c) = positions[0];
                27 + (r * 5 + c)
            } else {
                52 + line_index(count, positions)
            }
        },
        Action::ReserveCard { tier, slot } => match slot {
            Some(s) => {
                let offset: usize = match tier {
                    CardTier::Tier1 => 0,
                    CardTier::Tier2 => 5,
                    CardTier::Tier3 => 9,
                };
                172 + offset + s
            },
            None => 184 + tier.index(),
        },
        Action::PurchaseCard { from_reserved, tier, slot } => {
            if from_reserved {
                199 + slot
            } else {
                let offset: usize = match tier {
                    CardTier::Tier1 => 0,
                    CardTier::Tier2 => 5,
                    CardTier::Tier3 => 9,
                };
                187 + offset + slot
            }
        },
        Action::AssignJokerColor { color } => 202 + color.index(),
        Action::TakeSameColorToken { r, c } => 207 + (r * 5 + c),
        Action::StealToken { gem } => 232 + gem.index(),
        Action::SelectRoyal { royal_id } => 239 + royal_id as usize,
        Action::DiscardToken { gem } => 243 + gem.index(),
        Action::TakeGoldToken { r, c } => 250 + (r * 5 + c),
    }
}

/// The mask of the ids of `legals`: entry `i` is set exactly when some action of the
/// list has id `i` (ids past the mask are ignored).
pub fn action_mask_from_legals(legals: &[Action]) -> (mask: [bool; ACTION_SIZE])
    requires
        forall|i: int| 0 <= i < legals@.len() ==> spec_action_id(#[trigger] legals@[i]) <= usize::MAX,
    ensures
        forall|id: int|
            0 <= id < ACTION_SIZE ==> (mask@[id] <==> exists|i: int|
                0 <= i < legals@.len() && spec_action_id(#[trigger] legals@[i]) == id),
{
    let mut mask = [false; ACTION_SIZE];
    let n = legals.len();
    let mut k: usize = 0;
    while k < n
        invariant
            0 <= k <= n,
            n == legals@.len(),
            forall|i: int| 0 <= i < legals@.len() ==> spec_action_id(#[trigger] legals@[i]) <= usize::MAX,
            forall|id: int|
                0 <= id < ACTION_SIZE ==> (mask@[id] <==> exists|i: int|
                    0 <= i < k && spec_action_id(#[trigger] legals@[i]) == id),
        decreases n - k,
    {
        let id = action_to_id(&legals[k]);
        if id < ACTION_SIZE {
            mask[id] = true;
        }
        proof {
            assert forall|j: int|
                0 <= j < ACTION_SIZE implies (mask@[j] <==> exists|i: int|
                    0 <= i < k + 1 && spec_action_id(#[trigger] legals@[i]) == j) by {
                if j == id {
                    assert(spec_action_id(legals@[k as int]) == j);
                }
            }
        }
        k = k + 1;
    }
    mask
}

/// Number of lines that start at the `k`-th (direction, cell) pair.
pub open spec fn line_entries_len(k: int) -> int {
    let d = k / 25;
    let r = (k % 25) / 5;
    let c = k % 5;
    if in_range(r + dir_r(d), c + dir_c(d)) {
        if in_range(r + 2 * dir_r(d), c + 2 * dir_c(d)) {
            2
        } else {
            1
        }
    } else {
        0
    }
}

/// Number of lines of the first `k` (direction, cell) pairs.
pub open spec fn lines_upto_len(k: int) -> int
    decreases k,
{
    if k <= 0 {
        0
    } else {
        lines_upto_len(k - 1) + line_entries_len(k - 1)
    }
}

proof fn lemma_lines_upto_len(k: int)
    requires
        0 <= k,
    ensures
        lines_upto(k).len() == lines_upto_len(k),
    decreases k,
{
    if k > 0 {
        lemma_lines_upto_len(k - 1);
    }
}

/// The table holds 120 lines.
pub proof fn lemma_all_lines_len()
    ensures
        spec_all_lines().len() == 120,
{
    lemma_lines_upto_len(100);
    assert(lines_upto_len(25) == 35) by {
        reveal_with_fuel(lines_upto_len, 26);
    }
    assert(lines_upto_len(50) == 70) by {
        reveal_with_fuel(lines_upto_len, 26);
    }
    assert(lines_upto_len(75) == 95) by {
        reveal_with_fuel(lines_upto_len, 26);
    }
    assert(lines_upto_len(100) == 120) by {
        reveal_with_fuel(lines_upto_len, 26);
    }
}

/// The search returns an index of the table (or 0).
proof fn lemma_first_line_match_bound(lines: Seq<LineDef>, count: u8, positions: [(usize, usize); 3], i: int)
    requires
        0 <= i,
    ensures
        first_line_match(lines, count, positions, i) == 0 || (i <= first_line_match(lines, count, positions, i) < lines.len()),
    decreases lines.len() - i,
{
    if i < lines.len() && !line_matches(lines[i], count, positions) {
        lemma_first_line_match_bound(lines, count, positions, i + 1);
    }
}

/// Distinct cells have distinct row-major indices.
proof fn lemma_cell_index_injective(r1: int, c1: int, r2: int, c2: int)
    requires
        in_range(r1, c1),
        in_range(r2, c2),
        r1 * 5 + c1 == r2 * 5 + c2,
    ensures
        r1 == r2,
        c1 == c2,
{
    assert(r1 == r2 && c1 == c2) by (nonlinear_arith)
        requires
            0 <= c1 < 5,
            0 <= c2 < 5,
            r1 * 5 + c1 == r2 * 5 + c2,
    ;
}

/// The table up to the `k`-th pair is a prefix of the table up to any later pair.
proof fn lemma_lines_upto_prefix(k: int, m: int)
    requires
        0 <= k <= m,
    ensures
        lines_upto(k).len() <= lines_upto(m).len(),
        forall|j: int| 0 <= j < lines_upto(k).len() ==> #[trigger] lines_upto(m)[j] == lines_upto(k)[j],
    decreases m - k,
{
    if k < m {
        lemma_lines_upto_prefix(k, m - 1);
    }
}

/// Every line of two or three cells of the board is in the table.
proof fn lemma_line_in_table(d: int, r: int, c: int, count: u8) -> (j: int)
    requires
        0 <= d < 4,
        in_range(r, c),
        2 <= count <= 3,
        in_range(r + dir_r(d), c + dir_c(d)),
        count == 3 ==> in_range(r + 2 * dir_r(d), c + 2 * dir_c(d)),
    ensures
        0 <= j < spec_all_lines().len(),
        spec_all_lines()[j] == line_def(d, r, c, count),
{
    let k = d * 25 + r * 5 + c;
    assert(k / 25 == d && (k % 25) / 5 == r && k % 5 == c) by (nonlinear_arith)
        requires
            k == d * 25 + r * 5 + c,
            0 <= d < 4,
            0 <= r < 5,
            0 <= c < 5,
    ;
    lemma_lines_upto_prefix(k + 1, 100);
    let j = lines_upto(k).len() + (count - 2);
    assert(lines_upto(k + 1) == lines_upto(k) + line_entries(k));
    assert(lines_upto(k + 1)[j] == line_def(d, r, c, count));
    j
}

/// The search finds a matching line at or before any matching line.
proof fn lemma_first_line_match_found(
    lines: Seq<LineDef>,
    count: u8,
    positions: [(usize, usize); 3],
    i: int,
    j: int,
)
    requires
        0 <= i <= j < lines.len(),
        line_matches(lines[j], count, positions),
    ensures
        i <= first_line_match(lines, count, positions, i) <= j,
        line_matches(lines[first_line_match(lines, count, positions, i)], count, positions),
    decreases j - i,
{
    if !line_matches(lines[i], count, positions) {
        lemma_first_line_match_found(lines, count, positions, i + 1, j);
    }
}

/// A legal take of two or three tokens finds its line in the table: the id's index names
/// a line that matches it.
proof fn lemma_take_line_index(s: GameState, count: u8, positions: [(usize, usize); 3])
    requires
        crate::gameplay::rules::is_token_line(s.board, count as int, positions),
        count >= 2,
    ensures
        0 <= first_line_match(spec_all_lines(), count, positions, 0) < 120,
        line_matches(
            spec_all_lines()[first_line_match(spec_all_lines(), count, positions, 0)],
            count,
            positions,
        ),
        count == 2 ==> positions@[2] == (0usize, 0usize),
{
    let (d, r, c) = choose|d: int, r: int, c: int|
        #![trigger s.board.line_valid(count as int, d, r, c)]
        s.board.line_valid(count as int, d, r, c) && crate::game_state::board::is_line_at(
            count as int,
            positions,
            d,
            r,
            c,
        );
    lemma_all_lines_len();
    let j = lemma_line_in_table(d, r, c, count);
    assert(line_matches(spec_all_lines()[j], count, positions));
    lemma_first_line_match_found(spec_all_lines(), count, positions, 0, j);
}

/// A legal take has an id among those of takes (27 to 171).
proof fn lemma_take_id_range(s: GameState, count: u8, positions: [(usize, usize); 3])
    requires
        crate::gameplay::rules::is_token_line(s.board, count as int, positions),
    ensures
        27 <= spec_action_id(Action::TakeTokens { count, positions }) <= 171,
{
    let (d, r, c) = choose|d: int, r: int, c: int|
        #![trigger s.board.line_valid(count as int, d, r, c)]
        s.board.line_valid(count as int, d, r, c) && crate::game_state::board::is_line_at(
            count as int,
            positions,
            d,
            r,
            c,
        );
    if count >= 2 {
        lemma_take_line_index(s, count, positions);
    }
}

/// Every legal move has an id below 275, inside the action mask (ids 275 to 287 are never
/// used).
pub proof fn lemma_legal_action_id_in_range(s: GameState, a: Action)
    requires
        s.well_formed(),
        is_legal(s, a),
    ensures
        0 <= spec_action_id(a) < 275,
{
    assert(s.row(0).len() <= 5 && s.row(1).len() <= 4 && s.row(2).len() <= 3);
    assert(s.players@[s.cp()].reserved_cards@.len() <= 3);
    match a {
        Action::TakeTokens { count, positions } => {
            let (d, r, c) = choose|d: int, r: int, c: int|
                #![trigger s.board.line_valid(count as int, d, r, c)]
                s.board.line_valid(count as int, d, r, c) && crate::game_state::board::is_line_at(
                    count as int,
                    positions,
                    d,
                    r,
                    c,
                );
            if count >= 2 {
                lemma_take_line_index(s, count, positions);
            }
        },
        Action::SelectRoyal { royal_id } => {
            let i = choose|i: int| 0 <= i < s.royal_cards@.len() && #[trigger] s.royal_cards@[i].id == royal_id;
        },
        _ => {},
    }
}

/// Two legal moves of one state with the same id are the same move, so the action mask
/// has one entry per legal move.
pub proof fn lemma_legal_action_ids_distinct(s: GameState, a: Action, b: Action)
    requires
        s.well_formed(),
        is_legal(s, a),
        is_legal(s, b),
        spec_action_id(a) == spec_action_id(b),
    ensures
        a == b,
{
    lemma_legal_action_id_in_range(s, a);
    lemma_legal_action_id_in_range(s, b);
    if let Action::TakeTokens { count, positions } = a {
        lemma_take_id_range(s, count, positions);
    }
    if let Action::TakeTokens { count, positions } = b {
        lemma_take_id_range(s, count, positions);
    }
    assert(s.row(0).len() <= 5 && s.row(1).len() <= 4 && s.row(2).len() <= 3);
    assert(s.players@[s.cp()].reserved_cards@.len() <= 3);
    match (a, b) {
        (Action::UsePrivilege { r: r1, c: c1 }, Action::UsePrivilege { r: r2, c: c2 }) => {
            lemma_cell_index_injective(r1 as int, c1 as int, r2 as int, c2 as int);
        },
        (Action::TakeSameColorToken { r: r1, c: c1 }, Action::TakeSameColorToken { r: r2, c: c2 }) => {
            lemma_cell_index_injective(r1 as int, c1 as int, r2 as int, c2 as int);
        },
        (Action::TakeGoldToken { r: r1, c: c1 }, Action::TakeGoldToken { r: r2, c: c2 }) => {
            lemma_cell_index_injective(r1 as int, c1 as int, r2 as int, c2 as int);
        },
        (
            Action::TakeTokens { count: n1, positions: p1 },
            Action::TakeTokens { count: n2, positions: p2 },
        ) => {
            if n1 >= 2 {
                lemma_take_line_index(s, n1, p1);
            }
            if n2 >= 2 {
                lemma_take_line_index(s, n2, p2);
            }
            if n1 == 1 && n2 == 1 {
                let (d1, x1, y1) = choose|d: int, r: int, c: int|
                    #![trigger s.board.line_valid(1, d, r, c)]
                    s.board.line_valid(1, d, r, c) && crate::game_state::board::is_line_at(1, p1, d, r, c);
                let (d2, x2, y2) = choose|d: int, r: int, c: int|
                    #![trigger s.board.line_valid(1, d, r, c)]
                    s.board.line_valid(1, d, r, c) && crate::game_state::board::is_line_at(1, p2, d, r, c);
                lemma_cell_index_injective(x1, y1, x2, y2);
            }
            assert(p1@[0] == p2@[0] && p1@[1] == p2@[1] && p1@[2] == p2@[2]);
            assert(p1 =~= p2);
        },
        (Action::ReserveCard { tier: t1, slot: s1 }, Action::ReserveCard { tier: t2, slot: s2 }) => {
            assert(t1 == t2);
            assert(s1 == s2);
        },
        (
            Action::PurchaseCard { from_reserved: f1, tier: t1, slot: s1 },
            Action::PurchaseCard { from_reserved: f2, tier: t2, slot: s2 },
        ) => {
            assert(f1 == f2);
            assert(s1 == s2);
            assert(t1 == t2);
        },
        _ => {},
    }
}

/// The action mask of a state: entry `i` is set exactly when some legal move has id `i`.
pub fn action_mask(state: &GameState) -> (mask: [bool; ACTION_SIZE])
    requires
        state.current_player < 2,
        state.lists_fit(),
        state.may_buy() ==> state.price_sums_fit(),
        forall|a: Action| #[trigger] is_legal(*state, a) ==> spec_action_id(a) <= usize::MAX,
    ensures
        forall|id: int|
            0 <= id < ACTION_SIZE ==> (mask@[id] <==> exists|a: Action|
                is_legal(*state, a) && #[trigger] spec_action_id(a) == id),
{
    let legals = RuleEngine::legal_actions(state);
    proof {
        assert forall|i: int| 0 <= i < legals@.len() implies spec_action_id(#[trigger] legals@[i])
            <= usize::MAX by {
            assert(legals@.contains(legals@[i]));
            assert(is_legal(*state, legals@[i]));
        }
    }
    let mask = action_mask_from_legals(legals.as_slice());
    proof {
        assert forall|id: int| 0 <= id < ACTION_SIZE implies (mask@[id] <==> exists|a: Action|
            is_legal(*state, a) && #[trigger] spec_action_id(a) == id) by {
            if mask@[id] {
                let i = choose|i: int| 0 <= i < legals@.len() && spec_action_id(#[trigger] legals@[i]) == id;
                assert(legals@.contains(legals@[i]));
            }
            if exists|a: Action| is_legal(*state, a) && #[trigger] spec_action_id(a) == id {
                let a = choose|a: Action| is_legal(*state, a) && #[trigger] spec_action_id(a) == id;
                assert(legals@.contains(a));
                let i = choose|i: int| 0 <= i < legals@.len() && legals@[i] == a;
                assert(spec_action_id(legals@[i]) == id);
            }
        }
    }
    mask
}

/// With `c`, the prestige of the `i`-th colour of `p` reaches 10.
pub open spec fn colour_reaches_ten(p: PlayerState, c: JewelCard, i: int) -> bool {
    p.color_points@[i] + c.points >= 10
}

/// Buying `c` would win the game at once for `p`: the card can be bought (a joker needs a
/// bonus) and it brings the prestige total to 20, the crowns to 10, or the prestige of
/// one colour to 10 (a joker with prestige can join any colour the player has a bonus in).
pub open spec fn spec_can_win_with_card(p: PlayerState, c: JewelCard) -> bool {
    &&& !(c.color == CardColor::Joker && !p.spec_has_any_bonus())
    &&& p.spec_can_afford(c)
    &&& {
        ||| p.total_points + c.points >= 20
        ||| p.total_crowns + c.crowns >= 10
        ||| (c.color.spec_to_gem_type() matches Some(g) && p.color_points@[g.spec_index()] + c.points >= 10)
        ||| (c.color == CardColor::Joker && c.points > 0 && exists|i: int|
            0 <= i < 5 && p.bonuses@[i] > 0 && #[trigger] colour_reaches_ten(p, c, i))
    }
}

/// Winning with a card means that buying it wins: for a player who has not won yet, and
/// sums within `u8`, buying `c` is judged winning exactly when the player may buy it and,
/// once it is played (a joker in some colour the player has a bonus in), the player meets
/// a victory condition.
pub proof fn lemma_can_win_is_victory_after_buying(p: PlayerState, c: JewelCard)
    requires
        spec_victory(p) is None,
        p.total_points + c.points <= u8::MAX,
        p.total_crowns + c.crowns <= u8::MAX,
        forall|i: int| 0 <= i < 5 ==> #[trigger] p.color_points@[i] + c.points <= u8::MAX,
    ensures
        c.color != CardColor::Joker ==> (spec_can_win_with_card(p, c) <==> (can_buy(p, c) && spec_victory(
            p.played(c, None),
        ) is Some)),
        c.color == CardColor::Joker ==> (spec_can_win_with_card(p, c) <==> (can_buy(p, c) && exists|g: GemType|
            g.spec_is_basic() && p.bonuses@[g.spec_index()] > 0 && (#[trigger] spec_victory(p.played(c, Some(g))))
                is Some)),
{
    if c.color == CardColor::Joker {
        let gems = seq![GemType::White, GemType::Blue, GemType::Green, GemType::Red, GemType::Black];
        assert forall|i: int| 0 <= i < 5 implies #[trigger] gems[i].spec_index() == i by {}
        if spec_can_win_with_card(p, c) {
            let i = if c.points > 0 && exists|i: int| 0 <= i < 5 && p.bonuses@[i] > 0 && #[trigger] colour_reaches_ten(p, c, i) {
                choose|i: int| 0 <= i < 5 && p.bonuses@[i] > 0 && #[trigger] colour_reaches_ten(p, c, i)
            } else {
                choose|i: int| 0 <= i < 5 && p.bonuses@[i] > 0
            };
            let g = gems[i];
            assert(g.spec_index() == i);
            assert(g.spec_is_basic() && p.bonuses@[g.spec_index()] > 0);
            assert(spec_victory(p.played(c, Some(g))) is Some);
        }
        if can_buy(p, c) && exists|g: GemType|
            g.spec_is_basic() && p.bonuses@[g.spec_index()] > 0 && (#[trigger] spec_victory(p.played(c, Some(g))))
                is Some {
            let g = choose|g: GemType|
                g.spec_is_basic() && p.bonuses@[g.spec_index()] > 0 && (#[trigger] spec_victory(p.played(c, Some(g))))
                    is Some;
            let i = g.spec_index();
            if !(p.total_points + c.points >= 20) && !(p.total_crowns + c.crowns >= 10) {
                assert(colour_reaches_ten(p, c, i));
            }
        }
    }
}

/// Whether buying `c` wins the game at once for `p` (see `spec_can_win_with_card`). The sums
/// involved are added in `u8`, so they must fit.
pub fn can_player_win_with_card(p: &PlayerState, c: &JewelCard) -> (r: bool)
    requires
        p.gold_needed(*c) <= u8::MAX,
        p.total_points + c.points <= u8::MAX,
        p.total_crowns + c.crowns <= u8::MAX,
        forall|i: int| 0 <= i < 5 ==> #[trigger] p.color_points@[i] + c.points <= u8::MAX,
    ensures
        r == spec_can_win_with_card(*p, *c),
{
    if c.color == CardColor::Joker && !p.has_any_bonus() {
        return false;
    }
    if !p.can_afford(c) {
        return false;
    }
    if p.total_points + c.points >= 20 || p.total_crowns + c.crowns >= 10 {
        return true;
    }
    if let Some(gem) = c.color.to_gem_type() {
        if p.color_points[gem.index()] + c.points >= 10 {
            return true;
        }
    } else if c.color == CardColor::Joker && c.points > 0 {
        let mut i: usize = 0;
        while i < 5
            invariant
                0 <= i <= 5,
                forall|i: int| 0 <= i < 5 ==> #[trigger] p.color_points@[i] + c.points <= u8::MAX,
                forall|j: int| 0 <= j < i ==> !(p.bonuses@[j] > 0 && #[trigger] colour_reaches_ten(*p, *c, j)),
                c.color == CardColor::Joker,
                c.points > 0,
                p.spec_has_any_bonus(),
                p.spec_can_afford(*c),
            decreases 5 - i,
        {
            let gem = GemType::from_index(i).unwrap();
            if p.get_bonus(gem) > 0 && p.color_points[i] + c.points >= 10 {
                assert(p.bonuses@[i as int] > 0 && colour_reaches_ten(*p, *c, i as int));
                return true;
            }
            i = i + 1;
        }
    }
    false
}

} // verus!
