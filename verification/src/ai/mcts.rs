use vstd::prelude::*;

use crate::game_state::board::Board;
use crate::game_state::phase::TurnPhase;
use crate::game_state::player::PlayerState;
use crate::game_state::state::GameState;
use crate::gameplay::engine::{step_post, GameEngine};
use crate::gameplay::invariants::{game_invariant, lemma_discard_room, lemma_step_keeps_invariant};
use crate::gameplay::rules::{is_legal, lemma_legal_action_accepted, RuleEngine};
use crate::model::action::Action;
use crate::model::card::{JewelCard, ReservedCard, RoyalCard};
use crate::model::token::GemType;

verus! {

/// Simulations between two redraws of the hidden cards in a search.
pub const MIS_BLOCK_SIZE: usize = 8;

/// FNV-1a 64-bit offset basis.
pub const FNV_OFFSET: u64 = 0xcbf29ce484222325;

/// FNV-1a 64-bit prime.
pub const FNV_PRIME: u64 = 0x100000001b3;

// ---------------------------------------------------------------------------------------
// Position hash
// ---------------------------------------------------------------------------------------

/// One FNV-1a step: xor the word in, then multiply by the prime modulo 2^64.
pub open spec fn fnv_mix(h: u64, v: u64) -> u64 {
    vstd::wrapping::u64_specs::wrapping_mul(h ^ v, FNV_PRIME)
}

/// FNV-1a over a sequence of words, from the hash `h`.
pub open spec fn fnv_fold(h: u64, words: Seq<u64>) -> u64
    decreases words.len(),
{
    if words.len() == 0 {
        h
    } else {
        fnv_mix(fnv_fold(h, words.drop_last()), words.last())
    }
}

/// Hashing two sequences in turn hashes their concatenation.
proof fn lemma_fnv_concat(h: u64, a: Seq<u64>, b: Seq<u64>)
    ensures
        fnv_fold(h, a + b) == fnv_fold(fnv_fold(h, a), b),
    decreases b.len(),
{
    if b.len() == 0 {
        assert(a + b =~= a);
    } else {
        lemma_fnv_concat(h, a, b.drop_last());
        assert((a + b).drop_last() =~= a + b.drop_last());
    }
}

/// The word of a board cell: 0 when empty, else one more than the token kind's index.
pub open spec fn cell_word(g: Option<GemType>) -> u64 {
    match g {
        Some(g) => (g.spec_index() + 1) as u64,
        None => 0,
    }
}

/// The 25 cells of the board, row by row.
pub open spec fn board_words(b: Board) -> Seq<u64> {
    Seq::new(25, |k: int| cell_word(b.cell(k / 5, k % 5)))
}

/// The ids of a list of cards.
pub open spec fn id_words(cs: Seq<JewelCard>) -> Seq<u64> {
    cs.map_values(|c: JewelCard| c.id as u64)
}

/// The ids of the royal cards.
pub open spec fn royal_words(rs: Seq<RoyalCard>) -> Seq<u64> {
    rs.map_values(|r: RoyalCard| r.id as u64)
}

/// A reserved card's word: its id shifted left by one, with the low bit set when public.
pub open spec fn reserved_word(rc: ReservedCard) -> u64 {
    ((rc.card.id as u64) << 1u64) | (if rc.is_public { 1u64 } else { 0u64 })
}

/// What a player contributes to the hash: its token counts, prestige, crowns,
/// privilege scrolls, bonuses, bought cards' ids and reserved cards.
pub open spec fn player_words(p: PlayerState) -> Seq<u64> {
    Seq::new(7, |i: int| p.tokens.counts@[i] as u64) + seq![
        p.total_points as u64,
        p.total_crowns as u64,
        p.privileges as u64,
    ] + Seq::new(5, |i: int| p.bonuses@[i] as u64) + id_words(p.cards@) + p.reserved_cards@.map_values(
        |rc: ReservedCard| reserved_word(rc),
    )
}

/// The words hashed for a state: player to move, privilege pool, extra turn, turn
/// number, the board, the market rows, the royal cards, then each player.
pub open spec fn state_words(s: GameState) -> Seq<u64> {
    seq![
        s.current_player as u64,
        s.privilege_pool as u64,
        if s.extra_turn_granted { 1u64 } else { 0u64 },
        s.turn_number as u64,
    ] + board_words(s.board) + id_words(s.row(0)) + id_words(s.row(1)) + id_words(s.row(2)) + royal_words(
        s.royal_cards@,
    ) + player_words(s.players@[0]) + player_words(s.players@[1])
}

/// One FNV-1a step.
fn mix(h: u64, v: u64) -> (r: u64)
    ensures
        r == fnv_mix(h, v),
{
    (h ^ v).wrapping_mul(FNV_PRIME)
}

/// Hashes the ids of `cards` into `h`.
fn mix_ids(h: u64, cards: &[JewelCard]) -> (r: u64)
    ensures
        r == fnv_fold(h, id_words(cards@)),
{
    let mut acc = h;
    let mut i: usize = 0;
    while i < cards.len()
        invariant
            0 <= i <= cards@.len(),
            acc == fnv_fold(h, id_words(cards@.subrange(0, i as int))),
        decreases cards@.len() - i,
    {
        proof {
            assert(id_words(cards@.subrange(0, i as int + 1)).drop_last() =~= id_words(cards@.subrange(0, i as int)));
        }
        acc = mix(acc, cards[i].id as u64);
        i = i + 1;
    }
    proof {
        assert(cards@.subrange(0, cards@.len() as int) =~= cards@);
    }
    acc
}

/// Hashes the cells of the board into `h`, row by row.
fn mix_board(h: u64, b: &Board) -> (r: u64)
    ensures
        r == fnv_fold(h, board_words(*b)),
{
    let mut acc = h;
    let mut k: usize = 0;
    while k < 25
        invariant
            0 <= k <= 25,
            acc == fnv_fold(h, board_words(*b).subrange(0, k as int)),
        decreases 25 - k,
    {
        proof {
            assert(board_words(*b).subrange(0, k as int + 1).drop_last() =~= board_words(*b).subrange(0, k as int));
        }
        let v: u64 = match b.grid[k / 5][k % 5] {
            Some(g) => g.index() as u64 + 1,
            None => 0,
        };
        acc = mix(acc, v);
        k = k + 1;
    }
    proof {
        assert(board_words(*b).subrange(0, 25) =~= board_words(*b));
    }
    acc
}

/// Hashes a player into `h`.
fn mix_player(h: u64, p: &PlayerState) -> (r: u64)
    ensures
        r == fnv_fold(h, player_words(*p)),
{
    let ghost counts = Seq::new(7, |i: int| p.tokens.counts@[i] as u64);
    let ghost bonuses = Seq::new(5, |i: int| p.bonuses@[i] as u64);
    let ghost stats = seq![p.total_points as u64, p.total_crowns as u64, p.privileges as u64];
    let ghost reserved = p.reserved_cards@.map_values(|rc: ReservedCard| reserved_word(rc));
    let mut acc = h;
    let mut i: usize = 0;
    while i < 7
        invariant
            0 <= i <= 7,
            counts == Seq::new(7, |j: int| p.tokens.counts@[j] as u64),
            acc == fnv_fold(h, counts.subrange(0, i as int)),
        decreases 7 - i,
    {
        proof {
            assert(counts.subrange(0, i as int + 1).drop_last() =~= counts.subrange(0, i as int));
        }
        acc = mix(acc, p.tokens.counts[i] as u64);
        i = i + 1;
    }
    proof {
        assert(counts.subrange(0, 7) =~= counts);
    }
    let ghost h1 = acc;
    acc = mix(acc, p.total_points as u64);
    acc = mix(acc, p.total_crowns as u64);
    acc = mix(acc, p.privileges as u64);
    proof {
        reveal_with_fuel(fnv_fold, 4);
        assert(acc == fnv_fold(h1, stats));
        lemma_fnv_concat(h, counts, stats);
    }
    let ghost h2 = acc;
    let mut i: usize = 0;
    while i < 5
        invariant
            0 <= i <= 5,
            bonuses == Seq::new(5, |j: int| p.bonuses@[j] as u64),
            acc == fnv_fold(h2, bonuses.subrange(0, i as int)),
        decreases 5 - i,
    {
        proof {
            assert(bonuses.subrange(0, i as int + 1).drop_last() =~= bonuses.subrange(0, i as int));
        }
        acc = mix(acc, p.bonuses[i] as u64);
        i = i + 1;
    }
    proof {
        assert(bonuses.subrange(0, 5) =~= bonuses);
        lemma_fnv_concat(h, counts + stats, bonuses);
    }
    let ghost h3 = acc;
    acc = mix_ids(acc, p.cards.as_slice());
    proof {
        lemma_fnv_concat(h, counts + stats + bonuses, id_words(p.cards@));
    }
    let ghost h4 = acc;
    let n = p.reserved_cards.len();
    let mut i: usize = 0;
    while i < n
        invariant
            0 <= i <= n,
            n == p.reserved_cards@.len(),
            reserved == p.reserved_cards@.map_values(|rc: ReservedCard| reserved_word(rc)),
            acc == fnv_fold(h4, reserved.subrange(0, i as int)),
        decreases n - i,
    {
        proof {
            assert(reserved.subrange(0, i as int + 1).drop_last() =~= reserved.subrange(0, i as int));
        }
        let rc = p.reserved_cards[i];
        let v: u64 = ((rc.card.id as u64) << 1u64) | (if rc.is_public { 1u64 } else { 0u64 });
        acc = mix(acc, v);
        i = i + 1;
    }
    proof {
        assert(reserved.subrange(0, n as int) =~= reserved);
        lemma_fnv_concat(h, counts + stats + bonuses + id_words(p.cards@), reserved);
        assert(player_words(*p) =~= counts + stats + bonuses + id_words(p.cards@) + reserved);
    }
    acc
}

/// Hashes the ids of the royal cards into `h`.
fn mix_royals(h: u64, royals: &[RoyalCard]) -> (r: u64)
    ensures
        r == fnv_fold(h, royal_words(royals@)),
{
    let mut acc = h;
    let mut i: usize = 0;
    while i < royals.len()
        invariant
            0 <= i <= royals@.len(),
            acc == fnv_fold(h, royal_words(royals@.subrange(0, i as int))),
        decreases royals@.len() - i,
    {
        proof {
            assert(royal_words(royals@.subrange(0, i as int + 1)).drop_last() =~= royal_words(
                royals@.subrange(0, i as int),
            ));
        }
        acc = mix(acc, royals[i].id as u64);
        i = i + 1;
    }
    proof {
        assert(royals@.subrange(0, royals@.len() as int) =~= royals@);
    }
    acc
}

/// A 64-bit FNV-1a hash of what distinguishes a position: the player to move, the
/// privilege pool, the extra turn, the turn number, the board, the market, the royal
/// cards and, for each player, its tokens, prestige, crowns, scrolls, bonuses, bought
/// cards and reserved cards (see `state_words`).
pub fn fast_state_hash(state: &GameState) -> (r: u64)
    ensures
        r == fnv_fold(FNV_OFFSET, state_words(*state)),
{
    let ghost head = seq![
        state.current_player as u64,
        state.privilege_pool as u64,
        if state.extra_turn_granted { 1u64 } else { 0u64 },
        state.turn_number as u64,
    ];
    let mut h = FNV_OFFSET;
    h = mix(h, state.current_player as u64);
    h = mix(h, state.privilege_pool as u64);
    h = mix(h, if state.extra_turn_granted { 1u64 } else { 0u64 });
    h = mix(h, state.turn_number as u64);
    proof {
        reveal_with_fuel(fnv_fold, 5);
        assert(h == fnv_fold(FNV_OFFSET, head));
    }
    h = mix_board(h, &state.board);
    proof {
        lemma_fnv_concat(FNV_OFFSET, head, board_words(state.board));
    }
    let ghost w1 = head + board_words(state.board);
    h = mix_ids(h, state.pyramid[0].as_slice());
    proof {
        lemma_fnv_concat(FNV_OFFSET, w1, id_words(state.row(0)));
    }
    let ghost w2 = w1 + id_words(state.row(0));
    h = mix_ids(h, state.pyramid[1].as_slice());
    proof {
        lemma_fnv_concat(FNV_OFFSET, w2, id_words(state.row(1)));
    }
    let ghost w3 = w2 + id_words(state.row(1));
    h = mix_ids(h, state.pyramid[2].as_slice());
    proof {
        lemma_fnv_concat(FNV_OFFSET, w3, id_words(state.row(2)));
    }
    let ghost w4 = w3 + id_words(state.row(2));
    h = mix_royals(h, state.royal_cards.as_slice());
    proof {
        lemma_fnv_concat(FNV_OFFSET, w4, royal_words(state.royal_cards@));
    }
    let ghost w5 = w4 + royal_words(state.royal_cards@);
    h = mix_player(h, &state.players[0]);
    proof {
        lemma_fnv_concat(FNV_OFFSET, w5, player_words(state.players@[0]));
    }
    let ghost w6 = w5 + player_words(state.players@[0]);
    h = mix_player(h, &state.players[1]);
    proof {
        lemma_fnv_concat(FNV_OFFSET, w6, player_words(state.players@[1]));
        assert(state_words(*state) =~= w6 + player_words(state.players@[1]));
    }
    h
}

// ---------------------------------------------------------------------------------------
// Simulation budget
// ---------------------------------------------------------------------------------------

/// `x` clamped below by `lo`, then above by `hi`.
pub open spec fn spec_max_min(x: int, lo: int, hi: int) -> int {
    let y = if x < lo { lo } else { x };
    if y > hi { hi } else { y }
}

/// The simulation budget for a decision: with one move or no budget, one simulation (or
/// none); in the light phases (optional actions, discards, royal choice) a quarter of the
/// budget, at least 10; with two or three moves a third, at least 12; else the full
/// budget; never more than the budget.
pub open spec fn spec_adaptive_sims(phase: TurnPhase, num_legals: int, base_sims: int) -> int {
    if num_legals <= 1 || base_sims == 0 {
        if num_legals <= 1 {
            if base_sims < 1 { base_sims } else { 1 }
        } else {
            base_sims
        }
    } else {
        match phase {
            TurnPhase::OptionalActions | TurnPhase::DiscardTokens | TurnPhase::SelectRoyalCard => spec_max_min(
                base_sims / 4,
                10,
                base_sims,
            ),
            _ => if num_legals <= 3 {
                spec_max_min(base_sims / 3, 12, base_sims)
            } else {
                base_sims
            },
        }
    }
}

/// Budget when at most one move is possible, or none is allotted.
fn num_sims_clamp(num_legals: usize, base_sims: usize) -> (r: usize)
    ensures
        r == if num_legals <= 1 {
            if base_sims < 1 { base_sims as int } else { 1 }
        } else {
            base_sims as int
        },
{
    if num_legals <= 1 {
        if base_sims < 1 { base_sims } else { 1 }
    } else {
        base_sims
    }
}

/// The number of simulations to run for a decision with `num_legals` moves in `phase`,
/// out of a budget of `base_sims` (see `spec_adaptive_sims`).
pub fn compute_adaptive_sims(phase: &TurnPhase, num_legals: usize, base_sims: usize) -> (r: usize)
    ensures
        r == spec_adaptive_sims(*phase, num_legals as int, base_sims as int),
        r <= base_sims,
{
    if num_legals <= 1 || base_sims == 0 {
        return num_sims_clamp(num_legals, base_sims);
    }
    match phase {
        TurnPhase::OptionalActions | TurnPhase::DiscardTokens | TurnPhase::SelectRoyalCard => {
            let q = base_sims / 4;
            let y = if q < 10 { 10 } else { q };
            if y > base_sims { base_sims } else { y }
        },
        _ => {
            if num_legals <= 3 {
                let q = base_sims / 3;
                let y = if q < 12 { 12 } else { q };
                if y > base_sims { base_sims } else { y }
            } else {
                base_sims
            }
        },
    }
}

// ---------------------------------------------------------------------------------------
// Forced moves
// ---------------------------------------------------------------------------------------

/// Discarding a token of kind `gem` is the only move the rules allow in `s`, a discard.
pub open spec fn sole_discard(s: GameState, gem: GemType) -> bool {
    &&& s.phase == TurnPhase::DiscardTokens
    &&& is_legal(s, Action::DiscardToken { gem })
    &&& forall|a: Action| is_legal(s, a) ==> a == Action::DiscardToken { gem }
}

/// `t` follows from `s` by discarding the only token `s` allows to discard.
pub open spec fn forced_discard(s: GameState, t: GameState) -> bool {
    exists|gem: GemType| #[trigger] sole_discard(s, gem) && step_post(s, Action::DiscardToken { gem }, t)
}

/// `tr` is a run of forced discards: each state but the last gives the next by its only
/// legal discard.
pub open spec fn forced_discards(tr: Seq<GameState>) -> bool {
    forall|i: int| #![trigger tr[i]] 0 <= i < tr.len() - 1 ==> forced_discard(tr[i], tr[i + 1])
}

/// A run of forced discards extended by one more.
proof fn lemma_extend_discards(tr: Seq<GameState>, t: GameState, gem: GemType)
    requires
        tr.len() > 0,
        forced_discards(tr),
        sole_discard(tr.last(), gem),
        step_post(tr.last(), Action::DiscardToken { gem }, t),
    ensures
        forced_discards(tr.push(t)),
{
    let tr2 = tr.push(t);
    assert(forced_discard(tr.last(), t));
    assert forall|i: int| #![trigger tr2[i]] 0 <= i < tr2.len() - 1 implies forced_discard(tr2[i], tr2[i + 1]) by {
        if i < tr.len() - 1 {
            assert(tr2[i] == tr[i] && tr2[i + 1] == tr[i + 1]);
        } else {
            assert(tr2[i] == tr.last());
            assert(tr2[i + 1] == t);
        }
    }
}

/// Plays the only legal discard.
fn play_sole_discard(state: &mut GameState, gem: GemType)
    requires
        game_invariant(*old(state)),
        sole_discard(*old(state), gem),
        old(state).turn_number < u32::MAX,
    ensures
        step_post(*old(state), Action::DiscardToken { gem }, *final(state)),
        game_invariant(*final(state)),
        final(state).phase == TurnPhase::DiscardTokens ==> {
            &&& final(state).current_player == old(state).current_player
            &&& final(state).turn_number == old(state).turn_number
            &&& final(state).players@[final(state).cp()].tokens.sum() < old(state).players@[old(state).cp()].tokens.sum()
        },
{
    let a = Action::DiscardToken { gem };
    let ghost before = *state;
    proof {
        lemma_legal_action_accepted(before, a);
        lemma_discard_room(before);
    }
    let _ = GameEngine::step(state, &a);
    proof {
        lemma_step_keeps_invariant(before, a, *state);
        before.players@[before.cp()].tokens.lemma_shifted_sum(gem, -1);
    }
}

/// Plays the discards that leave no choice: while the player to move must discard and
/// may discard only one kind of token, discards one.
pub fn collapse_deterministic_micro_steps(sim_state: &mut GameState)
    requires
        game_invariant(*old(sim_state)),
        old(sim_state).phase == TurnPhase::DiscardTokens ==> old(sim_state).turn_number < u32::MAX,
    ensures
        game_invariant(*final(sim_state)),
        exists|tr: Seq<GameState>|
            tr.len() > 0 && tr[0] == *old(sim_state) && tr.last() == *final(sim_state) && #[trigger] forced_discards(tr),
        forall|gem: GemType| !sole_discard(*final(sim_state), gem),
{
    let ghost start = *sim_state;
    let ghost mut tr: Seq<GameState> = seq![*sim_state];
    loop
        invariant
            game_invariant(*sim_state),
            sim_state.phase == TurnPhase::DiscardTokens ==> sim_state.turn_number < u32::MAX,
            tr.len() > 0,
            tr[0] == start,
            tr.last() == *sim_state,
            forced_discards(tr),
        ensures
            game_invariant(*sim_state),
            tr.len() > 0,
            tr[0] == start,
            tr.last() == *sim_state,
            forced_discards(tr),
            forall|gem: GemType| !sole_discard(*sim_state, gem),
        decreases (if sim_state.phase == TurnPhase::DiscardTokens {
            sim_state.players@[sim_state.cp()].tokens.sum() + 1
        } else {
            0
        }),
    {
        match sim_state.phase {
            TurnPhase::DiscardTokens => {
                let legals = RuleEngine::legal_actions(sim_state);
                if legals.len() == 1 {
                    let a = legals[0];
                    let gem = match a {
                        Action::DiscardToken { gem } => gem,
                        _ => {
                            proof {
                                assert(legals@.contains(a));
                            }
                            break;
                        },
                    };
                    let ghost before = *sim_state;
                    proof {
                        assert(legals@.contains(a));
                        assert forall|b: Action| is_legal(before, b) implies b == a by {
                            assert(legals@.contains(b));
                        }
                        assert(sole_discard(before, gem));
                    }
                    play_sole_discard(sim_state, gem);
                    proof {
                        lemma_extend_discards(tr, *sim_state, gem);
                        tr = tr.push(*sim_state);
                    }
                } else {
                    proof {
                        assert forall|gem: GemType| !sole_discard(*sim_state, gem) by {
                            if sole_discard(*sim_state, gem) {
                                let a = Action::DiscardToken { gem };
                                assert(legals@.contains(a));
                                assert forall|i: int| 0 <= i < legals@.len() implies legals@[i] == a by {
                                    assert(legals@.contains(legals@[i]));
                                    assert(is_legal(*sim_state, legals@[i]));
                                }
                                if legals@.len() > 1 {
                                    assert(legals@[0] == legals@[1]);
                                }
                            }
                        }
                    }
                    break;
                }
            },
            _ => {
                break;
            },
        }
    }
}

} // verus!
