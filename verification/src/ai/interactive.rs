use vstd::prelude::*;

use super::replay::{lowercase, reads, spec_lowercase, PlayerType};
use crate::game_state::phase::TurnPhase;
use crate::game_state::state::{tier_cards, GameState, MAX_DECK_CAPACITY};
use crate::gameplay::engine::{refused_state, step_post, GameEngine};
use crate::gameplay::invariants::playable;
use crate::gameplay::rules::{can_replenish, is_legal, optional_choice, RuleEngine};
use crate::model::action::Action;
use crate::model::card::JewelCard;

verus! {

/// Who plays a side in an interactive game.
#[derive(Debug, Clone, Copy, PartialEq, Eq, Structural)]
pub enum PlayerKind {
    Human,
    Neural,
    Heuristic,
    Random,
}

/// The kind a lowercased name gives: "human" or "h", "neural" or "nn", "random" or
/// "rand", and anything else the heuristic player.
pub open spec fn spec_player_kind_named(t: Seq<char>) -> PlayerKind {
    if t == "human"@ || t == "h"@ {
        PlayerKind::Human
    } else if t == "neural"@ || t == "nn"@ {
        PlayerKind::Neural
    } else if t == "random"@ || t == "rand"@ {
        PlayerKind::Random
    } else {
        PlayerKind::Heuristic
    }
}

/// The name of a player kind.
pub open spec fn spec_player_kind_name(k: PlayerKind) -> Seq<char> {
    match k {
        PlayerKind::Human => "human"@,
        PlayerKind::Neural => "neural"@,
        PlayerKind::Heuristic => "heuristic"@,
        PlayerKind::Random => "random"@,
    }
}

/// The player type a replay records for a kind: a human's moves are recorded as the
/// heuristic player's.
pub open spec fn spec_replay_type(k: PlayerKind) -> PlayerType {
    match k {
        PlayerKind::Human => PlayerType::Heuristic,
        PlayerKind::Neural => PlayerType::Neural,
        PlayerKind::Heuristic => PlayerType::Heuristic,
        PlayerKind::Random => PlayerType::Random,
    }
}

impl PlayerKind {
    /// Reads a player kind from its name or short name, ignoring case; an unknown name
    /// gives the heuristic player.
    pub fn parse(s: &str) -> (r: Self)
        ensures
            r == spec_player_kind_named(spec_lowercase(s@)),
    {
        let lower = lowercase(s);
        let t = lower.as_str();
        if reads(t, "human") || reads(t, "h") {
            PlayerKind::Human
        } else if reads(t, "neural") || reads(t, "nn") {
            PlayerKind::Neural
        } else if reads(t, "random") || reads(t, "rand") {
            PlayerKind::Random
        } else {
            PlayerKind::Heuristic
        }
    }

    /// The name of this kind.
    pub fn as_str(&self) -> (r: &'static str)
        ensures
            r@ == spec_player_kind_name(*self),
    {
        match self {
            PlayerKind::Human => "human",
            PlayerKind::Neural => "neural",
            PlayerKind::Heuristic => "heuristic",
            PlayerKind::Random => "random",
        }
    }

    /// The player type a replay records for this kind.
    pub fn to_replay_player_type(&self) -> (r: PlayerType)
        ensures
            r == spec_replay_type(*self),
    {
        match self {
            PlayerKind::Human => PlayerType::Heuristic,
            PlayerKind::Neural => PlayerType::Neural,
            PlayerKind::Heuristic => PlayerType::Heuristic,
            PlayerKind::Random => PlayerType::Random,
        }
    }
}

/// One step of an interactive game, as its history records it.
#[derive(Debug, Clone, Copy, PartialEq, Eq)]
pub struct SessionStep {
    pub step_index: usize,
    pub round_number: u32,
    /// The player who moved (or who is to move, for the start of the game).
    pub player: usize,
    /// The move; none for the start of the game.
    pub action: Option<Action>,
    /// The phase in which the move was made.
    pub phase: TurnPhase,
    /// The move was a human's.
    pub by_human: bool,
}

/// The step recorded for move `a` made in `g`, as the `i`-th of the history.
pub open spec fn step_record(g: GameState, a: Option<Action>, i: int, by_human: bool) -> SessionStep {
    SessionStep {
        step_index: i as usize,
        round_number: g.turn_number,
        player: g.current_player,
        action: a,
        phase: g.phase,
        by_human,
    }
}

/// `a` is the only move the rules allow in `s`.
pub open spec fn sole_legal(s: GameState, a: Action) -> bool {
    is_legal(s, a) && forall|b: Action| is_legal(s, b) ==> b == a
}

/// In the optional phase, skipping is the only move: no privilege can be spent and the
/// board cannot be refilled.
pub open spec fn only_skip(s: GameState) -> bool {
    s.phase == TurnPhase::OptionalActions && sole_legal(s, Action::SkipOptional)
}

/// `s` with the optional actions skipped.
pub open spec fn skipped(s: GameState) -> GameState {
    GameState { phase: TurnPhase::MandatoryAction, ..s }
}

/// The positions of a line of `count` tokens listed from its other end.
pub open spec fn reversed_line(count: u8, p: [(usize, usize); 3]) -> [(usize, usize); 3] {
    if count == 3 {
        [p@[2], p@[1], p@[0]]
    } else if count == 2 {
        [p@[1], p@[0], p@[2]]
    } else {
        p
    }
}

/// The move a submission stands for in `g`: itself when legal, else a line of tokens
/// given from its other end when that is legal; none otherwise.
#[verifier::opaque]
pub open spec fn resolved(g: GameState, a: Action) -> Option<Action> {
    if is_legal(g, a) {
        Some(a)
    } else {
        match a {
            Action::TakeTokens { count, positions } => {
                let b = Action::TakeTokens { count, positions: reversed_line(count, positions) };
                if is_legal(g, b) {
                    Some(b)
                } else {
                    None
                }
            },
            _ => None,
        }
    }
}

/// A submission in the optional phase that is no move there but is one of the mandatory
/// phase skips the optional actions first.
#[verifier::opaque]
pub open spec fn skips_first(g: GameState, a: Action) -> bool {
    &&& g.phase == TurnPhase::OptionalActions
    &&& resolved(g, a) is None
    &&& is_legal(g, Action::SkipOptional)
    &&& resolved(skipped(g), a) is Some
}

/// Every move the rules allow in `g`, and in `g` with the optional actions skipped, can be
/// carried out within the engine's number ranges.
pub open spec fn steps_safe(g: GameState) -> bool {
    &&& forall|a: Action| #[trigger] is_legal(g, a) ==> g.step_safe(a)
    &&& forall|a: Action| #[trigger] is_legal(skipped(g), a) ==> skipped(g).step_safe(a)
}

/// Why a submitted move was refused.
#[derive(Debug, Clone, Copy, PartialEq, Eq, Structural)]
pub enum SessionError {
    /// The game is over.
    GameOver,
    /// The move is not one the rules allow now.
    IllegalAction,
    /// The program to move found no move.
    NoLegalAction,
}

/// The state a human's move `action` is played from in `g`: with the optional actions
/// skipped first when the move needs it.
pub open spec fn human_start(g: GameState, action: Action) -> GameState {
    if skips_first(g, action) {
        skipped(g)
    } else {
        g
    }
}

/// The history before the human's move itself: with an automatic skip recorded when the
/// move needed one.
pub open spec fn history_before(g: GameState, action: Action, h: Seq<SessionStep>) -> Seq<SessionStep> {
    if skips_first(g, action) {
        h.push(step_record(g, Some(Action::SkipOptional), h.len() as int, false))
    } else {
        h
    }
}

/// What a submission resolves to is a move the rules allow.
pub proof fn lemma_resolved_legal(g: GameState, action: Action)
    requires
        resolved(g, action) is Some,
    ensures
        is_legal(g, resolved(g, action)->0),
{
    reveal(resolved);
}

/// A submission that skips the optional actions first is made in the optional phase,
/// where skipping is allowed.
pub proof fn lemma_skips_first_allowed(g: GameState, action: Action)
    requires
        skips_first(g, action),
    ensures
        g.phase == TurnPhase::OptionalActions,
        is_legal(g, Action::SkipOptional),
{
    reveal(skips_first);
}

/// Skipping the optional actions changes no price.
proof fn lemma_skipped_prices(g: GameState)
    requires
        g.price_sums_fit(),
    ensures
        skipped(g).price_sums_fit(),
{
    let s = skipped(g);
    assert(s.players == g.players && s.pyramid == g.pyramid && s.current_player == g.current_player);
    assert forall|t: int| 0 <= t < 3 implies #[trigger] s.row(t) == g.row(t) by {}
}

/// An interactive game: a game, who plays each side, and the steps played so far.
pub struct InteractiveSession {
    pub seed: u64,
    pub player_kinds: [PlayerKind; 2],
    pub game: GameState,
    pub history: Vec<SessionStep>,
    /// The jewel cards games are dealt from.
    pub cards: Vec<JewelCard>,
}

impl InteractiveSession {
    /// Whether skipping is the only move of the optional phase: no privilege can be
    /// spent on a token and the board cannot be refilled.
    fn only_skip_now(game: &GameState) -> (r: bool)
        requires
            game.current_player < 2,
        ensures
            r == only_skip(*game),
    {
        if !matches!(game.phase, TurnPhase::OptionalActions) {
            return false;
        }
        let refill = !game.replenished_this_turn && !game.bag.is_empty() && game.board.has_empty_slot();
        if refill {
            proof {
                assert(is_legal(*game, Action::ReplenishBoard));
            }
            return false;
        }
        let p = &game.players[game.current_player];
        if p.privileges > 0 {
            let mut k: usize = 0;
            while k < 25
                invariant
                    0 <= k <= 25,
                    game.current_player < 2,
                    game.phase == TurnPhase::OptionalActions,
                    *p == game.players@[game.cp()],
                    p.privileges > 0,
                    forall|r: int, c: int| 0 <= r < 5 && 0 <= c < 5 && r * 5 + c < k ==> !game.board.takeable(r, c),
                decreases 25 - k,
            {
                let r = k / 5;
                let c = k % 5;
                if let Some(g) = game.board.get(r, c) {
                    if !g.is_gold() {
                        proof {
                            assert(game.board.takeable(r as int, c as int));
                            assert(is_legal(*game, Action::UsePrivilege { r, c }));
                        }
                        return false;
                    }
                }
                proof {
                    assert forall|rr: int, cc: int|
                        0 <= rr < 5 && 0 <= cc < 5 && rr * 5 + cc < k + 1 implies !game.board.takeable(rr, cc) by {
                        if rr * 5 + cc == k {
                            assert(rr == r && cc == c) by (nonlinear_arith)
                                requires
                                    rr * 5 + cc == k,
                                    0 <= cc < 5,
                                    r == k / 5,
                                    c == k % 5,
                            ;
                        }
                    }
                }
                k = k + 1;
            }
            proof {
                assert forall|b: Action| is_legal(*game, b) implies b == Action::SkipOptional by {
                    if let Action::UsePrivilege { r, c } = b {
                        assert(game.board.takeable(r as int, c as int));
                        assert(r * 5 + c < 25);
                    }
                }
            }
        } else {
            proof {
                assert forall|b: Action| is_legal(*game, b) implies b == Action::SkipOptional by {
                }
            }
        }
        proof {
            assert(is_legal(*game, Action::SkipOptional));
        }
        true
    }

    /// In the optional phase, when skipping is the only move, skips and records it as an
    /// automatic step; otherwise changes nothing.
    pub fn maybe_auto_skip_optional(&mut self)
        requires
            playable(old(self).game),
            old(self).history@.len() < usize::MAX,
        ensures
            final(self).seed == old(self).seed,
            final(self).player_kinds == old(self).player_kinds,
            final(self).cards@ == old(self).cards@,
            playable(final(self).game),
            if only_skip(old(self).game) {
                &&& final(self).game == skipped(old(self).game)
                &&& final(self).history@ == old(self).history@.push(
                    step_record(old(self).game, Some(Action::SkipOptional), old(self).history@.len() as int, false),
                )
            } else {
                &&& final(self).game == old(self).game
                &&& final(self).history@ == old(self).history@
            },
    {
        if Self::only_skip_now(&self.game) {
            let ghost before = self.game;
            let entry = SessionStep {
                step_index: self.history.len(),
                round_number: self.game.turn_number,
                player: self.game.current_player,
                action: Some(Action::SkipOptional),
                phase: self.game.phase,
                by_human: false,
            };
            let _ = GameEngine::step(&mut self.game, &Action::SkipOptional);
            proof {
                crate::gameplay::invariants::lemma_step_keeps_playable(before, Action::SkipOptional, self.game);
            }
            self.history.push(entry);
        }
    }

    /// A new interactive game dealt from `cards` with `seed`; the optional phase is
    /// skipped when skipping is its only move.
    pub fn new(seed: u64, player_kinds: [PlayerKind; 2], cards: Vec<JewelCard>) -> (r: Self)
        requires
            forall|t: int| 0 <= t < 3 ==> #[trigger] tier_cards(cards@, t).len() <= MAX_DECK_CAPACITY,
        ensures
            r.seed == seed,
            r.player_kinds == player_kinds,
            r.cards@ == cards@,
            exists|g: GameState|
                #[trigger] crate::game_state::state::new_game_post(seed, cards@, g) && r.history@[0] == step_record(
                    g,
                    None,
                    0,
                    false,
                ) && if only_skip(g) {
                    r.game == skipped(g) && r.history@ == seq![
                        step_record(g, None, 0, false),
                        step_record(g, Some(Action::SkipOptional), 1, false),
                    ]
                } else {
                    r.game == g && r.history@ == seq![step_record(g, None, 0, false)]
                },
    {
        let game = GameState::new_game(seed, cards.as_slice());
        let start = SessionStep {
            step_index: 0,
            round_number: game.turn_number,
            player: game.current_player,
            action: None,
            phase: game.phase,
            by_human: false,
        };
        let mut history: Vec<SessionStep> = Vec::new();
        history.push(start);
        let ghost g = game;
        let mut sess = InteractiveSession { seed, player_kinds, game, history, cards };
        sess.maybe_auto_skip_optional();
        proof {
            assert(crate::game_state::state::new_game_post(seed, cards@, g));
        }
        sess
    }

    /// Starts a new game with `seed` and these players, dealt from the same cards.
    pub fn reset(&mut self, seed: u64, player_kinds: [PlayerKind; 2])
        requires
            forall|t: int| 0 <= t < 3 ==> #[trigger] tier_cards(old(self).cards@, t).len() <= MAX_DECK_CAPACITY,
        ensures
            final(self).seed == seed,
            final(self).player_kinds == player_kinds,
            final(self).cards@ == old(self).cards@,
            exists|g: GameState|
                #[trigger] crate::game_state::state::new_game_post(seed, old(self).cards@, g) && final(self).history@[0]
                    == step_record(g, None, 0, false) && if only_skip(g) {
                    final(self).game == skipped(g) && final(self).history@ == seq![
                        step_record(g, None, 0, false),
                        step_record(g, Some(Action::SkipOptional), 1, false),
                    ]
                } else {
                    final(self).game == g && final(self).history@ == seq![step_record(g, None, 0, false)]
                },
    {
        let cards = crate::game_state::player::copy_list(&self.cards);
        *self = Self::new(seed, player_kinds, cards);
    }

    /// Whether the rules allow `action` now.
    fn legal_now(game: &GameState, action: &Action) -> (r: bool)
        requires
            game.current_player < 2,
            game.lists_fit(),
            game.may_buy() ==> game.price_sums_fit(),
        ensures
            r == is_legal(*game, *action),
    {
        let legals = RuleEngine::legal_actions(game);
        let mut i: usize = 0;
        while i < legals.len()
            invariant
                0 <= i <= legals@.len(),
                forall|b: Action| legals@.contains(b) <==> is_legal(*game, b),
                forall|j: int| 0 <= j < i ==> legals@[j] != *action,
            decreases legals@.len() - i,
        {
            if legals[i].same_as(action) {
                proof {
                    assert(legals@[i as int] == *action);
                    assert(legals@.contains(*action));
                }
                return true;
            }
            i = i + 1;
        }
        proof {
            assert(!legals@.contains(*action));
        }
        false
    }

    /// The move a submission stands for now: itself when legal, else a line of tokens
    /// given from its other end when that is legal.
    fn resolve(game: &GameState, action: Action) -> (r: Option<Action>)
        requires
            game.current_player < 2,
            game.lists_fit(),
            game.may_buy() ==> game.price_sums_fit(),
        ensures
            r == resolved(*game, action),
    {
        reveal(resolved);
        if Self::legal_now(game, &action) {
            return Some(action);
        }
        match action {
            Action::TakeTokens { count, positions } => {
                let rev = if count == 3 {
                    [positions[2], positions[1], positions[0]]
                } else if count == 2 {
                    [positions[1], positions[0], positions[2]]
                } else {
                    positions
                };
                proof {
                    assert(rev@ =~= reversed_line(count, positions)@);
                    assert(rev == reversed_line(count, positions));
                }
                let b = Action::TakeTokens { count, positions: rev };
                if Self::legal_now(game, &b) {
                    Some(b)
                } else {
                    None
                }
            },
            _ => None,
        }
    }

    /// Plays a move the rules allow; the engine accepts it.
    fn apply_legal(game: &mut GameState, a: Action)
        requires
            playable(*old(game)),
            is_legal(*old(game), a),
            old(game).step_safe(a),
        ensures
            step_post(*old(game), a, *final(game)),
            playable(*final(game)),
    {
        proof {
            crate::gameplay::rules::lemma_legal_action_accepted(*old(game), a);
        }
        let ghost g = *game;
        let _ = GameEngine::step(game, &a);
        proof {
            crate::gameplay::invariants::lemma_step_keeps_playable(g, a, *game);
        }
    }

    /// The move a human's submission stands for, and whether the optional actions must be
    /// skipped first; the game is left as it was.
    fn choose_move(game: &mut GameState, action: Action) -> (r: (Option<Action>, bool))
        requires
            playable(*old(game)),
            old(game).price_sums_fit(),
            !(old(game).phase is GameOver),
        ensures
            *final(game) == *old(game),
            r.1 == skips_first(*old(game), action),
            r.0 == resolved(human_start(*old(game), action), action),
    {
        reveal(skips_first);
        let ghost g0 = *game;
        let mut chosen = Self::resolve(game, action);
        let mut skip_first = false;
        if chosen.is_none() && matches!(game.phase, TurnPhase::OptionalActions) && Self::legal_now(
            game,
            &Action::SkipOptional,
        ) {
            game.phase = TurnPhase::MandatoryAction;
            proof {
                assert(*game == skipped(g0));
                lemma_skipped_prices(g0);
            }
            chosen = Self::resolve(game, action);
            game.phase = TurnPhase::OptionalActions;
            proof {
                assert(*game == g0);
            }
            skip_first = chosen.is_some();
        }
        (chosen, skip_first)
    }

    /// Plays a human's move. A line of tokens may be given from either end; a move of the
    /// mandatory phase submitted in the optional phase skips the optional actions first
    /// (recorded as an automatic step). The move is recorded, and the next optional phase
    /// is skipped when skipping is its only move. A finished game, or a move the rules do
    /// not allow, is refused and changes nothing.
    #[verifier::rlimit(40)]
    pub fn step_human(&mut self, action: Action) -> (r: Result<SessionStep, SessionError>)
        requires
            playable(old(self).game),
            old(self).game.price_sums_fit(),
            steps_safe(old(self).game),
            old(self).history@.len() + 3 <= usize::MAX,
        ensures
            final(self).seed == old(self).seed,
            final(self).player_kinds == old(self).player_kinds,
            final(self).cards@ == old(self).cards@,
            r == Err::<SessionStep, SessionError>(SessionError::GameOver) <==> old(self).game.phase is GameOver,
            r is Ok <==> !(old(self).game.phase is GameOver) && resolved(human_start(old(self).game, action), action) is Some,
            r is Err ==> final(self).game == old(self).game && final(self).history@ == old(self).history@,
            r is Ok ==> ({
                let g = human_start(old(self).game, action);
                let a = resolved(g, action)->0;
                let h = history_before(old(self).game, action, old(self).history@);
                &&& r->Ok_0 == step_record(g, Some(a), h.len() as int, true)
                &&& exists|t: GameState|
                    #[trigger] step_post(g, a, t) && playable(t) && if only_skip(t) {
                        final(self).game == skipped(t) && final(self).history@ == h.push(r->Ok_0).push(
                            step_record(t, Some(Action::SkipOptional), h.len() as int + 1, false),
                        )
                    } else {
                        final(self).game == t && final(self).history@ == h.push(r->Ok_0)
                    }
            }),
    {
        if matches!(self.game.phase, TurnPhase::GameOver(_)) {
            return Err(SessionError::GameOver);
        }
        let ghost g0 = self.game;
        let (chosen, skip_first) = Self::choose_move(&mut self.game, action);
        let a = match chosen {
            Some(a) => a,
            None => {
                return Err(SessionError::IllegalAction);
            },
        };
        proof {
            if skip_first {
                lemma_skips_first_allowed(g0, action);
                assert(is_legal(g0, Action::SkipOptional));
                assert(g0.step_safe(Action::SkipOptional));
            }
            lemma_resolved_legal(human_start(g0, action), action);
            if skip_first {
                assert(is_legal(skipped(g0), a));
            } else {
                assert(is_legal(g0, a));
            }
            assert(human_start(g0, action).step_safe(a));
        }
        if skip_first {
            let skip_entry = SessionStep {
                step_index: self.history.len(),
                round_number: self.game.turn_number,
                player: self.game.current_player,
                action: Some(Action::SkipOptional),
                phase: self.game.phase,
                by_human: false,
            };
            Self::apply_legal(&mut self.game, Action::SkipOptional);
            self.history.push(skip_entry);
        }
        let ghost g1 = self.game;
        proof {
            assert(g1 == human_start(g0, action));
            assert(self.history@ == history_before(g0, action, old(self).history@));
        }
        let entry = SessionStep {
            step_index: self.history.len(),
            round_number: self.game.turn_number,
            player: self.game.current_player,
            action: Some(a),
            phase: self.game.phase,
            by_human: true,
        };
        Self::apply_legal(&mut self.game, a);
        self.history.push(entry);
        self.maybe_auto_skip_optional();
        Ok(entry)
    }

    /// Plays the move a program chose for the side to move and records it. A finished
    /// game, or a human to move, gives `Ok(None)` and changes nothing; no move gives
    /// `NoLegalAction`; a move the engine refuses gives `IllegalAction`, with the game as
    /// the engine leaves it and the history as it was. After the move, the next optional
    /// phase is skipped when skipping is its only move.
    #[verifier::rlimit(40)]
    pub fn play_ai_choice(&mut self, choice: Option<Action>) -> (r: Result<Option<SessionStep>, SessionError>)
        requires
            playable(old(self).game),
            old(self).history@.len() + 2 <= usize::MAX,
            choice matches Some(a) ==> old(self).game.step_safe(a),
        ensures
            final(self).seed == old(self).seed,
            final(self).player_kinds == old(self).player_kinds,
            final(self).cards@ == old(self).cards@,
            (old(self).game.phase is GameOver || old(self).player_kinds@[old(self).game.current_player as int]
                == PlayerKind::Human) ==> r == Ok::<Option<SessionStep>, SessionError>(None) && final(self).game
                == old(self).game && final(self).history@ == old(self).history@,
            !(old(self).game.phase is GameOver || old(self).player_kinds@[old(self).game.current_player as int]
                == PlayerKind::Human) ==> match choice {
                None => r == Err::<Option<SessionStep>, SessionError>(SessionError::NoLegalAction)
                    && final(self).game == old(self).game && final(self).history@ == old(self).history@,
                Some(a) => {
                    let g = old(self).game;
                    let h = old(self).history@;
                    let e = step_record(g, Some(a), h.len() as int, false);
                    &&& r is Ok <==> g.step_ok(a)
                    &&& r is Ok ==> r == Ok::<Option<SessionStep>, SessionError>(Some(e)) && exists|t: GameState|
                        #[trigger] step_post(g, a, t) && playable(t) && if only_skip(t) {
                            final(self).game == skipped(t) && final(self).history@ == h.push(e).push(
                                step_record(t, Some(Action::SkipOptional), h.len() as int + 1, false),
                            )
                        } else {
                            final(self).game == t && final(self).history@ == h.push(e)
                        }
                    &&& r is Err ==> r == Err::<Option<SessionStep>, SessionError>(SessionError::IllegalAction)
                        && final(self).game == refused_state(g, a) && final(self).history@ == h
                },
            },
    {
        if matches!(self.game.phase, TurnPhase::GameOver(_)) {
            return Ok(None);
        }
        if matches!(self.player_kinds[self.game.current_player], PlayerKind::Human) {
            return Ok(None);
        }
        let action = match choice {
            Some(a) => a,
            None => {
                return Err(SessionError::NoLegalAction);
            },
        };
        let ghost g = self.game;
        let entry = SessionStep {
            step_index: self.history.len(),
            round_number: self.game.turn_number,
            player: self.game.current_player,
            action: Some(action),
            phase: self.game.phase,
            by_human: false,
        };
        match GameEngine::step(&mut self.game, &action) {
            Ok(()) => {
                proof {
                    crate::gameplay::invariants::lemma_step_keeps_playable(g, action, self.game);
                }
                self.history.push(entry);
                self.maybe_auto_skip_optional();
                Ok(Some(entry))
            },
            Err(_) => Err(SessionError::IllegalAction),
        }
    }

    /// The kind of the player to move.
    pub fn current_player_kind(&self) -> (r: PlayerKind)
        requires
            self.game.current_player < 2,
        ensures
            r == self.player_kinds@[self.game.current_player as int],
    {
        self.player_kinds[self.game.current_player]
    }

    /// Whether a human is to move.
    pub fn is_current_player_human(&self) -> (r: bool)
        requires
            self.game.current_player < 2,
        ensures
            r == (self.player_kinds@[self.game.current_player as int] == PlayerKind::Human),
    {
        matches!(self.player_kinds[self.game.current_player], PlayerKind::Human)
    }

    /// The moves the rules allow now.
    pub fn legal_actions(&self) -> (r: Vec<Action>)
        requires
            self.game.current_player < 2,
            self.game.lists_fit(),
            self.game.may_buy() ==> self.game.price_sums_fit(),
        ensures
            forall|a: Action| r@.contains(a) <==> is_legal(self.game, a),
    {
        RuleEngine::legal_actions(&self.game)
    }
}

} // verus!
