# Splendor Duel rules engine

A rules engine for the two-player card and gem game *Splendor Duel*, written in Verus:
every function of the library carries a `requires`/`ensures` contract that Verus proves.

## Layout

- `src/model` — tokens (`GemType`, `TokenCollection`), cards, actions and the bounded list
  `StackVec`.
- `src/game_state` — the 5x5 board (spiral refill, lines of adjacent tokens), the players,
  the turn phases and `GameState` (new game, privilege scrolls, market refill, the
  observer's view used by search); `accounting.rs` proves that redrawing the hidden cards
  for an observer keeps every card.
- `src/gameplay` — `GameEngine::step` (the phase machine, with an exact post-state for
  each action), payments, victory, `RuleEngine::legal_actions`, and the laws that tie them
  together (`invariants.rs`: what every accepted step keeps; `card_flow.rs`: no step
  creates or loses a card; `royals.rs`: one royal card per crown milestone taken;
  `hand_limit.rs`: no turn ends with more than ten tokens in hand; `rules.rs`: every
  legal move is accepted; `determinism.rs`: a game is a function of its seed — equal
  states refill the board alike, at most once a turn, and a seed deals one game).
- `src/bridge` — the discrete action ids (288) and the action mask.
- `src/ai` — a random player, the position hash, simulation budget and forced discards
  of the tree search, the player-type names, the interactive game (`InteractiveSession`:
  a human's moves, lines accepted from either end, the optional phase skipped when it
  must be) and the replayed game (`ReplaySession`).
- `src/rng.rs` — the calls into `rand`/`rand_chacha`; with `str::to_lowercase` and
  `str::trim` in `src/ai/replay.rs`, these are the trusted items.
- `src/web.rs`, `src/routes.rs` — the body of an HTTP request; the request line, its
  route and query parameters, static paths and content types of the game server.
- `app/` — a command-line game between two random players (reads the card list from JSON),
  the game's web server (sockets, files, JSON), and the `f32` observation vector.
- `tests/` — scenario tests.

The card catalogue is not part of the library: `GameState::new_game` and
`GameState::determinize_for_player` take the list of jewel cards as an argument.
The deal shuffles the three decks and then the bag with one generator seeded with the
game seed; each board refill shuffles the bag with a seed derived from the game seed and
a step counter.
