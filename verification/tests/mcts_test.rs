use splendor_duel_engine::ai::mcts::{
    collapse_deterministic_micro_steps, compute_adaptive_sims, fast_state_hash, FNV_OFFSET, FNV_PRIME,
    MIS_BLOCK_SIZE,
};
use splendor_duel_engine::{
    PlayerKind, PlayerType, CardColor, CardCost, CardTier, GameState, GemType, JewelCard, ReservedCard, RuleEngine, TokenCollection,
    TurnPhase,
};

fn small_catalogue() -> Vec<JewelCard> {
    let mut cards = Vec::new();
    let mut id: u8 = 0;
    for (tier, n) in [(CardTier::Tier1, 10u8), (CardTier::Tier2, 8u8), (CardTier::Tier3, 6u8)] {
        for i in 0..n {
            cards.push(JewelCard {
                id,
                tier,
                color: CardColor::Blue,
                points: i % 3,
                bonus: 1,
                ability: None,
                crowns: 0,
                cost: CardCost::new(1, 1, 0, 0, 0, 0),
            });
            id += 1;
        }
    }
    cards
}

/// FNV-1a written out over the words the hash covers.
fn reference_hash(state: &GameState) -> u64 {
    let mut words: Vec<u64> = vec![
        state.current_player as u64,
        state.privilege_pool as u64,
        state.extra_turn_granted as u64,
        state.turn_number as u64,
    ];
    for r in 0..5 {
        for c in 0..5 {
            words.push(match state.board.get(r, c) {
                Some(g) => g.index() as u64 + 1,
                None => 0,
            });
        }
    }
    for t in 0..3 {
        for c in state.pyramid[t].as_slice() {
            words.push(c.id as u64);
        }
    }
    for r in state.royal_cards.as_slice() {
        words.push(r.id as u64);
    }
    for p in &state.players {
        for i in 0..7 {
            words.push(p.tokens.counts[i] as u64);
        }
        words.push(p.total_points as u64);
        words.push(p.total_crowns as u64);
        words.push(p.privileges as u64);
        for b in p.bonuses {
            words.push(b as u64);
        }
        for c in &p.cards {
            words.push(c.id as u64);
        }
        for rc in &p.reserved_cards {
            words.push(((rc.card.id as u64) << 1) | (rc.is_public as u64));
        }
    }
    let mut h = FNV_OFFSET;
    for w in words {
        h ^= w;
        h = h.wrapping_mul(FNV_PRIME);
    }
    h
}

#[test]
fn test_fast_state_hash_matches_fnv() {
    let cards = small_catalogue();
    let mut game = GameState::new_game(7, &cards);
    assert_eq!(fast_state_hash(&game), reference_hash(&game));
    let copy = game.clone();
    assert_eq!(fast_state_hash(&game), fast_state_hash(&copy));
    let card = game.decks[0].pop().unwrap();
    game.players[1].reserved_cards.push(ReservedCard::new(card, false));
    game.players[0].tokens.add(GemType::Pearl, 2);
    assert_eq!(fast_state_hash(&game), reference_hash(&game));
    assert_ne!(fast_state_hash(&game), fast_state_hash(&copy));
}

#[test]
fn test_fast_state_hash_empty_words() {
    // The offset basis mixed with zero words is itself; one zero word multiplies it by the prime.
    assert_eq!(FNV_OFFSET, 0xcbf29ce484222325);
    assert_eq!(FNV_OFFSET.wrapping_mul(FNV_PRIME), (FNV_OFFSET ^ 0).wrapping_mul(FNV_PRIME));
}

#[test]
fn test_compute_adaptive_sims_values() {
    assert_eq!(MIS_BLOCK_SIZE, 8);
    assert_eq!(compute_adaptive_sims(&TurnPhase::MandatoryAction, 1, 100), 1);
    assert_eq!(compute_adaptive_sims(&TurnPhase::MandatoryAction, 0, 0), 0);
    assert_eq!(compute_adaptive_sims(&TurnPhase::MandatoryAction, 5, 0), 0);
    assert_eq!(compute_adaptive_sims(&TurnPhase::OptionalActions, 5, 100), 25);
    assert_eq!(compute_adaptive_sims(&TurnPhase::DiscardTokens, 5, 20), 10);
    assert_eq!(compute_adaptive_sims(&TurnPhase::SelectRoyalCard, 5, 8), 8);
    assert_eq!(compute_adaptive_sims(&TurnPhase::MandatoryAction, 3, 90), 30);
    assert_eq!(compute_adaptive_sims(&TurnPhase::MandatoryAction, 2, 30), 12);
    assert_eq!(compute_adaptive_sims(&TurnPhase::MandatoryAction, 2, 5), 5);
    assert_eq!(compute_adaptive_sims(&TurnPhase::MandatoryAction, 4, 90), 90);
}

#[test]
fn test_collapse_leaves_a_real_choice() {
    let cards = small_catalogue();
    let mut game = GameState::new_game(11, &cards);
    // Eleven tokens of three kinds: the discard is a choice, so nothing is played.
    game.players[0].tokens = TokenCollection::new();
    game.players[0].tokens.add(GemType::White, 4);
    game.players[0].tokens.add(GemType::Blue, 4);
    game.players[0].tokens.add(GemType::Gold, 3);
    game.phase = TurnPhase::DiscardTokens;
    assert_eq!(RuleEngine::legal_actions(&game).len(), 3);
    let before = game.clone();
    collapse_deterministic_micro_steps(&mut game);
    assert_eq!(game, before);
}

#[test]
fn test_collapse_plays_forced_discards() {
    let cards = small_catalogue();
    let mut game = GameState::new_game(12, &cards);
    // Twelve tokens of one kind: two forced discards bring the hand to ten and end the turn.
    game.players[0].tokens = TokenCollection::new();
    game.players[0].tokens.add(GemType::Red, 12);
    game.phase = TurnPhase::DiscardTokens;
    let bag_before = game.bag.len();
    let turn = game.turn_number;
    collapse_deterministic_micro_steps(&mut game);
    assert_eq!(game.players[0].tokens.get(GemType::Red), 10);
    assert_eq!(game.bag.len(), bag_before + 2);
    assert_eq!(game.phase, TurnPhase::OptionalActions);
    assert_eq!(game.current_player, 1);
    assert_eq!(game.turn_number, turn + 1);
}

#[test]
fn test_collapse_outside_discards_does_nothing() {
    let cards = small_catalogue();
    let mut game = GameState::new_game(13, &cards);
    let before = game.clone();
    collapse_deterministic_micro_steps(&mut game);
    assert_eq!(game, before);
}

#[test]
fn test_player_type_names() {
    assert_eq!(PlayerType::parse("random"), PlayerType::Random);
    assert_eq!(PlayerType::parse("  Neural \n"), PlayerType::Neural);
    assert_eq!(PlayerType::parse("RANDOM"), PlayerType::Random);
    assert_eq!(PlayerType::parse("human"), PlayerType::Heuristic);
    assert_eq!(PlayerType::parse(""), PlayerType::Heuristic);
    assert_eq!(PlayerType::Heuristic.as_str(), "heuristic");
    assert_eq!(PlayerType::Random.as_str(), "random");
    assert_eq!(PlayerType::Neural.as_str(), "neural");
    for t in [PlayerType::Heuristic, PlayerType::Random, PlayerType::Neural] {
        assert_eq!(PlayerType::parse(t.as_str()), t);
    }
}

#[test]
fn test_player_kind_names() {
    assert_eq!(PlayerKind::parse("H"), PlayerKind::Human);
    assert_eq!(PlayerKind::parse("Human"), PlayerKind::Human);
    assert_eq!(PlayerKind::parse("NN"), PlayerKind::Neural);
    assert_eq!(PlayerKind::parse("rand"), PlayerKind::Random);
    assert_eq!(PlayerKind::parse("Random"), PlayerKind::Random);
    // No trimming here: a padded name is not recognised.
    assert_eq!(PlayerKind::parse(" human"), PlayerKind::Heuristic);
    assert_eq!(PlayerKind::parse("heuristic"), PlayerKind::Heuristic);
    assert_eq!(PlayerKind::Human.as_str(), "human");
    assert_eq!(PlayerKind::Neural.as_str(), "neural");
    assert_eq!(PlayerKind::Heuristic.as_str(), "heuristic");
    assert_eq!(PlayerKind::Random.as_str(), "random");
    assert_eq!(PlayerKind::Human.to_replay_player_type(), PlayerType::Heuristic);
    assert_eq!(PlayerKind::Neural.to_replay_player_type(), PlayerType::Neural);
    assert_eq!(PlayerKind::Heuristic.to_replay_player_type(), PlayerType::Heuristic);
    assert_eq!(PlayerKind::Random.to_replay_player_type(), PlayerType::Random);
}
