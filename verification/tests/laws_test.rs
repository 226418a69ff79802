use rand::SeedableRng;
use rand_chacha::ChaCha8Rng;
use splendor_duel_engine::ai::replay::action_category;
use splendor_duel_engine::gameplay::payment::{check_payment_divergence, compute_custom_payment};
use splendor_duel_engine::web::extract_body;
use splendor_duel_engine::{
    check_victory, compute_card_payment, Action, CardColor, CardCost, CardTier, GameEngine,
    GameState, GemType, JewelCard, PlayerState, RandomAI, RuleEngine, StackVec, TokenCollection,
    TurnPhase, VictoryReason,
};

/// Cards for tests: 30, 24 and 13 cards of levels 1, 2 and 3.
fn deck_list() -> Vec<JewelCard> {
    let colors = [
        CardColor::White,
        CardColor::Blue,
        CardColor::Green,
        CardColor::Red,
        CardColor::Black,
    ];
    let mut cards = Vec::new();
    let mut id: u8 = 0;
    for (tier, n) in [(CardTier::Tier1, 30u8), (CardTier::Tier2, 24u8), (CardTier::Tier3, 13u8)] {
        let level = tier.index() as u8 + 1;
        for i in 0..n {
            let color = if i % 9 == 8 { CardColor::Joker } else { colors[(i % 5) as usize] };
            let mut cost = [0u8; 6];
            cost[(i % 5) as usize] = level;
            cost[((i + 3) % 5) as usize] += 1;
            cards.push(JewelCard {
                id,
                tier,
                color,
                points: (i % 4) * level / 2,
                bonus: 1,
                ability: None,
                crowns: if i % 3 == 0 { 1 } else { 0 },
                cost: CardCost::new(cost[0], cost[1], cost[2], cost[3], cost[4], cost[5]),
            });
            id += 1;
        }
    }
    cards
}

fn kind_total(game: &GameState, gem: GemType) -> u32 {
    let mut n = 0u32;
    for r in 0..5 {
        for c in 0..5 {
            if game.board.get(r, c) == Some(gem) {
                n += 1;
            }
        }
    }
    n += game.bag.as_slice().iter().filter(|&&g| g == gem).count() as u32;
    n += game.players[0].tokens.get(gem) as u32;
    n += game.players[1].tokens.get(gem) as u32;
    n
}

#[test]
fn test_random_games_keep_tokens_scrolls_and_bounds() {
    let expected = [4u32, 4, 4, 4, 4, 2, 3];
    for seed in 0..15u64 {
        let mut game = GameState::new_game(seed, &deck_list());
        let mut rng = ChaCha8Rng::seed_from_u64(seed + 1000);
        let mut steps = 0;
        while !matches!(game.phase, TurnPhase::GameOver(_)) && steps < 3000 {
            steps += 1;
            for i in 0..7 {
                assert_eq!(kind_total(&game, GemType::from_index(i).unwrap()), expected[i]);
            }
            assert_eq!(
                game.privilege_pool + game.players[0].privileges + game.players[1].privileges,
                3
            );
            assert!(game.pyramid[0].len() <= 5);
            assert!(game.pyramid[1].len() <= 4);
            assert!(game.pyramid[2].len() <= 3);
            assert!(game.players[0].reserved_cards.len() <= 3);
            assert!(game.players[1].reserved_cards.len() <= 3);
            let legal = RuleEngine::legal_actions(&game);
            assert!(!legal.is_empty());
            let action = RandomAI::select_action(&game, &mut rng).unwrap();
            assert!(legal.contains(&action));
            assert!(GameEngine::step(&mut game, &action).is_ok());
        }
    }
}

/// How often each card id occurs in the game: market, decks, players' cards and
/// reserves, and a joker waiting for its colour.
fn card_id_counts(game: &GameState) -> Vec<u32> {
    let mut counts = vec![0u32; 256];
    for t in 0..3 {
        for c in game.pyramid[t].as_slice() {
            counts[c.id as usize] += 1;
        }
        for c in game.decks[t].as_slice() {
            counts[c.id as usize] += 1;
        }
    }
    for p in &game.players {
        for c in &p.cards {
            counts[c.id as usize] += 1;
        }
        for rc in &p.reserved_cards {
            counts[rc.card.id as usize] += 1;
        }
    }
    if let TurnPhase::CardAbilityJoker { pending_card } = game.phase {
        counts[pending_card.id as usize] += 1;
    }
    counts
}

#[test]
fn test_random_games_keep_every_card() {
    let cards = deck_list();
    for seed in 0..10u64 {
        let mut game = GameState::new_game(seed, &cards);
        let start = card_id_counts(&game);
        for id in 0..cards.len() {
            assert_eq!(start[id], 1);
        }
        let mut rng = ChaCha8Rng::seed_from_u64(seed + 77);
        let mut steps = 0;
        while !matches!(game.phase, TurnPhase::GameOver(_)) && steps < 3000 {
            steps += 1;
            let action = RandomAI::select_action(&game, &mut rng).unwrap();
            assert!(GameEngine::step(&mut game, &action).is_ok());
            assert_eq!(card_id_counts(&game), start);
            if matches!(game.phase, TurnPhase::OptionalActions | TurnPhase::MandatoryAction) {
                let observer = game.current_player;
                let det = game.determinize_for_player(observer, &cards, &mut rng);
                assert_eq!(card_id_counts(&det), start);
                for t in 0..3 {
                    assert_eq!(det.decks[t].len(), game.decks[t].len());
                }
            }
        }
    }
}

#[test]
fn test_random_games_royal_cards_follow_milestones() {
    let cards = deck_list();
    for seed in 0..10u64 {
        let mut game = GameState::new_game(seed, &cards);
        let mut rng = ChaCha8Rng::seed_from_u64(seed + 500);
        let mut steps = 0;
        while !matches!(game.phase, TurnPhase::GameOver(_)) && steps < 3000 {
            steps += 1;
            for p in &game.players {
                let claimed = p.royals_claimed.iter().filter(|&&c| c).count();
                assert_eq!(p.royal_cards.len(), claimed);
                assert!(p.royal_cards.len() <= 2);
            }
            if game.phase == TurnPhase::SelectRoyalCard {
                let p = &game.players[game.current_player];
                assert!(
                    (p.total_crowns >= 3 && !p.royals_claimed[0]) || (p.total_crowns >= 6 && !p.royals_claimed[1])
                );
            }
            let action = RandomAI::select_action(&game, &mut rng).unwrap();
            assert!(GameEngine::step(&mut game, &action).is_ok());
        }
    }
}

#[test]
fn test_random_games_end_turns_within_hand_limit() {
    let cards = deck_list();
    let mut ended = 0;
    for seed in 0..10u64 {
        let mut game = GameState::new_game(seed, &cards);
        let mut rng = ChaCha8Rng::seed_from_u64(seed + 900);
        let mut steps = 0;
        while !matches!(game.phase, TurnPhase::GameOver(_)) && steps < 3000 {
            steps += 1;
            let mover = game.current_player;
            let was_optional = game.phase == TurnPhase::OptionalActions;
            let action = RandomAI::select_action(&game, &mut rng).unwrap();
            assert!(GameEngine::step(&mut game, &action).is_ok());
            let over = matches!(game.phase, TurnPhase::OptionalActions | TurnPhase::GameOver(_));
            if !was_optional && over {
                ended += 1;
                assert!(game.players[mover].tokens.total() <= 10);
            }
        }
    }
    assert!(ended > 0);
}

#[test]
fn test_refused_action_leaves_state() {
    let mut game = GameState::new_game(3, &deck_list());
    let before = game.clone();
    assert!(GameEngine::step(&mut game, &Action::DiscardToken { gem: GemType::White }).is_err());
    assert!(GameEngine::step(&mut game, &Action::TakeGoldToken { r: 0, c: 0 }).is_err());
    assert!(GameEngine::step(&mut game, &Action::SelectRoyal { royal_id: 0 }).is_err());
    assert_eq!(game, before);
}

#[test]
fn test_payment_divergence_and_custom_payment() {
    let mut p = PlayerState::new(0);
    p.tokens.add(GemType::Blue, 1);
    p.tokens.add(GemType::Green, 1);
    p.tokens.add(GemType::Red, 1);
    p.tokens.add(GemType::Gold, 2);
    let card = JewelCard {
        id: 250,
        tier: CardTier::Tier1,
        color: CardColor::Red,
        points: 1,
        bonus: 1,
        ability: None,
        crowns: 0,
        cost: CardCost::new(0, 1, 1, 1, 0, 0),
    };
    let info = check_payment_divergence(&p, &card).unwrap();
    assert!(info.has_divergence);
    assert_eq!(info.mandatory_gold, 0);
    assert_eq!(info.free_gold, 2);
    assert_eq!(info.max_replaceable, [0, 1, 1, 1, 0, 0]);

    let default = compute_card_payment(&p, &card).unwrap();
    assert_eq!(default.counts, [0, 1, 1, 1, 0, 0, 0]);

    let keep_green = compute_custom_payment(&p, &card, &[0, 0, 1, 0, 0, 0]).unwrap();
    assert_eq!(keep_green.counts, [0, 1, 0, 1, 0, 0, 1]);
    let keep_two = compute_custom_payment(&p, &card, &[0, 1, 0, 1, 0, 0]).unwrap();
    assert_eq!(keep_two.counts, [0, 0, 1, 0, 0, 0, 2]);
    assert!(compute_custom_payment(&p, &card, &[0, 1, 1, 1, 0, 0]).is_none());
    assert!(compute_custom_payment(&p, &card, &[2, 0, 0, 0, 0, 0]).is_none());

    let mut poor = PlayerState::new(1);
    poor.tokens.add(GemType::Blue, 1);
    assert!(check_payment_divergence(&poor, &card).is_none());
    assert!(compute_card_payment(&poor, &card).is_none());

    let mut exact = PlayerState::new(1);
    exact.tokens.add(GemType::Blue, 1);
    exact.tokens.add(GemType::Green, 1);
    exact.tokens.add(GemType::Red, 1);
    let info = check_payment_divergence(&exact, &card).unwrap();
    assert!(!info.has_divergence);
    assert_eq!(info.free_gold, 0);
}

#[test]
fn test_payment_uses_bonuses_and_gold() {
    let mut p = PlayerState::new(0);
    p.bonuses[GemType::White.index()] = 2;
    p.tokens.add(GemType::White, 5);
    p.tokens.add(GemType::Pearl, 0);
    p.tokens.add(GemType::Gold, 2);
    let card = JewelCard {
        id: 9,
        tier: CardTier::Tier2,
        color: CardColor::Blue,
        points: 2,
        bonus: 1,
        ability: None,
        crowns: 0,
        cost: CardCost::new(3, 0, 0, 0, 0, 2),
    };
    let pay = compute_card_payment(&p, &card).unwrap();
    assert_eq!(pay.counts, [1, 0, 0, 0, 0, 0, 2]);
    assert!(p.can_afford(&card));
    p.tokens.set(GemType::Gold, 1);
    assert!(!p.can_afford(&card));
}

#[test]
fn test_victory_conditions() {
    let mut p = PlayerState::new(0);
    assert_eq!(check_victory(&p), None);
    p.total_crowns = 10;
    assert_eq!(check_victory(&p), Some(VictoryReason::TenCrowns));
    p.total_points = 20;
    assert_eq!(check_victory(&p), Some(VictoryReason::TwentyPrestigePoints));
    let mut q = PlayerState::new(1);
    q.color_points[GemType::White.index()] = 10;
    q.color_points[GemType::Black.index()] = 12;
    assert_eq!(check_victory(&q), Some(VictoryReason::TenPointsSameColor(GemType::White)));
}

#[test]
fn test_extract_body() {
    assert_eq!(extract_body(b"POST /x HTTP/1.1\r\nA: b\r\n\r\n{\"k\":1}"), b"{\"k\":1}");
    assert_eq!(extract_body(b"POST /x\n\nhello"), b"hello");
    assert_eq!(extract_body(b"GET / HTTP/1.1\r\n"), b"");
    assert_eq!(extract_body(b"a\r\n\r\nb\n\nc"), b"b\n\nc");
    assert_eq!(extract_body(b""), b"");
}

#[test]
fn test_action_category_names() {
    assert_eq!(action_category(&Action::SkipOptional), "skip_optional");
    assert_eq!(action_category(&Action::TakeGoldToken { r: 0, c: 0 }), "take_gold");
    assert_eq!(action_category(&Action::DiscardToken { gem: GemType::Red }), "discard");
    assert_eq!(action_category(&Action::SelectRoyal { royal_id: 1 }), "royal");
}

#[test]
fn test_stack_vec_operations() {
    let mut v: StackVec<u8, 4> = StackVec::new();
    assert!(v.is_empty());
    assert_eq!(v.capacity(), 4);
    v.push(1);
    v.push(2);
    v.extend(&[3, 4]);
    assert_eq!(v.len(), 4);
    assert_eq!(v.remove(1), 2);
    v.insert(0, 9);
    assert_eq!(v.as_slice(), &[9, 1, 3, 4]);
    assert_eq!(v.pop(), Some(4));
    assert_eq!(v.get(5), None);
    v.set(0, 7);
    assert_eq!(v.at(0), 7);
    let mut it = v.into_iter();
    assert_eq!(it.next(), Some(7));
    assert_eq!(it.next(), Some(1));
    assert_eq!(it.next(), Some(3));
    assert_eq!(it.next(), None);
    assert_eq!(it.next(), None);
}

#[test]
fn test_stack_vec_insert_then_remove_restores() {
    let mut v: StackVec<u8, 5> = StackVec::new();
    v.extend(&[1, 2, 3, 4]);
    let before = v.clone();
    v.insert(2, 8);
    assert_eq!(v.as_slice(), &[1, 2, 8, 3, 4]);
    assert_eq!(v.len(), 5);
    assert_eq!(v.remove(2), 8);
    assert_eq!(v, before);
}

#[test]
fn test_token_collection_operations() {
    let mut t = TokenCollection::initial_bag();
    assert_eq!(t.total(), 25);
    assert!(t.remove(GemType::Gold, 4).is_err());
    assert!(t.remove(GemType::Gold, 3).is_ok());
    assert_eq!(t.get(GemType::Gold), 0);
    let mut other = TokenCollection::new();
    other.add(GemType::Pearl, 2);
    other.add(GemType::White, 1);
    assert!(t.remove_collection(&other).is_ok());
    assert_eq!(t.total(), 19);
    other.add(GemType::Pearl, 1);
    assert!(t.remove_collection(&other).is_err());
    assert_eq!(t.total(), 19);
    t.add_collection(&other);
    assert_eq!(t.total(), 23);
    *t.get_mut(GemType::Red) = 0;
    assert_eq!(t.get(GemType::Red), 0);
    assert!(TokenCollection::new().is_empty());
}

#[test]
fn test_refused_take_keeps_removed_tokens() {
    let mut game = GameState::new_game(8, &deck_list());
    game.phase = TurnPhase::MandatoryAction;
    let mut gold = None;
    for r in 0..5 {
        for c in 0..5 {
            if game.board.get(r, c) == Some(GemType::Gold) {
                gold = Some((r, c));
            }
        }
    }
    let (r, c) = gold.unwrap();
    assert!(GameEngine::step(&mut game, &Action::TakeTokens { count: 1, positions: [(r, c), (0, 0), (0, 0)] })
        .is_err());
    assert_eq!(game.board.get(r, c), None);
}

#[test]
fn test_player_type_names_trim_unicode_white_space() {
    assert_eq!(splendor_duel_engine::PlayerType::parse("\u{3000}Random\t\n"), splendor_duel_engine::PlayerType::Random);
    assert_eq!(splendor_duel_engine::PlayerType::parse("\u{85}NEURAL\u{a0}"), splendor_duel_engine::PlayerType::Neural);
    assert_eq!(splendor_duel_engine::PlayerType::parse("\u{200b}random"), splendor_duel_engine::PlayerType::Heuristic);
    assert_eq!(splendor_duel_engine::PlayerKind::parse("  h "), splendor_duel_engine::PlayerKind::Heuristic);
}
