use rand::SeedableRng;
use rand_chacha::ChaCha8Rng;
use splendor_duel_engine::gameplay::payment::{check_payment_divergence, compute_custom_payment};
use splendor_duel_engine::{
    check_victory, compute_card_payment, Action, CardAbility, CardColor, CardCost, CardTier, GameEngine, GameState,
    GemType, InteractiveSession, JewelCard, PlayerKind, PlayerType, RandomAI, ReplayError,
    ReplaySession, ReservedCard, RuleEngine, SessionError, TokenCollection, TurnPhase,
    VictoryReason,
};

/// A card list for tests: 30, 24 and 13 cards of levels 1, 2 and 3, ids 0 to 66.
fn catalogue() -> Vec<JewelCard> {
    let colors = [
        CardColor::White,
        CardColor::Blue,
        CardColor::Green,
        CardColor::Red,
        CardColor::Black,
    ];
    let abilities = [
        Some(CardAbility::ExtraTurn),
        Some(CardAbility::TakeSameColor),
        Some(CardAbility::StealToken),
        Some(CardAbility::TakePrivilege),
        None,
        None,
        None,
    ];
    let mut cards = Vec::new();
    let mut id: u8 = 0;
    for (tier, n) in [(CardTier::Tier1, 30u8), (CardTier::Tier2, 24u8), (CardTier::Tier3, 13u8)] {
        let level = tier.index() as u8 + 1;
        for i in 0..n {
            let color = if i % 10 == 9 {
                CardColor::Points
            } else if i % 10 == 8 {
                CardColor::Joker
            } else {
                colors[(i % 5) as usize]
            };
            let mut cost = [0u8; 6];
            cost[(i % 5) as usize] = level;
            cost[((i + 2) % 5) as usize] += level / 2 + (i % 2);
            if level == 3 && i % 3 == 0 {
                cost[5] = 1;
            }
            cards.push(JewelCard {
                id,
                tier,
                color,
                points: if color == CardColor::Points { level + 1 } else { (i % 3) * level / 2 },
                bonus: if color == CardColor::Points { 0 } else { 1 },
                ability: abilities[(i % 7) as usize],
                crowns: if i % 4 == 0 { 1 } else { 0 },
                cost: CardCost::new(cost[0], cost[1], cost[2], cost[3], cost[4], cost[5]),
            });
            id += 1;
        }
    }
    cards
}

fn new_game(seed: u64) -> GameState {
    GameState::new_game(seed, &catalogue())
}

fn card(id: u8, tier: CardTier, color: CardColor, cost: CardCost) -> JewelCard {
    JewelCard { id, tier, color, points: 1, bonus: 1, ability: None, crowns: 0, cost }
}

fn gold_positions(game: &GameState) -> Vec<(usize, usize)> {
    let mut out = Vec::new();
    for r in 0..5 {
        for c in 0..5 {
            if game.board.get(r, c) == Some(GemType::Gold) {
                out.push((r, c));
            }
        }
    }
    out
}

#[test]
fn test_new_game_setup() {
    let game = new_game(7);
    assert_eq!(game.phase, TurnPhase::OptionalActions);
    assert_eq!(game.current_player, 0);
    assert_eq!(game.turn_number, 1);
    assert_eq!(game.privilege_pool, 2);
    assert_eq!(game.players[0].privileges, 0);
    assert_eq!(game.players[1].privileges, 1);
    assert_eq!(game.royal_cards.len(), 4);
    assert_eq!(game.pyramid[0].len(), 5);
    assert_eq!(game.pyramid[1].len(), 4);
    assert_eq!(game.pyramid[2].len(), 3);
    assert_eq!(game.decks[0].len(), 25);
    assert_eq!(game.decks[1].len(), 20);
    assert_eq!(game.decks[2].len(), 10);
    assert_eq!(game.bag.len(), 0);
    assert_eq!(game.board.count_tokens(), 25);
    assert_eq!(gold_positions(&game).len(), 3);
}

#[test]
fn test_joker_purchase_rules() {
    let mut game = new_game(100);
    game.phase = TurnPhase::MandatoryAction;
    let joker_card = catalogue().into_iter().find(|c| c.color == CardColor::Joker).unwrap();

    game.players[0].bonuses = [0; 5];
    game.players[0].tokens.add(GemType::Gold, 10);
    game.pyramid[joker_card.tier.index()].set(0, joker_card);

    let legal = RuleEngine::legal_actions(&game);
    let can_buy_joker = legal.iter().any(|a| match a {
        Action::PurchaseCard { from_reserved: false, tier, slot: 0 } => *tier == joker_card.tier,
        _ => false,
    });
    assert!(!can_buy_joker);

    game.players[0].bonuses[GemType::Blue.index()] = 1;
    let legal = RuleEngine::legal_actions(&game);
    let can_buy_joker = legal.iter().any(|a| match a {
        Action::PurchaseCard { from_reserved: false, tier, slot: 0 } => *tier == joker_card.tier,
        _ => false,
    });
    assert!(can_buy_joker);

    let buy_action = Action::PurchaseCard { from_reserved: false, tier: joker_card.tier, slot: 0 };
    assert!(GameEngine::step(&mut game, &buy_action).is_ok());
    assert!(matches!(game.phase, TurnPhase::CardAbilityJoker { .. }));

    let legal_colors = RuleEngine::legal_actions(&game);
    assert_eq!(legal_colors.len(), 1);
    assert_eq!(legal_colors[0], Action::AssignJokerColor { color: GemType::Blue });

    let blue_bonus_before = game.players[0].bonuses[GemType::Blue.index()];
    assert!(GameEngine::step(&mut game, &legal_colors[0]).is_ok());
    assert_eq!(
        game.players[0].bonuses[GemType::Blue.index()],
        blue_bonus_before + joker_card.bonus
    );
}

#[test]
fn test_privilege_scroll_exhaustion_steal() {
    let mut game = new_game(200);
    game.privilege_pool = 0;
    game.players[1].privileges = 2;
    game.players[0].privileges = 0;
    game.grant_privilege_to(0);
    assert_eq!(game.players[0].privileges, 1);
    assert_eq!(game.players[1].privileges, 1);
    assert_eq!(game.privilege_pool, 0);
}

#[test]
fn test_cannot_reserve_card_without_gold_on_board() {
    let mut game = new_game(300);
    game.phase = TurnPhase::MandatoryAction;
    for (r, c) in gold_positions(&game) {
        game.board.take(r, c);
    }
    assert!(!game.board.has_gold());

    let p0_gold_before = game.players[0].tokens.get(GemType::Gold);
    let p0_reserved_before = game.players[0].reserved_cards.len();

    let legal_actions = RuleEngine::legal_actions(&game);
    assert!(!legal_actions.iter().any(|a| matches!(a, Action::ReserveCard { .. })));

    let reserve_action = Action::ReserveCard { tier: CardTier::Tier1, slot: Some(0) };
    let res = GameEngine::step(&mut game, &reserve_action);
    assert!(res.is_err());
    assert_eq!(game.players[0].tokens.get(GemType::Gold), p0_gold_before);
    assert_eq!(game.players[0].reserved_cards.len(), p0_reserved_before);
}

#[test]
fn test_reserve_card_with_gold_selection() {
    let mut game = new_game(42);
    game.phase = TurnPhase::MandatoryAction;
    let gold_coords = gold_positions(&game);
    assert!(!gold_coords.is_empty());

    let p0_gold_before = game.players[0].tokens.get(GemType::Gold);
    let p0_reserved_before = game.players[0].reserved_cards.len();

    let legals = RuleEngine::legal_actions(&game);
    assert!(legals.iter().any(|a| matches!(a, Action::ReserveCard { .. })));

    let reserve_action = Action::ReserveCard { tier: CardTier::Tier1, slot: Some(0) };
    assert!(GameEngine::step(&mut game, &reserve_action).is_ok());
    assert_eq!(game.phase, TurnPhase::SelectReserveGold);

    let gold_choices = RuleEngine::legal_actions(&game);
    assert_eq!(gold_choices.len(), gold_coords.len());
    let (r, c) = gold_coords[0];
    assert!(GameEngine::step(&mut game, &Action::TakeGoldToken { r, c }).is_ok());

    assert_eq!(game.board.get(r, c), None);
    assert_eq!(game.players[0].tokens.get(GemType::Gold), p0_gold_before + 1);
    assert_eq!(game.players[0].reserved_cards.len(), p0_reserved_before + 1);
    assert!(game.players[0].reserved_cards.last().unwrap().is_public);
    assert_eq!(game.current_player, 1);
}

#[test]
fn test_blind_reserve_card_is_private() {
    let mut game = new_game(99);
    game.phase = TurnPhase::MandatoryAction;
    let gold_pos = gold_positions(&game)[0];

    let deck_len_before = game.decks[0].len();
    assert!(deck_len_before > 0);
    let top = game.decks[0].get(deck_len_before - 1).unwrap();

    let blind_reserve = Action::ReserveCard { tier: CardTier::Tier1, slot: None };
    assert!(GameEngine::step(&mut game, &blind_reserve).is_ok());
    assert!(GameEngine::step(&mut game, &Action::TakeGoldToken { r: gold_pos.0, c: gold_pos.1 }).is_ok());

    assert_eq!(game.decks[0].len(), deck_len_before - 1);
    let reserved = game.players[0].reserved_cards.last().unwrap();
    assert!(!reserved.is_public);
    assert_eq!(reserved.card, top);
}

#[test]
fn test_hand_limit_discard() {
    let mut game = new_game(400);
    game.phase = TurnPhase::MandatoryAction;
    game.players[0].tokens.set(GemType::White, 6);
    game.players[0].tokens.set(GemType::Blue, 5);
    assert_eq!(game.players[0].tokens.total(), 11);

    game.board.set(0, 0, Some(GemType::Red));
    let take_action = Action::TakeTokens { count: 1, positions: [(0, 0), (0, 0), (0, 0)] };
    assert!(GameEngine::step(&mut game, &take_action).is_ok());

    assert_eq!(game.players[0].tokens.total(), 12);
    assert_eq!(game.phase, TurnPhase::DiscardTokens);
    assert_eq!(game.current_player, 0);

    let bag_before = game.bag.len();
    assert!(GameEngine::step(&mut game, &Action::DiscardToken { gem: GemType::White }).is_ok());
    assert_eq!(game.phase, TurnPhase::DiscardTokens);
    assert_eq!(game.bag.len(), bag_before + 1);

    assert!(GameEngine::step(&mut game, &Action::DiscardToken { gem: GemType::White }).is_ok());
    assert_eq!(game.players[0].tokens.total(), 10);
    assert_eq!(game.current_player, 1);
    assert_eq!(game.phase, TurnPhase::OptionalActions);
}

#[test]
fn test_single_color_ten_points_victory() {
    let mut game = new_game(500);
    game.players[0].color_points[GemType::Red.index()] = 10;
    assert_eq!(
        check_victory(&game.players[0]),
        Some(VictoryReason::TenPointsSameColor(GemType::Red))
    );
}

#[test]
fn test_parallel_selfplay_stress() {
    for seed in 0..40u64 {
        let mut game = new_game(seed);
        let mut rng = ChaCha8Rng::seed_from_u64(seed);
        let mut step_count = 0;
        while !matches!(game.phase, TurnPhase::GameOver(_)) {
            step_count += 1;
            assert!(step_count <= 2000, "seed {seed}: no end after 2000 steps");
            let action = RandomAI::select_action(&game, &mut rng)
                .unwrap_or_else(|| panic!("seed {seed}: no legal action in {:?}", game.phase));
            GameEngine::step(&mut game, &action)
                .unwrap_or_else(|e| panic!("seed {seed}: legal action refused: {e}"));
        }
        let (winner, reason) = game.winner.unwrap();
        assert!(winner < 2);
        assert_eq!(game.phase, TurnPhase::GameOver(reason));
    }
}

#[test]
fn test_replenish_board_rng_entropy_and_determinism() {
    let mut game1 = new_game(42);
    let mut game2 = new_game(42);
    for r in 0..2 {
        for c in 0..5 {
            if let Some(gem) = game1.board.take(r, c) {
                game1.bag.push(gem);
            }
            if let Some(gem) = game2.board.take(r, c) {
                game2.bag.push(gem);
            }
        }
    }
    GameEngine::step(&mut game1, &Action::ReplenishBoard).unwrap();
    GameEngine::step(&mut game2, &Action::ReplenishBoard).unwrap();
    assert_eq!(game1.board, game2.board);
    assert_eq!(game1.rng_counter, 1);
    assert_eq!(game2.rng_counter, 1);

    let mut game_a = new_game(100);
    let mut game_b = new_game(999);
    for r in 0..2 {
        for c in 0..5 {
            if let Some(gem) = game_a.board.take(r, c) {
                game_a.bag.push(gem);
            }
            if let Some(gem) = game_b.board.take(r, c) {
                game_b.bag.push(gem);
            }
        }
    }
    assert_eq!(game_a.turn_number, game_b.turn_number);
    assert_eq!(game_a.bag.len(), game_b.bag.len());
    GameEngine::step(&mut game_a, &Action::ReplenishBoard).unwrap();
    GameEngine::step(&mut game_b, &Action::ReplenishBoard).unwrap();
    assert_ne!(game_a.board, game_b.board);
}

#[test]
fn test_optional_actions_order_and_privilege_restriction_after_replenish() {
    let mut game = new_game(777);
    assert_eq!(game.phase, TurnPhase::OptionalActions);
    game.players[0].privileges = 2;
    game.privilege_pool = 1;

    let taken_gem = game.board.take(0, 0).unwrap();
    game.bag.push(taken_gem);

    let legals = RuleEngine::legal_actions(&game);
    assert!(legals.contains(&Action::SkipOptional));
    assert!(legals.contains(&Action::ReplenishBoard));
    assert!(legals.iter().any(|a| matches!(a, Action::UsePrivilege { .. })));

    assert!(game.board.get(0, 1).is_some());
    assert!(GameEngine::step(&mut game, &Action::UsePrivilege { r: 0, c: 1 }).is_ok());
    assert_eq!(game.players[0].privileges, 1);
    assert_eq!(game.privilege_pool, 2);
    assert_eq!(game.phase, TurnPhase::OptionalActions);
    assert_eq!(game.privileges_used_this_turn, 1);
    assert!(!game.replenished_this_turn);

    let legals_after_priv = RuleEngine::legal_actions(&game);
    assert!(legals_after_priv.iter().any(|a| matches!(a, Action::UsePrivilege { .. })));
    assert!(legals_after_priv.contains(&Action::ReplenishBoard));

    let p1_priv_before = game.players[1].privileges;
    assert!(GameEngine::step(&mut game, &Action::ReplenishBoard).is_ok());
    assert_eq!(game.players[1].privileges, p1_priv_before + 1);
    assert!(game.replenished_this_turn);
    assert_eq!(game.phase, TurnPhase::MandatoryAction);

    let legals_after_replenish = RuleEngine::legal_actions(&game);
    assert!(!legals_after_replenish.iter().any(|a| matches!(a, Action::UsePrivilege { .. })));
    assert!(!legals_after_replenish.contains(&Action::ReplenishBoard));

    assert!(GameEngine::step(&mut game, &Action::UsePrivilege { r: 2, c: 2 }).is_err());
    assert!(GameEngine::step(&mut game, &Action::ReplenishBoard).is_err());
}

#[test]
fn test_must_replenish_when_no_mandatory_actions_available() {
    let mut game = new_game(999);
    assert_eq!(game.phase, TurnPhase::OptionalActions);
    for r in 0..5 {
        for c in 0..5 {
            if let Some(gem) = game.board.take(r, c) {
                game.bag.push(gem);
            }
        }
    }
    assert_eq!(game.board.count_tokens(), 0);
    assert!(!game.board.has_gold());
    assert_eq!(game.players[0].tokens.total(), 0);

    let legals = RuleEngine::legal_actions(&game);
    assert!(!legals.contains(&Action::SkipOptional));
    assert!(legals.contains(&Action::ReplenishBoard));

    assert!(GameEngine::step(&mut game, &Action::ReplenishBoard).is_ok());
    assert_eq!(game.phase, TurnPhase::MandatoryAction);
    assert!(game.board.count_tokens() > 0);
    let mandatory_legals = RuleEngine::legal_actions(&game);
    assert!(!mandatory_legals.is_empty());
    assert!(mandatory_legals.iter().any(|a| matches!(a, Action::TakeTokens { .. })));
}

#[test]
fn test_mandatory_fallback_skip_when_nothing_possible() {
    let mut game = new_game(5);
    game.phase = TurnPhase::MandatoryAction;
    for r in 0..5 {
        for c in 0..5 {
            game.board.take(r, c);
        }
    }
    game.replenished_this_turn = true;
    let legals = RuleEngine::legal_actions(&game);
    assert_eq!(legals, vec![Action::SkipOptional]);
    assert!(GameEngine::step(&mut game, &Action::SkipOptional).is_ok());
    assert_eq!(game.current_player, 1);
    assert_eq!(game.phase, TurnPhase::OptionalActions);
}

#[test]
fn test_purchase_pays_default_and_returns_tokens_to_bag() {
    let mut game = new_game(101);
    game.phase = TurnPhase::MandatoryAction;
    game.players[0].tokens = TokenCollection::new();
    game.players[0].tokens.add(GemType::Blue, 1);
    game.players[0].tokens.add(GemType::Green, 1);
    game.players[0].tokens.add(GemType::Red, 1);
    game.players[0].tokens.add(GemType::Gold, 2);
    let test_card = card(250, CardTier::Tier1, CardColor::Red, CardCost::new(0, 1, 2, 1, 0, 0));
    game.pyramid[0].set(0, test_card);
    let top = game.decks[0].get(game.decks[0].len() - 1).unwrap();
    let bag_before = game.bag.len();

    let buy = Action::PurchaseCard { from_reserved: false, tier: CardTier::Tier1, slot: 0 };
    assert!(RuleEngine::legal_actions(&game).contains(&buy));
    assert!(GameEngine::step(&mut game, &buy).is_ok());

    assert_eq!(game.players[0].tokens.get(GemType::Blue), 0);
    assert_eq!(game.players[0].tokens.get(GemType::Green), 0);
    assert_eq!(game.players[0].tokens.get(GemType::Red), 0);
    assert_eq!(game.players[0].tokens.get(GemType::Gold), 1);
    assert_eq!(game.bag.len(), bag_before + 4);
    assert_eq!(game.players[0].bonuses[GemType::Red.index()], 1);
    assert_eq!(game.players[0].cards.len(), 1);
    assert_eq!(game.pyramid[0].get(0), Some(top));
    assert_eq!(game.current_player, 1);
}

#[test]
fn test_purchase_refused_when_unaffordable() {
    let mut game = new_game(102);
    game.phase = TurnPhase::MandatoryAction;
    game.players[0].tokens = TokenCollection::new();
    let test_card = JewelCard { points: 0, ..card(251, CardTier::Tier1, CardColor::Blue, CardCost::new(0, 1, 0, 0, 0, 0)) };
    game.pyramid[0].set(0, test_card);
    let before = game.clone();
    let buy = Action::PurchaseCard { from_reserved: false, tier: CardTier::Tier1, slot: 0 };
    assert!(!RuleEngine::legal_actions(&game).contains(&buy));
    assert!(GameEngine::step(&mut game, &buy).is_err());
    assert_eq!(game, before);
}

#[test]
fn test_purchase_reserved_card() {
    let mut game = new_game(103);
    game.phase = TurnPhase::MandatoryAction;
    let reserved = card(252, CardTier::Tier2, CardColor::Black, CardCost::new(1, 0, 0, 0, 0, 0));
    game.players[0].reserved_cards.push(ReservedCard::new(reserved, false));
    game.players[0].tokens.add(GemType::White, 1);
    let buy = Action::PurchaseCard { from_reserved: true, tier: CardTier::Tier2, slot: 0 };
    assert!(RuleEngine::legal_actions(&game).contains(&buy));
    assert!(GameEngine::step(&mut game, &buy).is_ok());
    assert!(game.players[0].reserved_cards.is_empty());
    assert_eq!(game.players[0].bonuses[GemType::Black.index()], 1);
}

#[test]
fn test_take_three_same_color_gives_opponent_privilege() {
    let mut game = new_game(11);
    game.phase = TurnPhase::MandatoryAction;
    for c in 0..3 {
        game.board.set(0, c, Some(GemType::Green));
    }
    let p1_before = game.players[1].privileges;
    let take = Action::TakeTokens { count: 3, positions: [(0, 0), (0, 1), (0, 2)] };
    assert!(RuleEngine::legal_actions(&game).contains(&take));
    assert!(GameEngine::step(&mut game, &take).is_ok());
    assert_eq!(game.players[1].privileges, p1_before + 1);
    assert_eq!(game.players[0].tokens.get(GemType::Green), 3);
}

#[test]
fn test_take_tokens_refused_on_gold() {
    let mut game = new_game(12);
    game.phase = TurnPhase::MandatoryAction;
    game.board.set(1, 0, Some(GemType::Blue));
    game.board.set(1, 1, Some(GemType::Gold));
    let take = Action::TakeTokens { count: 2, positions: [(1, 0), (1, 1), (0, 0)] };
    assert!(GameEngine::step(&mut game, &take).is_err());
    assert_eq!(game.phase, TurnPhase::MandatoryAction);
}

#[test]
fn test_steal_and_select_royal() {
    let mut game = new_game(13);
    game.phase = TurnPhase::CardAbilitySteal;
    game.players[1].tokens.add(GemType::Pearl, 1);
    let legals = RuleEngine::legal_actions(&game);
    assert_eq!(legals, vec![Action::StealToken { gem: GemType::Pearl }]);
    assert!(GameEngine::step(&mut game, &Action::StealToken { gem: GemType::Gold }).is_err());
    assert!(GameEngine::step(&mut game, &legals[0]).is_ok());
    assert_eq!(game.players[0].tokens.get(GemType::Pearl), 1);
    assert_eq!(game.players[1].tokens.get(GemType::Pearl), 0);

    let mut game = new_game(14);
    game.phase = TurnPhase::SelectRoyalCard;
    game.players[0].total_crowns = 3;
    let legals = RuleEngine::legal_actions(&game);
    assert_eq!(legals.len(), 4);
    assert!(GameEngine::step(&mut game, &Action::SelectRoyal { royal_id: 3 }).is_ok());
    assert_eq!(game.players[0].total_points, 3);
    assert!(game.players[0].royals_claimed[0]);
    assert_eq!(game.royal_cards.len(), 3);
    assert!(GameEngine::step(&mut game, &Action::SelectRoyal { royal_id: 3 }).is_err());
}

#[test]
fn test_determinize_for_player_conservation_and_privacy() {
    let cards = catalogue();
    let mut game = GameState::new_game(12345, &cards);
    let mut rng = ChaCha8Rng::seed_from_u64(999);

    let opp_blind_t1 = game.decks[0].pop().unwrap();
    let opp_blind_t2 = game.decks[1].pop().unwrap();
    let opp_public_t2 = game.decks[1].pop().unwrap();
    let obs_blind_t1 = game.decks[0].pop().unwrap();
    let obs_public_t1 = game.decks[0].pop().unwrap();

    game.players[1].reserved_cards.push(ReservedCard::new(opp_blind_t1, false));
    game.players[1].reserved_cards.push(ReservedCard::new(opp_blind_t2, false));
    game.players[1].reserved_cards.push(ReservedCard::new(opp_public_t2, true));
    game.players[0].reserved_cards.push(ReservedCard::new(obs_blind_t1, false));
    game.players[0].reserved_cards.push(ReservedCard::new(obs_public_t1, true));

    let det_state = game.determinize_for_player(0, &cards, &mut rng);

    assert_eq!(det_state.players[0].reserved_cards, game.players[0].reserved_cards);
    assert_eq!(det_state.players[0].cards, game.players[0].cards);
    assert_eq!(det_state.pyramid, game.pyramid);
    assert_eq!(det_state.board, game.board);
    assert_eq!(det_state.players[1].reserved_cards[2], game.players[1].reserved_cards[2]);
    assert_eq!(det_state.players[1].reserved_cards[0].card.tier, CardTier::Tier1);
    assert!(!det_state.players[1].reserved_cards[0].is_public);
    assert_eq!(det_state.players[1].reserved_cards[1].card.tier, CardTier::Tier2);
    assert!(!det_state.players[1].reserved_cards[1].is_public);
    for t in 0..3 {
        assert_eq!(det_state.decks[t].len(), game.decks[t].len());
    }

    let mut card_counts = [0u32; 68];
    for row in det_state.pyramid.iter() {
        for c in row.as_slice() {
            card_counts[c.id as usize] += 1;
        }
    }
    for p in det_state.players.iter() {
        for c in p.cards.iter() {
            card_counts[c.id as usize] += 1;
        }
        for rc in p.reserved_cards.iter() {
            card_counts[rc.card.id as usize] += 1;
        }
    }
    for deck in det_state.decks.iter() {
        for c in deck.as_slice() {
            card_counts[c.id as usize] += 1;
        }
    }
    for id in 0..67 {
        assert_eq!(card_counts[id], 1, "card {id} must appear exactly once");
    }
}

#[test]
fn test_determinization_with_hidden_cards() {
    let cards = catalogue();
    let mut game = GameState::new_game(777, &cards);
    let mut rng = ChaCha8Rng::seed_from_u64(888);
    let opp_blind = game.decks[0].pop().unwrap();
    game.players[1].reserved_cards.push(ReservedCard::new(opp_blind, false));
    let det_state = game.determinize_for_player(0, &cards, &mut rng);
    let legal = RuleEngine::legal_actions(&det_state);
    assert!(!legal.is_empty());
}

#[test]
fn test_step_human_take_tokens_coordinate_order_tolerance() {
    let mut sess = InteractiveSession::new(42, [PlayerKind::Human, PlayerKind::Neural], catalogue());
    assert_eq!(sess.game.phase, TurnPhase::MandatoryAction);

    let legals = sess.legal_actions();
    let take_3 = legals
        .iter()
        .find(|a| matches!(a, Action::TakeTokens { count: 3, .. }))
        .expect("a full opening board holds a line of three")
        .clone();

    if let Action::TakeTokens { count, positions } = take_3 {
        let reversed_positions = [positions[2], positions[1], positions[0]];
        let reversed_action = Action::TakeTokens {
            count,
            positions: reversed_positions,
        };
        let res = sess.step_human(reversed_action);
        assert!(res.is_ok(), "a legal line given from its other end is accepted: {:?}", res.err());
    }
}

#[test]
fn test_step_human_optional_phase_auto_skip() {
    let mut sess = InteractiveSession::new(100, [PlayerKind::Human, PlayerKind::Neural], catalogue());
    sess.game.phase = TurnPhase::OptionalActions;
    sess.game.players[sess.game.current_player].privileges = 1;

    assert!(sess.legal_actions().contains(&Action::SkipOptional));

    let mut trial_game = sess.game.clone();
    trial_game.phase = TurnPhase::MandatoryAction;
    let mandatory_legals = RuleEngine::legal_actions(&trial_game);
    let target_take = mandatory_legals
        .into_iter()
        .find(|a| matches!(a, Action::TakeTokens { count: 1, .. }))
        .unwrap();

    let step_res = sess.step_human(target_take);
    assert!(step_res.is_ok(), "a mandatory move submitted in the optional phase skips it first");
}

#[test]
fn test_session_start_skips_forced_optional_phase() {
    let sess = InteractiveSession::new(42, [PlayerKind::Human, PlayerKind::Random], catalogue());
    assert_eq!(sess.history.len(), 2);
    assert_eq!(sess.history[0].action, None);
    assert_eq!(sess.history[0].step_index, 0);
    assert_eq!(sess.history[1].action, Some(Action::SkipOptional));
    assert_eq!(sess.history[1].phase, TurnPhase::OptionalActions);
    assert!(!sess.history[1].by_human);
    assert!(sess.is_current_player_human());
    assert_eq!(sess.current_player_kind(), PlayerKind::Human);
}

#[test]
fn test_step_human_records_and_refuses() {
    let mut sess = InteractiveSession::new(42, [PlayerKind::Human, PlayerKind::Human], catalogue());
    let before = sess.history.len();
    let bad = sess.step_human(Action::SelectRoyal { royal_id: 0 });
    assert_eq!(bad, Err(SessionError::IllegalAction));
    assert_eq!(sess.history.len(), before);
    assert_eq!(sess.game.phase, TurnPhase::MandatoryAction);

    let take = sess
        .legal_actions()
        .into_iter()
        .find(|a| matches!(a, Action::TakeTokens { count: 1, .. }))
        .unwrap();
    let step = sess.step_human(take).unwrap();
    assert_eq!(step.action, Some(take));
    assert!(step.by_human);
    assert_eq!(step.player, 0);
    assert_eq!(step.step_index, before);
    assert_eq!(sess.history[before], step);
    assert_eq!(sess.game.current_player, 1);

    sess.game.phase = TurnPhase::GameOver(VictoryReason::TwentyPrestigePoints);
    assert_eq!(sess.step_human(take), Err(SessionError::GameOver));
}

#[test]
fn test_session_reset_keeps_cards() {
    let mut sess = InteractiveSession::new(5, [PlayerKind::Human, PlayerKind::Human], catalogue());
    let take = sess
        .legal_actions()
        .into_iter()
        .find(|a| matches!(a, Action::TakeTokens { .. }))
        .unwrap();
    sess.step_human(take).unwrap();
    sess.reset(5, [PlayerKind::Random, PlayerKind::Human]);
    let fresh = InteractiveSession::new(5, [PlayerKind::Random, PlayerKind::Human], catalogue());
    assert_eq!(sess.game, fresh.game);
    assert_eq!(sess.history, fresh.history);
    assert_eq!(sess.player_kinds, [PlayerKind::Random, PlayerKind::Human]);
    assert!(!sess.is_current_player_human());
}

#[test]
fn test_same_seed_deals_same_game() {
    assert_eq!(new_game(2024), new_game(2024));
    let a = new_game(1);
    let b = new_game(2);
    assert!(a.board != b.board || a.pyramid != b.pyramid || a.decks != b.decks);
}

#[test]
fn test_replay_session_random_steps() {
    let mut rs = ReplaySession::new_with_players(9, [PlayerType::Random, PlayerType::Random], catalogue());
    assert_eq!(rs.history.len(), 1);
    assert_eq!(rs.get_step(0).unwrap().action, None);
    assert!(rs.get_step(1).is_none());
    let mut rng = ChaCha8Rng::seed_from_u64(9);
    for k in 0..5 {
        assert_eq!(rs.step_random(&mut rng), Ok(true));
        assert_eq!(rs.history.len(), k + 2);
        assert_eq!(rs.get_step(k + 1).unwrap().step_index, k + 1);
    }
    rs.set_player_type(1, PlayerType::Heuristic);
    rs.set_player_type(7, PlayerType::Neural);
    assert_eq!(rs.player_types, [PlayerType::Random, PlayerType::Heuristic]);
    rs.reset(9);
    assert_eq!(rs.history.len(), 1);
    assert_eq!(rs.live_game, new_game(9));
}

#[test]
fn test_replay_session_play_choice() {
    let mut rs = ReplaySession::new_with_players(3, [PlayerType::Heuristic, PlayerType::Random], catalogue());
    assert_eq!(rs.play_choice(None), Err(ReplayError::NoLegalAction));
    assert_eq!(rs.history.len(), 1);
    let refused = rs.play_choice(Some(Action::StealToken { gem: GemType::Red }));
    assert!(matches!(refused, Err(ReplayError::Refused(_))));
    assert_eq!(rs.history.len(), 1);
    assert_eq!(rs.play_choice(Some(Action::SkipOptional)), Ok(true));
    assert_eq!(rs.history.len(), 2);
    assert_eq!(rs.history[1].action, Some(Action::SkipOptional));
    assert_eq!(rs.live_game.phase, TurnPhase::MandatoryAction);
    rs.live_game.phase = TurnPhase::GameOver(VictoryReason::TenCrowns);
    assert_eq!(rs.play_choice(Some(Action::SkipOptional)), Ok(false));
    assert_eq!(rs.history.len(), 2);
}

#[test]
fn test_legal_actions_listed_once() {
    let mut game = new_game(31);
    let mut rng = ChaCha8Rng::seed_from_u64(31);
    for _ in 0..60 {
        if matches!(game.phase, TurnPhase::GameOver(_)) {
            break;
        }
        let legal = RuleEngine::legal_actions(&game);
        for (i, a) in legal.iter().enumerate() {
            assert!(!legal[i + 1..].contains(a), "{a:?} listed twice in {:?}", game.phase);
        }
        let lines = game.board.find_all_lines();
        for (i, l) in lines.iter().enumerate() {
            assert!(
                !lines[i + 1..].iter().any(|m| m.count == l.count && m.positions == l.positions),
                "line listed twice"
            );
        }
        let a = RandomAI::select_action(&game, &mut rng).unwrap();
        GameEngine::step(&mut game, &a).unwrap();
    }
}

fn after_payment(tokens: &TokenCollection, pay: &TokenCollection, gem: GemType) -> u8 {
    tokens.get(gem) - pay.counts[gem.index()]
}

#[test]
fn test_payment_divergence_and_preserve_gold() {
    let mut game = new_game(101);
    game.phase = TurnPhase::MandatoryAction;
    game.players[0].tokens = TokenCollection::new();
    game.players[0].tokens.add(GemType::Blue, 1);
    game.players[0].tokens.add(GemType::Green, 1);
    game.players[0].tokens.add(GemType::Red, 1);
    game.players[0].tokens.add(GemType::Gold, 2);
    let test_card = card(250, CardTier::Tier1, CardColor::Red, CardCost::new(0, 1, 1, 1, 0, 0));
    game.pyramid[0].set(0, test_card);

    let legals = RuleEngine::legal_actions(&game);
    let buy = Action::PurchaseCard { from_reserved: false, tier: CardTier::Tier1, slot: 0 };
    assert!(legals.contains(&buy), "the purchase must be offered");
    assert!(compute_card_payment(&game.players[0], &test_card).is_some());

    let keep_green = compute_custom_payment(&game.players[0], &test_card, &[0, 0, 1, 0, 0, 0])
        .expect("the plan replacing green with gold must be allowed");
    let tokens = game.players[0].tokens;
    assert_eq!(after_payment(&tokens, &keep_green, GemType::Green), 1);
    assert_eq!(after_payment(&tokens, &keep_green, GemType::Blue), 0);
    assert_eq!(after_payment(&tokens, &keep_green, GemType::Red), 0);
    assert_eq!(after_payment(&tokens, &keep_green, GemType::Gold), 1);
    assert!(GameEngine::step(&mut game, &buy).is_ok());
}

#[test]
fn test_payment_fast_path_zero_steps_when_no_free_gold() {
    let mut game = new_game(102);
    game.phase = TurnPhase::MandatoryAction;
    game.players[0].tokens = TokenCollection::new();
    game.players[0].tokens.add(GemType::Blue, 1);
    let test_card = JewelCard { points: 0, ..card(251, CardTier::Tier1, CardColor::Blue, CardCost::new(0, 1, 0, 0, 0, 0)) };
    game.pyramid[0].set(0, test_card);

    let legals = RuleEngine::legal_actions(&game);
    let card_buys: Vec<_> = legals
        .iter()
        .filter(|a| matches!(a, Action::PurchaseCard { from_reserved: false, tier: CardTier::Tier1, slot: 0 }))
        .collect();
    assert_eq!(card_buys.len(), 1, "without free gold there is one way to pay");
    let info = check_payment_divergence(&game.players[0], &test_card).unwrap();
    assert!(!info.has_divergence);
    assert_eq!(info.free_gold, 0);

    let buy = Action::PurchaseCard { from_reserved: false, tier: CardTier::Tier1, slot: 0 };
    assert!(GameEngine::step(&mut game, &buy).is_ok());
    assert_eq!(game.players[0].tokens.get(GemType::Blue), 0);
    assert_eq!(game.players[0].bonuses[GemType::Blue.index()], 1);
}

#[test]
fn test_payment_with_multiple_gold_substitutions() {
    let mut game = new_game(104);
    game.phase = TurnPhase::MandatoryAction;
    game.players[0].tokens = TokenCollection::new();
    game.players[0].tokens.add(GemType::Blue, 1);
    game.players[0].tokens.add(GemType::Red, 1);
    game.players[0].tokens.add(GemType::Gold, 2);
    let test_card = JewelCard { points: 0, ..card(253, CardTier::Tier1, CardColor::Green, CardCost::new(0, 1, 0, 1, 0, 0)) };
    game.pyramid[0].set(0, test_card);

    let legals = RuleEngine::legal_actions(&game);
    let buy = Action::PurchaseCard { from_reserved: false, tier: CardTier::Tier1, slot: 0 };
    assert!(legals.contains(&buy));
    let dual = compute_custom_payment(&game.players[0], &test_card, &[0, 1, 0, 1, 0, 0])
        .expect("the plan replacing both gems with gold must be allowed");
    let tokens = game.players[0].tokens;
    assert_eq!(after_payment(&tokens, &dual, GemType::Blue), 1);
    assert_eq!(after_payment(&tokens, &dual, GemType::Red), 1);
    assert_eq!(after_payment(&tokens, &dual, GemType::Gold), 0);
    assert!(GameEngine::step(&mut game, &buy).is_ok());
}

#[test]
fn test_second_replenish_in_a_turn_refused() {
    let mut game = new_game(777);
    let gem = game.board.take(0, 0).unwrap();
    game.bag.push(gem);
    assert!(GameEngine::step(&mut game, &Action::ReplenishBoard).is_ok());
    assert_eq!(game.phase, TurnPhase::MandatoryAction);
    let gem = game.board.take(0, 1).unwrap();
    game.bag.push(gem);
    let before = game.clone();
    assert!(GameEngine::step(&mut game, &Action::ReplenishBoard).is_err());
    assert_eq!(game, before);
}
