use rand::SeedableRng;
use rand_chacha::ChaCha8Rng;
use splendor_duel_engine::bridge::encode::can_player_win_with_card;
use splendor_duel_engine::{
    action_mask, action_mask_from_legals, action_to_id, all_line_definitions, Action, CardColor,
    CardCost, CardTier, GameEngine, GameState, GemType, JewelCard, PlayerState, RandomAI,
    RuleEngine, TurnPhase, ACTION_SIZE, OBS_SIZE,
};

/// A card list for tests: 30, 24 and 13 cards of levels 1, 2 and 3.
fn card_list() -> Vec<JewelCard> {
    let colors = [
        CardColor::White,
        CardColor::Blue,
        CardColor::Green,
        CardColor::Red,
        CardColor::Black,
    ];
    let mut cards = Vec::new();
    let mut id: u8 = 0;
    for (tier, n) in [(CardTier::Tier1, 30u8), (CardTier::Tier2, 24u8), (CardTier::Tier3, 13u8)] {
        let level = tier.index() as u8 + 1;
        for i in 0..n {
            let color = if i % 10 == 9 { CardColor::Points } else { colors[(i % 5) as usize] };
            let mut cost = [0u8; 6];
            cost[(i % 5) as usize] = level;
            cost[((i + 1) % 5) as usize] += i % 2;
            cards.push(JewelCard {
                id,
                tier,
                color,
                points: if color == CardColor::Points { level + 1 } else { (i % 3) * level / 2 },
                bonus: if color == CardColor::Points { 0 } else { 1 },
                ability: None,
                crowns: if i % 4 == 0 { 1 } else { 0 },
                cost: CardCost::new(cost[0], cost[1], cost[2], cost[3], cost[4], cost[5]),
            });
            id += 1;
        }
    }
    cards
}

#[test]
fn test_action_mask_consistency() {
    let mut game = GameState::new_game(42, &card_list());
    let mut rng = ChaCha8Rng::seed_from_u64(42);
    for _ in 0..100 {
        if matches!(game.phase, TurnPhase::GameOver(_)) {
            break;
        }
        let legals = RuleEngine::legal_actions(&game);
        let mask = action_mask(&game);
        let mut ids: Vec<usize> = Vec::new();
        for act in legals.iter() {
            let id = action_to_id(act);
            assert!(id < ACTION_SIZE);
            assert!(mask[id]);
            assert!(!ids.contains(&id), "two legal actions share id {id}");
            ids.push(id);
        }
        let mask_true_count = mask.iter().filter(|&&b| b).count();
        assert_eq!(mask_true_count, legals.len());
        assert!(mask_true_count >= 1);
        match RandomAI::select_action(&game, &mut rng) {
            Some(act) => {
                assert!(GameEngine::step(&mut game, &act).is_ok());
            },
            None => break,
        }
    }
}

#[test]
fn test_line_table() {
    let lines = all_line_definitions();
    assert_eq!(lines.len(), 120);
    assert_eq!(lines[0].count, 2);
    assert_eq!(lines[0].positions, [(0, 0), (0, 1), (0, 0)]);
    assert_eq!(lines[1].count, 3);
    assert_eq!(lines[1].positions, [(0, 0), (0, 1), (0, 2)]);
    let threes = lines.iter().filter(|l| l.count == 3).count();
    assert_eq!(threes, 48);
    for (i, a) in lines.iter().enumerate() {
        for b in lines.iter().skip(i + 1) {
            assert_ne!(a, b);
        }
    }
}

#[test]
fn test_action_ids() {
    assert_eq!(action_to_id(&Action::SkipOptional), 0);
    assert_eq!(action_to_id(&Action::UsePrivilege { r: 4, c: 4 }), 25);
    assert_eq!(action_to_id(&Action::ReplenishBoard), 26);
    assert_eq!(action_to_id(&Action::TakeTokens { count: 1, positions: [(2, 3), (0, 0), (0, 0)] }), 40);
    assert_eq!(action_to_id(&Action::TakeTokens { count: 2, positions: [(0, 0), (0, 1), (0, 0)] }), 52);
    assert_eq!(action_to_id(&Action::TakeTokens { count: 3, positions: [(0, 0), (0, 1), (0, 2)] }), 53);
    assert_eq!(action_to_id(&Action::TakeTokens { count: 2, positions: [(0, 1), (0, 0), (0, 0)] }), 52);
    assert_eq!(action_to_id(&Action::ReserveCard { tier: CardTier::Tier2, slot: Some(1) }), 178);
    assert_eq!(action_to_id(&Action::ReserveCard { tier: CardTier::Tier3, slot: None }), 186);
    assert_eq!(
        action_to_id(&Action::PurchaseCard { from_reserved: false, tier: CardTier::Tier3, slot: 2 }),
        198
    );
    assert_eq!(
        action_to_id(&Action::PurchaseCard { from_reserved: true, tier: CardTier::Tier1, slot: 2 }),
        201
    );
    assert_eq!(action_to_id(&Action::AssignJokerColor { color: GemType::Black }), 206);
    assert_eq!(action_to_id(&Action::TakeSameColorToken { r: 0, c: 0 }), 207);
    assert_eq!(action_to_id(&Action::StealToken { gem: GemType::Pearl }), 237);
    assert_eq!(action_to_id(&Action::SelectRoyal { royal_id: 3 }), 242);
    assert_eq!(action_to_id(&Action::DiscardToken { gem: GemType::Gold }), 249);
    assert_eq!(action_to_id(&Action::TakeGoldToken { r: 4, c: 4 }), 274);
    assert_eq!(OBS_SIZE, 1005);
}

#[test]
fn test_mask_from_legals() {
    let legals = vec![Action::SkipOptional, Action::ReplenishBoard, Action::SkipOptional];
    let mask = action_mask_from_legals(&legals);
    assert!(mask[0]);
    assert!(mask[26]);
    assert_eq!(mask.iter().filter(|&&b| b).count(), 2);
    let empty = action_mask_from_legals(&[]);
    assert!(empty.iter().all(|&b| !b));
}

#[test]
fn test_winning_purchase_detection() {
    let mut p = PlayerState::new(0);
    let card = JewelCard {
        id: 1,
        tier: CardTier::Tier1,
        color: CardColor::Red,
        points: 3,
        bonus: 1,
        ability: None,
        crowns: 0,
        cost: CardCost::new(0, 0, 0, 0, 0, 0),
    };
    assert!(!can_player_win_with_card(&p, &card));
    p.color_points[GemType::Red.index()] = 7;
    assert!(can_player_win_with_card(&p, &card));
    p.color_points[GemType::Red.index()] = 0;
    p.total_points = 17;
    assert!(can_player_win_with_card(&p, &card));
    let joker = JewelCard { color: CardColor::Joker, ..card };
    p.total_points = 0;
    p.color_points[GemType::Blue.index()] = 8;
    assert!(!can_player_win_with_card(&p, &joker));
    p.bonuses[GemType::Blue.index()] = 1;
    assert!(can_player_win_with_card(&p, &joker));
    let pricey = JewelCard { cost: CardCost::new(1, 0, 0, 0, 0, 0), ..joker };
    assert!(!can_player_win_with_card(&p, &pricey));
}
