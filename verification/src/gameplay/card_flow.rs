use vstd::multiset::Multiset;
use vstd::prelude::*;

use super::engine::{
    ability_state, add_taken, after_check_state, finish_turn_state, lemma_ability_keeps, lemma_after_check_keeps,
    lemma_finish_turn_keeps, lemma_royal_ability_keeps, market_refilled, purchase_target, default_payment, royal_ability_state, royal_index, step_post, take_run,
};
use crate::game_state::player::PlayerState;
use crate::model::token::GemType;
use crate::game_state::accounting::{
    all_of_level, cards_in_play, decks_levelled, distinct_ids, lemma_catalogue_accounted,
    lemma_determinize_keeps_accounting, lemma_determinize_keeps_cards, lemma_tier_level, lemma_tier_split,
    market_cards, player_cards, reserve_cards,
};
use crate::game_state::state::{redraw_of, tier_cards};
use crate::game_state::phase::TurnPhase;
use crate::game_state::state::GameState;
use crate::model::action::Action;
use crate::model::card::{CardColor, CardTier, JewelCard, ReservedCard};

verus! {

broadcast use vstd::seq_lib::group_to_multiset_ensures;

/// The joker card waiting for its colour in this phase, if any.
pub open spec fn pending_cards(phase: TurnPhase) -> Multiset<JewelCard> {
    match phase {
        TurnPhase::CardAbilityJoker { pending_card } => Multiset::singleton(pending_card),
        _ => Multiset::empty(),
    }
}

/// Every jewel card of a game, counted with multiplicity: those in play and a joker
/// waiting for its colour.
pub open spec fn jewel_cards(s: GameState) -> Multiset<JewelCard> {
    cards_in_play(s).add(pending_cards(s.phase))
}

/// `t` has the decks, the market, and each player's bought and reserved cards of `s`.
spec fn cards_same(s: GameState, t: GameState) -> bool {
    &&& t.decks == s.decks
    &&& t.pyramid == s.pyramid
    &&& forall|i: int|
        0 <= i < 2 ==> #[trigger] t.players@[i].cards@ == s.players@[i].cards@
            && t.players@[i].reserved_cards@ == s.players@[i].reserved_cards@
}

/// A phase in which no joker waits.
pub open spec fn no_joker(phase: TurnPhase) -> bool {
    !(phase is CardAbilityJoker)
}

/// Two states with the same cards and no joker waiting hold the same jewel cards.
proof fn lemma_cards_same(s: GameState, t: GameState)
    requires
        cards_same(s, t),
        no_joker(s.phase),
        no_joker(t.phase),
    ensures
        jewel_cards(t) == jewel_cards(s),
{
    assert(t.players@[0].cards@ == s.players@[0].cards@);
    assert(t.players@[1].cards@ == s.players@[1].cards@);
    assert(market_cards(t) == market_cards(s));
    assert(player_cards(t.players@[0]) == player_cards(s.players@[0]));
    assert(player_cards(t.players@[1]) == player_cards(s.players@[1]));
}

/// The check after an action moves no card and leaves no joker waiting.
proof fn lemma_after_check_cards(s: GameState)
    ensures
        cards_same(s, after_check_state(s)),
        no_joker(after_check_state(s).phase),
{
    lemma_after_check_keeps(s);
}

/// Nor does the end of a turn.
proof fn lemma_finish_cards(s: GameState)
    ensures
        cards_same(s, finish_turn_state(s)),
        no_joker(finish_turn_state(s).phase),
{
    lemma_finish_turn_keeps(s);
}

/// Nor does a card's ability.
proof fn lemma_ability_cards(s: GameState, ability: Option<crate::model::card::CardAbility>, color: crate::model::card::CardColor)
    requires
        s.current_player < 2,
    ensures
        cards_same(s, ability_state(s, ability, color)),
        no_joker(ability_state(s, ability, color).phase),
{
    lemma_ability_keeps(s, ability, color);
    lemma_after_check_cards(s);
    lemma_after_check_cards(GameState { extra_turn_granted: true, ..s });
    lemma_after_check_cards(s.after_grant(s.cp()));
}

/// Nor does a royal card's ability.
proof fn lemma_royal_ability_cards(s: GameState, ability: Option<crate::model::card::RoyalAbility>)
    requires
        s.current_player < 2,
    ensures
        cards_same(s, royal_ability_state(s, ability)),
        no_joker(royal_ability_state(s, ability).phase),
{
    lemma_royal_ability_keeps(s, ability);
    lemma_after_check_cards(s);
    lemma_after_check_cards(GameState { extra_turn_granted: true, ..s });
    lemma_after_check_cards(s.after_grant(s.cp()));
}

/// Giving or taking back privilege scrolls moves no card.
proof fn lemma_privileges_cards(s: GameState, p: int)
    requires
        0 <= p < 2,
    ensures
        cards_same(s, s.after_grant(p)),
        cards_same(s, s.after_return(p)),
        s.after_grant(p).phase == s.phase,
        s.after_return(p).phase == s.phase,
{
}

/// Taking the card in `slot` of the market of level `ti` and refilling the slot from the
/// deck leaves the market and the decks with every card but that one.
proof fn lemma_refill_cards(s: GameState, t: GameState, ti: int, slot: int)
    requires
        0 <= ti < 3,
        0 <= slot < s.row(ti).len(),
        market_refilled(s, t, ti, slot),
    ensures
        market_cards(t).insert(s.row(ti)[slot]) == market_cards(s),
{
    broadcast use vstd::multiset::group_multiset_axioms;

    let c = s.row(ti)[slot];
    let d = s.deck(ti);
    assert(s.row(ti).contains(c));
    if d.len() > 0 {
        assert(d =~= d.drop_last().push(d.last()));
    }
    assert(t.row(ti).to_multiset().add(t.deck(ti).to_multiset()).insert(c) =~= s.row(ti).to_multiset().add(
        d.to_multiset(),
    ));
    if ti == 0 {
        assert(t.row(1) == s.row(1) && t.deck(1) == s.deck(1) && t.row(2) == s.row(2) && t.deck(2) == s.deck(2));
    } else if ti == 1 {
        assert(t.row(0) == s.row(0) && t.deck(0) == s.deck(0) && t.row(2) == s.row(2) && t.deck(2) == s.deck(2));
    } else {
        assert(t.row(0) == s.row(0) && t.deck(0) == s.deck(0) && t.row(1) == s.row(1) && t.deck(1) == s.deck(1));
    }
    assert(market_cards(t).insert(c) =~= market_cards(s));
}

/// Drawing the top card of the deck of level `ti` leaves the market and the decks with
/// every card but that one.
proof fn lemma_draw_cards(s: GameState, t: GameState, ti: int)
    requires
        0 <= ti < 3,
        s.deck(ti).len() > 0,
        t.deck(ti) == s.deck(ti).drop_last(),
        t.row(ti) == s.row(ti),
        forall|u: int| 0 <= u < 3 && u != ti ==> #[trigger] t.row(u) == s.row(u) && t.deck(u) == s.deck(u),
    ensures
        market_cards(t).insert(s.deck(ti).last()) == market_cards(s),
{
    broadcast use vstd::multiset::group_multiset_axioms;

    let d = s.deck(ti);
    assert(d =~= d.drop_last().push(d.last()));
    assert(t.row(ti).to_multiset().add(t.deck(ti).to_multiset()).insert(d.last()) =~= s.row(ti).to_multiset().add(
        d.to_multiset(),
    ));
    if ti == 0 {
        assert(t.row(1) == s.row(1) && t.deck(1) == s.deck(1));
        assert(t.row(2) == s.row(2) && t.deck(2) == s.deck(2));
    } else if ti == 1 {
        assert(t.row(0) == s.row(0) && t.deck(0) == s.deck(0));
        assert(t.row(2) == s.row(2) && t.deck(2) == s.deck(2));
    } else {
        assert(t.row(0) == s.row(0) && t.deck(0) == s.deck(0));
        assert(t.row(1) == s.row(1) && t.deck(1) == s.deck(1));
    }
    assert(market_cards(t).insert(d.last()) =~= market_cards(s));
}

/// Adding a card to a reserve adds it to the reserve's cards.
proof fn lemma_reserve_push(rs: Seq<ReservedCard>, rc: ReservedCard)
    ensures
        reserve_cards(rs.push(rc)).to_multiset() == reserve_cards(rs).to_multiset().insert(rc.card),
{
    assert(reserve_cards(rs.push(rc)) =~= reserve_cards(rs).push(rc.card));
}

/// Taking a card out of a reserve takes it out of the reserve's cards.
proof fn lemma_reserve_remove(rs: Seq<ReservedCard>, i: int)
    requires
        0 <= i < rs.len(),
    ensures
        reserve_cards(rs.remove(i)).to_multiset().insert(rs[i].card) == reserve_cards(rs).to_multiset(),
{
    broadcast use vstd::multiset::group_multiset_axioms;

    assert(reserve_cards(rs.remove(i)) =~= reserve_cards(rs).remove(i));
    assert(reserve_cards(rs).contains(rs[i].card)) by {
        assert(reserve_cards(rs)[i] == rs[i].card);
    }
    assert(reserve_cards(rs.remove(i)).to_multiset().insert(rs[i].card) =~= reserve_cards(rs).to_multiset());
}

/// Reserving a card moves it from the market or a deck into the player's reserve.
proof fn lemma_reserve_keeps_cards(s: GameState, tier: CardTier, slot: Option<usize>, t: GameState)
    requires
        s.step_safe(Action::ReserveCard { tier, slot }),
        s.step_ok(Action::ReserveCard { tier, slot }),
        step_post(s, Action::ReserveCard { tier, slot }, t),
    ensures
        jewel_cards(t) == jewel_cards(s),
        forall|u: int| 0 <= u < 3 ==> #[trigger] t.deck(u) == s.deck(u) || (s.deck(u).len() > 0 && t.deck(u) == s.deck(u).drop_last()),
{
    broadcast use vstd::multiset::group_multiset_axioms;

    let cp = s.cp();
    let p = s.players@[cp];
    let q = t.players@[cp];
    let ti = tier.spec_index();
    let card = match slot {
        Some(sl) => s.row(ti)[sl as int],
        None => s.deck(ti).last(),
    };
    lemma_reserve_push(p.reserved_cards@, ReservedCard { card, is_public: slot is Some });
    assert(player_cards(q) == player_cards(p).insert(card)) by {
        assert(q.cards@ == p.cards@);
        assert(player_cards(q) =~= player_cards(p).insert(card));
    }
    match slot {
        Some(sl) => lemma_refill_cards(s, t, ti, sl as int),
        None => lemma_draw_cards(s, t, ti),
    }
    assert(t.players@[1 - cp] == s.players@[1 - cp]);
    if cp == 0 {
        assert(jewel_cards(t) =~= jewel_cards(s));
    } else {
        assert(jewel_cards(t) =~= jewel_cards(s));
    }
}

/// Buying a card moves it from the market or the player's reserve into the player's
/// cards, or, for a joker, into the phase until its colour is chosen.
proof fn lemma_purchase_keeps_cards(s: GameState, from_reserved: bool, tier: CardTier, slot: usize, t: GameState)
    requires
        s.step_safe(Action::PurchaseCard { from_reserved, tier, slot }),
        s.step_ok(Action::PurchaseCard { from_reserved, tier, slot }),
        step_post(s, Action::PurchaseCard { from_reserved, tier, slot }, t),
    ensures
        jewel_cards(t) == jewel_cards(s),
        forall|u: int| 0 <= u < 3 ==> #[trigger] t.deck(u) == s.deck(u) || (s.deck(u).len() > 0 && t.deck(u) == s.deck(u).drop_last()),
{
    broadcast use vstd::multiset::group_multiset_axioms;

    let cp = s.cp();
    let p = s.players@[cp];
    let q = t.players@[cp];
    let ti = tier.spec_index();
    let card = purchase_target(s, from_reserved, tier, slot).unwrap();
    let pay = default_payment(p, card);
    let base = GameState { bag: t.bag, decks: t.decks, pyramid: t.pyramid, ..s };
    let p1 = PlayerState { tokens: p.tokens.minus(pay), reserved_cards: q.reserved_cards, cards: q.cards, ..p };
    // The market and the reserve give up the card.
    let given = market_cards(t).add(reserve_cards(q.reserved_cards@).to_multiset());
    if from_reserved {
        lemma_reserve_remove(p.reserved_cards@, slot as int);
        assert(market_cards(t) == market_cards(s)) by {
            assert(t.row(0) == s.row(0) && t.row(1) == s.row(1) && t.row(2) == s.row(2));
            assert(t.deck(0) == s.deck(0) && t.deck(1) == s.deck(1) && t.deck(2) == s.deck(2));
        }
    } else {
        lemma_refill_cards(s, t, ti, slot as int);
    }
    assert(given.insert(card) =~= market_cards(s).add(reserve_cards(p.reserved_cards@).to_multiset()));
    // The card joins the player's cards or waits as a joker.
    if card.color == CardColor::Joker {
        assert(t.players@[1 - cp] == s.players@[1 - cp]);
        assert(q.cards@ == p.cards@);
        assert(pending_cards(t.phase) == Multiset::singleton(card));
    } else {
        let x = base.with_player(cp, p1.played(card, None));
        lemma_ability_cards(x, card.ability, card.color);
        assert(t.players@[1 - cp].cards@ == s.players@[1 - cp].cards@);
        assert(t.players@[1 - cp].reserved_cards@ == s.players@[1 - cp].reserved_cards@);
        assert(no_joker(t.phase));
        assert(q.cards@.to_multiset() == p.cards@.to_multiset().insert(card));
    }
    assert(player_cards(t.players@[1 - cp]) == player_cards(s.players@[1 - cp]));
    if cp == 0 {
        assert(jewel_cards(t) =~= jewel_cards(s));
    } else {
        assert(jewel_cards(t) =~= jewel_cards(s));
    }
}

/// Choosing a joker's colour moves it from the phase into the player's cards.
proof fn lemma_assign_joker_keeps_cards(s: GameState, color: GemType, t: GameState)
    requires
        s.step_safe(Action::AssignJokerColor { color }),
        s.step_ok(Action::AssignJokerColor { color }),
        step_post(s, Action::AssignJokerColor { color }, t),
    ensures
        jewel_cards(t) == jewel_cards(s),
        forall|u: int| 0 <= u < 3 ==> #[trigger] t.deck(u) == s.deck(u) || (s.deck(u).len() > 0 && t.deck(u) == s.deck(u).drop_last()),
{
    broadcast use vstd::multiset::group_multiset_axioms;

    let cp = s.cp();
    let p = s.players@[cp];
    let q = t.players@[cp];
    let pc = s.phase->pending_card;
    let x = s.with_player(cp, PlayerState { cards: q.cards, ..p.played(pc, Some(color)) });
    lemma_ability_cards(x, pc.ability, CardColor::spec_from_gem_type(color).unwrap());
    assert(t.players@[1 - cp].cards@ == s.players@[1 - cp].cards@);
    assert(t.players@[1 - cp].reserved_cards@ == s.players@[1 - cp].reserved_cards@);
    assert(q.reserved_cards@ == p.reserved_cards@);
    assert(market_cards(t) == market_cards(s));
    assert(player_cards(q) =~= player_cards(p).insert(pc));
    assert(player_cards(t.players@[1 - cp]) == player_cards(s.players@[1 - cp]));
    assert(no_joker(t.phase));
    if cp == 0 {
        assert(jewel_cards(t) =~= jewel_cards(s));
    } else {
        assert(jewel_cards(t) =~= jewel_cards(s));
    }
}

/// No accepted step creates or loses a jewel card: the market, the decks, the players'
/// bought and reserved cards and a joker waiting for its colour hold together the same
/// cards after the step as before; and a deck at most loses its top card.
#[verifier::spinoff_prover]
#[verifier::rlimit(60)]
pub proof fn lemma_step_keeps_cards(s: GameState, a: Action, t: GameState)
    requires
        s.step_safe(a),
        s.step_ok(a),
        step_post(s, a, t),
    ensures
        jewel_cards(t) == jewel_cards(s),
        forall|u: int| 0 <= u < 3 ==> #[trigger] t.deck(u) == s.deck(u) || (s.deck(u).len() > 0 && t.deck(u) == s.deck(u).drop_last()),
{
    let cp = s.cp();
    let p = s.players@[cp];
    match a {
        Action::SkipOptional => {
            if s.phase != TurnPhase::OptionalActions {
                lemma_after_check_cards(s);
            } else {
                assert(t.players == s.players);
                assert(cards_same(s, t));
            }
            assert(no_joker(s.phase));
            assert(no_joker(t.phase));
            lemma_cards_same(s, t);
        },
        Action::UsePrivilege { r, c } => {
            lemma_privileges_cards(s, cp);
            lemma_cards_same(s, t);
        },
        Action::ReplenishBoard => {
            lemma_privileges_cards(s, s.op());
            lemma_cards_same(s, t);
        },
        Action::TakeTokens { count, positions } => {
            let (b, ok, taken) = take_run(s.board, positions, count as int, 0, Seq::empty());
            let m = GameState { board: b, ..s }.with_player(
                cp,
                PlayerState { tokens: add_taken(p.tokens, taken), ..p },
            );
            lemma_privileges_cards(m, s.op());
            lemma_after_check_cards(m);
            lemma_after_check_cards(m.after_grant(s.op()));
            lemma_cards_same(s, t);
        },
        Action::ReserveCard { tier, slot } => lemma_reserve_keeps_cards(s, tier, slot, t),
        Action::TakeGoldToken { r, c } => {
            let m = GameState { board: s.board.with_cell(r as int, c as int, None), ..s }.with_player(
                cp,
                PlayerState { tokens: p.tokens.shifted(GemType::Gold, 1), ..p },
            );
            lemma_after_check_cards(m);
            lemma_cards_same(s, t);
        },
        Action::PurchaseCard { from_reserved, tier, slot } => lemma_purchase_keeps_cards(s, from_reserved, tier, slot, t),
        Action::AssignJokerColor { color } => lemma_assign_joker_keeps_cards(s, color, t),
        Action::TakeSameColorToken { r, c } => {
            let g = s.board.cell(r as int, c as int).unwrap();
            let m = GameState { board: s.board.with_cell(r as int, c as int, None), ..s }.with_player(
                cp,
                PlayerState { tokens: p.tokens.shifted(g, 1), ..p },
            );
            lemma_after_check_cards(m);
            lemma_cards_same(s, t);
        },
        Action::StealToken { gem } => {
            let o = s.players@[s.op()];
            let m = s.with_player(s.op(), PlayerState { tokens: o.tokens.shifted(gem, -1), ..o }).with_player(
                cp,
                PlayerState { tokens: p.tokens.shifted(gem, 1), ..p },
            );
            lemma_after_check_cards(m);
            lemma_cards_same(s, t);
        },
        Action::SelectRoyal { royal_id } => {
            let idx = royal_index(s, royal_id);
            let royal = s.royal_cards@[idx];
            let ms = p.spec_pending_milestones();
            let p1 = if ms.len() > 0 { p.marked(ms[0]) } else { p };
            let q = t.players@[cp];
            let p2 = PlayerState {
                royal_cards: q.royal_cards,
                total_points: (p1.total_points + royal.points) as u8,
                ..p1
            };
            let m = GameState { royal_cards: t.royal_cards, ..s }.with_player(cp, p2);
            lemma_royal_ability_cards(m, royal.ability);
            lemma_cards_same(s, t);
        },
        Action::DiscardToken { gem } => {
            let m = GameState { bag: t.bag, ..s }.with_player(
                cp,
                PlayerState { tokens: p.tokens.shifted(gem, -1), ..p },
            );
            lemma_finish_cards(m);
            lemma_cards_same(s, t);
        },
    }
}

/// The cards of the game are those of the catalogue `cards`: no two catalogue cards share
/// an id, the cards in play and a joker waiting for its colour are, counted with
/// multiplicity, the catalogue's cards, and every deck holds cards of its level.
pub open spec fn catalogue_kept(s: GameState, cards: Seq<JewelCard>) -> bool {
    &&& distinct_ids(cards)
    &&& jewel_cards(s) == cards.to_multiset()
    &&& decks_levelled(s)
}

/// Dealing each level's catalogue cards into its deck and market row, with no card yet
/// bought or reserved, keeps the catalogue (see `new_game`).
pub proof fn lemma_deal_keeps_catalogue(cards: Seq<JewelCard>, r: GameState)
    requires
        distinct_ids(cards),
        forall|t: int|
            0 <= t < 3 ==> #[trigger] r.deck(t).to_multiset().add(r.row(t).to_multiset()) == tier_cards(
                cards,
                t,
            ).to_multiset(),
        r.players@[0].cards@.len() == 0,
        r.players@[1].cards@.len() == 0,
        r.players@[0].reserved_cards@.len() == 0,
        r.players@[1].reserved_cards@.len() == 0,
        no_joker(r.phase),
    ensures
        catalogue_kept(r, cards),
{
    broadcast use vstd::multiset::group_multiset_axioms;

    lemma_tier_split(cards);
    assert(r.deck(0).to_multiset().add(r.row(0).to_multiset()) == tier_cards(cards, 0).to_multiset());
    assert(r.deck(1).to_multiset().add(r.row(1).to_multiset()) == tier_cards(cards, 1).to_multiset());
    assert(r.deck(2).to_multiset().add(r.row(2).to_multiset()) == tier_cards(cards, 2).to_multiset());
    assert(r.players@[0].cards@ =~= Seq::<JewelCard>::empty());
    assert(r.players@[1].cards@ =~= Seq::<JewelCard>::empty());
    assert(reserve_cards(r.players@[0].reserved_cards@) =~= Seq::<JewelCard>::empty());
    assert(reserve_cards(r.players@[1].reserved_cards@) =~= Seq::<JewelCard>::empty());
    assert(jewel_cards(r) =~= cards.to_multiset());
    assert forall|t: int| 0 <= t < 3 implies all_of_level(#[trigger] r.deck(t), t) by {
        assert(r.deck(t).to_multiset().add(r.row(t).to_multiset()) == tier_cards(cards, t).to_multiset());
        lemma_tier_level(cards, t);
        assert forall|i: int| 0 <= i < r.deck(t).len() implies (#[trigger] r.deck(t)[i]).tier.spec_index() == t by {
            let v = r.deck(t)[i];
            assert(r.deck(t).contains(v));
            assert(tier_cards(cards, t).to_multiset().count(v) > 0);
            assert(tier_cards(cards, t).contains(v));
        }
    }
}

/// Decks that at most lose their top cards still hold cards of their levels.
proof fn lemma_shrunk_levelled(s: GameState, t: GameState)
    requires
        decks_levelled(s),
        forall|u: int| 0 <= u < 3 ==> #[trigger] t.deck(u) == s.deck(u) || (s.deck(u).len() > 0 && t.deck(u) == s.deck(u).drop_last()),
    ensures
        decks_levelled(t),
{
    assert forall|u: int| 0 <= u < 3 implies all_of_level(#[trigger] t.deck(u), u) by {
        assert(all_of_level(s.deck(u), u));
        assert(t.deck(u) == s.deck(u) || (s.deck(u).len() > 0 && t.deck(u) == s.deck(u).drop_last()));
        if t.deck(u) != s.deck(u) {
            assert forall|i: int| 0 <= i < t.deck(u).len() implies (#[trigger] t.deck(u)[i]).tier.spec_index() == u by {
                assert(t.deck(u)[i] == s.deck(u)[i]);
            }
        }
    }
}

/// Every accepted step keeps the catalogue: no card appears, disappears or is
/// duplicated, and decks only lose their top cards.
#[verifier::spinoff_prover]
pub proof fn lemma_step_keeps_catalogue(s: GameState, a: Action, t: GameState, cards: Seq<JewelCard>)
    requires
        catalogue_kept(s, cards),
        s.step_safe(a),
        s.step_ok(a),
        step_post(s, a, t),
    ensures
        catalogue_kept(t, cards),
{
    lemma_step_keeps_cards(s, a, t);
    lemma_shrunk_levelled(s, t);
}

/// Determinizing a state that keeps the catalogue, outside the wait for a joker's colour,
/// keeps the catalogue too: the redrawn decks and hidden reserved cards are, together,
/// the cards they replace, every deck keeps its size and holds cards of its level.
pub proof fn lemma_determinize_keeps_catalogue(s: GameState, observer: int, cards: Seq<JewelCard>, r: GameState)
    requires
        0 <= observer < 2,
        catalogue_kept(s, cards),
        no_joker(s.phase),
        r.phase == s.phase,
        redraw_of(s, observer, cards, r),
    ensures
        catalogue_kept(r, cards),
        forall|t: int| 0 <= t < 3 ==> #[trigger] r.deck(t).len() == s.deck(t).len(),
{
    broadcast use vstd::multiset::group_multiset_axioms;

    assert(cards_in_play(s) =~= jewel_cards(s));
    lemma_catalogue_accounted(s, observer, cards);
    lemma_determinize_keeps_accounting(s, observer, cards, r);
    lemma_determinize_keeps_cards(s, observer, cards, r);
    assert(jewel_cards(r) =~= cards_in_play(r));
}

} // verus!
