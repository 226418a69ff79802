use vstd::multiset::Multiset;
use vstd::prelude::*;

use super::player::PlayerState;
use super::state::{deck_keep, hidden_before, lemma_hidden_before_bounds, is_known, redraw_of, redraw_outcome, redrawn, tier_cards, unseen_cards, GameState};
use crate::model::card::{JewelCard, ReservedCard};

verus! {

broadcast use vstd::seq_lib::group_to_multiset_ensures;

/// The cards of the hidden reserved cards of level `t` in `rs`, in order.
pub open spec fn hidden_cards(rs: Seq<ReservedCard>, t: int) -> Seq<JewelCard>
    decreases rs.len(),
{
    if rs.len() == 0 {
        Seq::empty()
    } else {
        let rest = hidden_cards(rs.drop_last(), t);
        if !rs.last().is_public && rs.last().card.tier.spec_index() == t {
            rest.push(rs.last().card)
        } else {
            rest
        }
    }
}

/// What `observer` cannot see of each level is accounted for: the catalogue cards of
/// that level hidden from the observer are, counted with multiplicity, the cards of the
/// level's deck and the opponent's hidden reserved cards of that level.
pub open spec fn unseen_accounted(s: GameState, observer: int, cards: Seq<JewelCard>) -> bool {
    forall|t: int|
        0 <= t < 3 ==> #[trigger] unseen_cards(s, observer, cards, t).to_multiset() == s.deck(t).to_multiset().add(
            hidden_cards(s.players@[1 - observer].reserved_cards@, t).to_multiset(),
        )
}

/// The hidden count of a prefix does not look past the prefix.
proof fn lemma_hidden_before_prefix(rs: Seq<ReservedCard>, j: int, t: int)
    requires
        0 <= j < rs.len(),
    ensures
        hidden_before(rs.drop_last(), j, t) == hidden_before(rs, j, t),
    decreases j,
{
    if j > 0 {
        lemma_hidden_before_prefix(rs, j - 1, t);
    }
}

/// `hidden_before` over the whole list counts `hidden_cards`.
proof fn lemma_hidden_cards_len(rs: Seq<ReservedCard>, t: int)
    ensures
        hidden_cards(rs, t).len() == hidden_before(rs, rs.len() as int, t),
    decreases rs.len(),
{
    if rs.len() > 0 {
        lemma_hidden_cards_len(rs.drop_last(), t);
        lemma_hidden_before_prefix(rs, rs.len() - 1, t);
    }
}

/// Redrawing keeps the length of the list and each entry's visibility, and a public
/// entry stays as it was.
proof fn lemma_redrawn_keeps_public(rs: Seq<ReservedCard>, t: int, u: Seq<JewelCard>)
    ensures
        redrawn(rs, t, u).len() == rs.len(),
        forall|j: int|
            0 <= j < rs.len() ==> (#[trigger] redrawn(rs, t, u)[j]).is_public == rs[j].is_public && (
            rs[j].is_public ==> redrawn(rs, t, u)[j] == rs[j]),
{
}

/// Dropping the last entry commutes with redrawing.
proof fn lemma_redrawn_drop_last(rs: Seq<ReservedCard>, t: int, u: Seq<JewelCard>)
    requires
        rs.len() > 0,
    ensures
        redrawn(rs, t, u).drop_last() == redrawn(rs.drop_last(), t, u),
{
    assert forall|j: int| 0 <= j < rs.len() - 1 implies #[trigger] redrawn(rs, t, u)[j] == redrawn(
        rs.drop_last(),
        t,
        u,
    )[j] by {
        lemma_hidden_before_prefix(rs, j, t);
    }
    assert(redrawn(rs, t, u).drop_last() =~= redrawn(rs.drop_last(), t, u));
}

/// Every card of `u` is of level `t`.
pub open spec fn all_of_level(u: Seq<JewelCard>, t: int) -> bool {
    forall|i: int| 0 <= i < u.len() ==> (#[trigger] u[i]).tier.spec_index() == t
}

/// Redrawing the hidden cards of level `t` from cards of that level leaves the hidden
/// cards of every other level as they were.
proof fn lemma_redrawn_other_level(rs: Seq<ReservedCard>, t: int, u: Seq<JewelCard>, t2: int)
    requires
        t2 != t,
        all_of_level(u, t),
    ensures
        hidden_cards(redrawn(rs, t, u), t2) == hidden_cards(rs, t2),
    decreases rs.len(),
{
    if rs.len() > 0 {
        lemma_redrawn_drop_last(rs, t, u);
        lemma_redrawn_other_level(rs.drop_last(), t, u, t2);
        lemma_redrawn_keeps_public(rs, t, u);
        let n = rs.len() - 1;
        let h = hidden_before(rs, n, t);
        lemma_hidden_before_bounds(rs, n, t);
        if !rs[n].is_public && rs[n].card.tier.spec_index() == t && h < u.len() {
            assert(u[u.len() - 1 - h].tier.spec_index() == t);
        }
    }
}

/// Redrawing the hidden cards of level `t` from the end of `u`, which holds at least as
/// many cards of that level, makes them the last cards of `u`.
proof fn lemma_redrawn_same_level(rs: Seq<ReservedCard>, t: int, u: Seq<JewelCard>)
    requires
        hidden_before(rs, rs.len() as int, t) <= u.len(),
        all_of_level(u, t),
    ensures
        hidden_cards(redrawn(rs, t, u), t).to_multiset() == u.subrange(
            u.len() - hidden_before(rs, rs.len() as int, t),
            u.len() as int,
        ).to_multiset(),
    decreases rs.len(),
{
    broadcast use vstd::seq_lib::lemma_multiset_commutative;

    if rs.len() == 0 {
        assert(u.subrange(u.len() as int, u.len() as int) =~= Seq::<JewelCard>::empty());
    } else {
        let n = rs.len() - 1;
        let h = hidden_before(rs, n, t);
        lemma_redrawn_drop_last(rs, t, u);
        lemma_hidden_before_prefix(rs, n, t);
        lemma_hidden_before_bounds(rs, n, t);
        lemma_redrawn_same_level(rs.drop_last(), t, u);
        lemma_redrawn_keeps_public(rs, t, u);
        if !rs[n].is_public && rs[n].card.tier.spec_index() == t {
            let a = u.len() - h;
            assert(u[a - 1].tier.spec_index() == t);
            assert(u.subrange(a - 1, u.len() as int) =~= seq![u[a - 1]] + u.subrange(a, u.len() as int));
            assert(seq![u[a - 1]].to_multiset() =~= Multiset::empty().insert(u[a - 1]));
        }
    }
}

/// The unseen cards of level `t` are all of that level.
proof fn lemma_unseen_level(s: GameState, observer: int, cards: Seq<JewelCard>, t: int)
    ensures
        all_of_level(unseen_cards(s, observer, cards, t), t),
    decreases cards.len(),
{
    if cards.len() > 0 {
        lemma_unseen_level(s, observer, cards.drop_last(), t);
    }
}

/// Two states that show the observer the same cards hide the same cards from it.
proof fn lemma_unseen_same(s: GameState, r: GameState, observer: int, cards: Seq<JewelCard>, t: int)
    requires
        forall|id: u8| #[trigger] is_known(s, observer, id) == is_known(r, observer, id),
    ensures
        unseen_cards(r, observer, cards, t) == unseen_cards(s, observer, cards, t),
    decreases cards.len(),
{
    if cards.len() > 0 {
        lemma_unseen_same(s, r, observer, cards.drop_last(), t);
        assert(is_known(s, observer, cards.last().id) == is_known(r, observer, cards.last().id));
    }
}

/// A list with the same multiset as the unseen cards of level `t` holds only cards of
/// that level.
proof fn lemma_shuffled_level(u: Seq<JewelCard>, unseen: Seq<JewelCard>, t: int)
    requires
        u.to_multiset() == unseen.to_multiset(),
        all_of_level(unseen, t),
    ensures
        all_of_level(u, t),
{
    assert forall|i: int| 0 <= i < u.len() implies (#[trigger] u[i]).tier.spec_index() == t by {
        assert(u.contains(u[i]));
        assert(unseen.to_multiset().count(u[i]) > 0);
        assert(unseen.contains(u[i]));
    }
}

/// One level of a redraw: if the unseen cards were the deck and the hidden cards `hidden`,
/// then after drawing the hidden cards again from the shuffled unseen cards `u` and
/// keeping the rest as the deck, the unseen cards are again the new deck and the new
/// hidden cards, and both keep their sizes.
proof fn lemma_level_redrawn(
    unseen: Seq<JewelCard>,
    deck: Seq<JewelCard>,
    hidden: Seq<JewelCard>,
    stage: Seq<ReservedCard>,
    u: Seq<JewelCard>,
    t: int,
)
    requires
        unseen.to_multiset() == deck.to_multiset().add(hidden.to_multiset()),
        u.to_multiset() == unseen.to_multiset(),
        all_of_level(u, t),
        hidden_cards(stage, t) == hidden,
    ensures
        ({
            let new_deck = u.subrange(0, deck_keep(stage, t, u));
            let new_hidden = hidden_cards(redrawn(stage, t, u), t);
            &&& unseen.to_multiset() == new_deck.to_multiset().add(new_hidden.to_multiset())
            &&& new_deck.len() == deck.len()
            &&& new_hidden.len() == hidden.len()
        }),
{
    broadcast use vstd::seq_lib::lemma_multiset_commutative;
    broadcast use vstd::multiset::group_multiset_axioms;

    let h = hidden_before(stage, stage.len() as int, t);
    lemma_hidden_cards_len(stage, t);
    assert(unseen.len() == deck.len() + hidden.len()) by {
        assert(unseen.to_multiset().len() == deck.to_multiset().len() + hidden.to_multiset().len());
    }
    assert(u.len() == unseen.len()) by {
        vstd::seq_lib::to_multiset_len(u);
        vstd::seq_lib::to_multiset_len(unseen);
    }
    lemma_redrawn_same_level(stage, t, u);
    let keep = u.len() - h;
    assert(deck_keep(stage, t, u) == keep);
    let new_hidden = hidden_cards(redrawn(stage, t, u), t);
    assert(u =~= u.subrange(0, keep) + u.subrange(keep, u.len() as int));
    assert(new_hidden.len() == h) by {
        assert(new_hidden.to_multiset().len() == u.subrange(keep, u.len() as int).to_multiset().len());
    }
}

/// `b` has the entries of `a`, with the same visibility at each place, and the public
/// entries unchanged.
spec fn same_public(a: Seq<ReservedCard>, b: Seq<ReservedCard>) -> bool {
    &&& b.len() == a.len()
    &&& forall|j: int|
        0 <= j < a.len() ==> (#[trigger] b[j]).is_public == a[j].is_public && (a[j].is_public ==> b[j] == a[j])
}

/// A redraw shows the observer the same cards as the state it came from.
proof fn lemma_redraw_same_known(s: GameState, observer: int, cards: Seq<JewelCard>, r: GameState)
    requires
        0 <= observer < 2,
        redraw_of(s, observer, cards, r),
    ensures
        forall|id: u8| #[trigger] is_known(s, observer, id) == is_known(r, observer, id),
{
    let u = choose|u: Seq<Seq<JewelCard>>| #[trigger] redraw_outcome(s, observer, cards, r, u);
    let s0 = s.players@[1 - observer].reserved_cards@;
    let s1 = redrawn(s0, 0, u[0]);
    let s2 = redrawn(s1, 1, u[1]);
    let s3 = redrawn(s2, 2, u[2]);
    lemma_redrawn_keeps_public(s0, 0, u[0]);
    lemma_redrawn_keeps_public(s1, 1, u[1]);
    lemma_redrawn_keeps_public(s2, 2, u[2]);
    assert(same_public(s0, s3));
    assert(s.players@[0].cards@ == r.players@[0].cards@);
    assert(s.players@[1].cards@ == r.players@[1].cards@);
    assert forall|id: u8| #[trigger] is_known(s, observer, id) == is_known(r, observer, id) by {
        if exists|t: int, i: int| 0 <= t < 3 && 0 <= i < s.row(t).len() && #[trigger] s.row(t)[i].id == id {
            let (t, i) = choose|t: int, i: int| 0 <= t < 3 && 0 <= i < s.row(t).len() && #[trigger] s.row(t)[i].id == id;
            assert(r.row(t) == s.row(t));
            assert(r.row(t)[i].id == id);
        }
        if exists|t: int, i: int| 0 <= t < 3 && 0 <= i < r.row(t).len() && #[trigger] r.row(t)[i].id == id {
            let (t, i) = choose|t: int, i: int| 0 <= t < 3 && 0 <= i < r.row(t).len() && #[trigger] r.row(t)[i].id == id;
            assert(r.row(t) == s.row(t));
            assert(s.row(t)[i].id == id);
        }
        assert((exists|pl: int, i: int|
            0 <= pl < 2 && 0 <= i < s.players@[pl].cards@.len() && #[trigger] s.players@[pl].cards@[i].id == id)
            == (exists|pl: int, i: int|
            0 <= pl < 2 && 0 <= i < r.players@[pl].cards@.len() && #[trigger] r.players@[pl].cards@[i].id == id));
        assert(s.players@[observer].reserved_cards@ == r.players@[observer].reserved_cards@);
        if exists|i: int|
            0 <= i < s0.len() && s0[i].is_public && #[trigger] s0[i].card.id == id {
            let i = choose|i: int| 0 <= i < s0.len() && s0[i].is_public && #[trigger] s0[i].card.id == id;
            assert(s3[i] == s0[i]);
        }
        if exists|i: int|
            0 <= i < s3.len() && s3[i].is_public && #[trigger] s3[i].card.id == id {
            let i = choose|i: int| 0 <= i < s3.len() && s3[i].is_public && #[trigger] s3[i].card.id == id;
            assert(s3[i] == s0[i]);
        }
    }
}

/// Determinizing keeps the accounting of hidden cards: if, for every level, the cards the
/// observer cannot see are those of the level's deck and the opponent's hidden reserved
/// cards of that level, the same holds after determinizing; every deck keeps its size
/// and the opponent keeps as many hidden reserved cards of each level.
pub proof fn lemma_determinize_keeps_accounting(s: GameState, observer: int, cards: Seq<JewelCard>, r: GameState)
    requires
        0 <= observer < 2,
        unseen_accounted(s, observer, cards),
        redraw_of(s, observer, cards, r),
    ensures
        unseen_accounted(r, observer, cards),
        forall|t: int| 0 <= t < 3 ==> #[trigger] r.deck(t).len() == s.deck(t).len(),
        forall|t: int|
            0 <= t < 3 ==> #[trigger] hidden_cards(r.players@[1 - observer].reserved_cards@, t).len()
                == hidden_cards(s.players@[1 - observer].reserved_cards@, t).len(),
        decks_levelled(r),
{
    let u = choose|u: Seq<Seq<JewelCard>>| #[trigger] redraw_outcome(s, observer, cards, r, u);
    let s0 = s.players@[1 - observer].reserved_cards@;
    let s1 = redrawn(s0, 0, u[0]);
    let s2 = redrawn(s1, 1, u[1]);
    let s3 = redrawn(s2, 2, u[2]);
    assert(r.players@[1 - observer].reserved_cards@ == s3);
    lemma_redraw_same_known(s, observer, cards, r);
    assert forall|t: int| 0 <= t < 3 implies all_of_level(#[trigger] u[t], t) by {
        lemma_unseen_level(s, observer, cards, t);
        lemma_shuffled_level(u[t], unseen_cards(s, observer, cards, t), t);
    }
    assert(all_of_level(u[0], 0));
    assert(all_of_level(u[1], 1));
    assert(all_of_level(u[2], 2));
    // level 0
    lemma_redrawn_other_level(s1, 1, u[1], 0);
    lemma_redrawn_other_level(s2, 2, u[2], 0);
    assert(unseen_cards(s, observer, cards, 0).to_multiset() == s.deck(0).to_multiset().add(hidden_cards(s0, 0).to_multiset()));
    lemma_level_redrawn(unseen_cards(s, observer, cards, 0), s.deck(0), hidden_cards(s0, 0), s0, u[0], 0);
    // level 1
    lemma_redrawn_other_level(s0, 0, u[0], 1);
    lemma_redrawn_other_level(s2, 2, u[2], 1);
    assert(unseen_cards(s, observer, cards, 1).to_multiset() == s.deck(1).to_multiset().add(hidden_cards(s0, 1).to_multiset()));
    lemma_level_redrawn(unseen_cards(s, observer, cards, 1), s.deck(1), hidden_cards(s0, 1), s1, u[1], 1);
    // level 2
    lemma_redrawn_other_level(s0, 0, u[0], 2);
    lemma_redrawn_other_level(s1, 1, u[1], 2);
    assert(unseen_cards(s, observer, cards, 2).to_multiset() == s.deck(2).to_multiset().add(hidden_cards(s0, 2).to_multiset()));
    lemma_level_redrawn(unseen_cards(s, observer, cards, 2), s.deck(2), hidden_cards(s0, 2), s2, u[2], 2);
    assert forall|t: int| 0 <= t < 3 implies #[trigger] unseen_cards(r, observer, cards, t).to_multiset()
        == r.deck(t).to_multiset().add(hidden_cards(s3, t).to_multiset()) by {
        lemma_unseen_same(s, r, observer, cards, t);
    }
    lemma_kept_level(s0, u[0], 0);
    lemma_kept_level(s1, u[1], 1);
    lemma_kept_level(s2, u[2], 2);
}

/// What a redraw keeps of a list of one level as the deck is of that level.
proof fn lemma_kept_level(rs: Seq<ReservedCard>, u: Seq<JewelCard>, t: int)
    requires
        all_of_level(u, t),
    ensures
        all_of_level(u.subrange(0, deck_keep(rs, t, u)), t),
{
    lemma_hidden_before_bounds(rs, rs.len() as int, t);
    let k = deck_keep(rs, t, u);
    assert forall|i: int| 0 <= i < k implies (#[trigger] u.subrange(0, k)[i]).tier.spec_index() == t by {
        assert(u.subrange(0, k)[i] == u[i]);
    }
}

/// The cards of the public reserved cards in `rs`, in order.
pub open spec fn public_cards(rs: Seq<ReservedCard>) -> Seq<JewelCard>
    decreases rs.len(),
{
    if rs.len() == 0 {
        Seq::empty()
    } else if rs.last().is_public {
        public_cards(rs.drop_last()).push(rs.last().card)
    } else {
        public_cards(rs.drop_last())
    }
}

/// The cards of a reserve, in order.
pub open spec fn reserve_cards(rs: Seq<ReservedCard>) -> Seq<JewelCard> {
    rs.map_values(|rc: ReservedCard| rc.card)
}

/// The cards of the market rows and the decks, counted with multiplicity.
pub open spec fn market_cards(s: GameState) -> Multiset<JewelCard> {
    s.row(0).to_multiset().add(s.row(1).to_multiset()).add(s.row(2).to_multiset()).add(
        s.deck(0).to_multiset(),
    ).add(s.deck(1).to_multiset()).add(s.deck(2).to_multiset())
}

/// The cards a player has bought or reserved, counted with multiplicity.
pub open spec fn player_cards(p: PlayerState) -> Multiset<JewelCard> {
    p.cards@.to_multiset().add(reserve_cards(p.reserved_cards@).to_multiset())
}

/// Every jewel card in the game, counted with multiplicity: the market rows, the decks,
/// and the cards each player has bought or reserved.
pub open spec fn cards_in_play(s: GameState) -> Multiset<JewelCard> {
    market_cards(s).add(player_cards(s.players@[0])).add(player_cards(s.players@[1]))
}

/// A reserve is its public cards and its hidden cards of each level.
proof fn lemma_reserve_split(rs: Seq<ReservedCard>)
    ensures
        reserve_cards(rs).to_multiset() == public_cards(rs).to_multiset().add(
            hidden_cards(rs, 0).to_multiset(),
        ).add(hidden_cards(rs, 1).to_multiset()).add(hidden_cards(rs, 2).to_multiset()),
    decreases rs.len(),
{
    broadcast use vstd::multiset::group_multiset_axioms;

    if rs.len() == 0 {
        assert(reserve_cards(rs) =~= Seq::<JewelCard>::empty());
        assert(reserve_cards(rs).to_multiset() =~= public_cards(rs).to_multiset().add(
            hidden_cards(rs, 0).to_multiset(),
        ).add(hidden_cards(rs, 1).to_multiset()).add(hidden_cards(rs, 2).to_multiset()));
    } else {
        lemma_reserve_split(rs.drop_last());
        assert(reserve_cards(rs) =~= reserve_cards(rs.drop_last()).push(rs.last().card));
        assert(reserve_cards(rs).to_multiset() =~= public_cards(rs).to_multiset().add(
            hidden_cards(rs, 0).to_multiset(),
        ).add(hidden_cards(rs, 1).to_multiset()).add(hidden_cards(rs, 2).to_multiset()));
    }
}

/// Two reserves with the same public entries have the same public cards.
proof fn lemma_same_public_cards(a: Seq<ReservedCard>, b: Seq<ReservedCard>)
    requires
        same_public(a, b),
    ensures
        public_cards(b) == public_cards(a),
    decreases a.len(),
{
    if a.len() > 0 {
        assert(same_public(a.drop_last(), b.drop_last()));
        lemma_same_public_cards(a.drop_last(), b.drop_last());
    }
}

/// Determinizing a state whose hidden cards are accounted for keeps every card in play:
/// the cards of the game, counted with multiplicity, are the same before and after.
pub proof fn lemma_determinize_keeps_cards(s: GameState, observer: int, cards: Seq<JewelCard>, r: GameState)
    requires
        0 <= observer < 2,
        unseen_accounted(s, observer, cards),
        redraw_of(s, observer, cards, r),
    ensures
        cards_in_play(r) == cards_in_play(s),
{
    broadcast use vstd::multiset::group_multiset_axioms;

    lemma_determinize_keeps_accounting(s, observer, cards, r);
    lemma_redraw_same_known(s, observer, cards, r);
    let u = choose|u: Seq<Seq<JewelCard>>| #[trigger] redraw_outcome(s, observer, cards, r, u);
    let s0 = s.players@[1 - observer].reserved_cards@;
    let s3 = r.players@[1 - observer].reserved_cards@;
    lemma_redrawn_keeps_public(s0, 0, u[0]);
    lemma_redrawn_keeps_public(redrawn(s0, 0, u[0]), 1, u[1]);
    lemma_redrawn_keeps_public(redrawn(redrawn(s0, 0, u[0]), 1, u[1]), 2, u[2]);
    lemma_same_public_cards(s0, s3);
    lemma_reserve_split(s0);
    lemma_reserve_split(s3);
    lemma_unseen_same(s, r, observer, cards, 0);
    lemma_unseen_same(s, r, observer, cards, 1);
    lemma_unseen_same(s, r, observer, cards, 2);
    assert(r.row(0) == s.row(0) && r.row(1) == s.row(1) && r.row(2) == s.row(2));
    assert(s.players@[0].cards@ == r.players@[0].cards@);
    assert(s.players@[1].cards@ == r.players@[1].cards@);
    assert(s.players@[observer].reserved_cards@ == r.players@[observer].reserved_cards@);
    let ms = |q: Seq<JewelCard>| q.to_multiset();
    let pub_s = ms(public_cards(s0));
    let mine = reserve_cards(s.players@[observer].reserved_cards@);
    assert forall|v: JewelCard| #[trigger] cards_in_play(r).count(v) == cards_in_play(s).count(v) by {
        let level = |q: GameState, rs: Seq<ReservedCard>, t: int|
            q.deck(t).to_multiset().count(v) + hidden_cards(rs, t).to_multiset().count(v);
        assert forall|t: int| 0 <= t < 3 implies #[trigger] level(r, s3, t) == level(s, s0, t) by {
            let m = unseen_cards(s, observer, cards, t).to_multiset();
            assert(unseen_cards(r, observer, cards, t) == unseen_cards(s, observer, cards, t));
            assert(m.count(v) == level(s, s0, t));
            assert(m.count(v) == level(r, s3, t));
        }
        assert(level(r, s3, 0) == level(s, s0, 0));
        assert(level(r, s3, 1) == level(s, s0, 1));
        assert(level(r, s3, 2) == level(s, s0, 2));
        assert(reserve_cards(s3).to_multiset().count(v) == pub_s.count(v) + hidden_cards(s3, 0).to_multiset().count(v)
            + hidden_cards(s3, 1).to_multiset().count(v) + hidden_cards(s3, 2).to_multiset().count(v));
        assert(reserve_cards(s0).to_multiset().count(v) == pub_s.count(v) + hidden_cards(s0, 0).to_multiset().count(v)
            + hidden_cards(s0, 1).to_multiset().count(v) + hidden_cards(s0, 2).to_multiset().count(v));
        assert(reserve_cards(r.players@[observer].reserved_cards@) == mine);
    }
    assert(cards_in_play(r) =~= cards_in_play(s));
}

/// No two cards of the list share an id.
pub open spec fn distinct_ids(cards: Seq<JewelCard>) -> bool {
    forall|i: int, j: int| 0 <= i < j < cards.len() ==> cards[i].id != cards[j].id
}

/// A card occurs at most once in a list of distinct ids.
proof fn lemma_distinct_count(cards: Seq<JewelCard>, v: JewelCard)
    requires
        distinct_ids(cards),
    ensures
        cards.to_multiset().count(v) <= 1,
    decreases cards.len(),
{
    if cards.len() > 0 {
        let rest = cards.drop_last();
        lemma_distinct_count(rest, v);
        if cards.last() == v && rest.to_multiset().count(v) > 0 {
            let i = choose|i: int| 0 <= i < rest.len() && rest[i] == v;
            assert(cards[i].id == cards[cards.len() - 1].id);
        }
        assert(cards =~= rest.push(cards.last()));
    }
}

/// A card is hidden from the observer as often as it is a catalogue card of the level,
/// unless its id is visible.
proof fn lemma_unseen_count(s: GameState, observer: int, cards: Seq<JewelCard>, t: int, v: JewelCard)
    ensures
        unseen_cards(s, observer, cards, t).to_multiset().count(v) == if is_known(s, observer, v.id) {
            0
        } else {
            tier_cards(cards, t).to_multiset().count(v)
        },
    decreases cards.len(),
{
    if cards.len() > 0 {
        lemma_unseen_count(s, observer, cards.drop_last(), t, v);
    }
}


/// Every deck holds only cards of its level.
pub open spec fn decks_levelled(s: GameState) -> bool {
    forall|t: int| 0 <= t < 3 ==> all_of_level(#[trigger] s.deck(t), t)
}

/// A card occurs among the cards of a level as often as in the list if it is of that
/// level, and not at all otherwise.
proof fn lemma_tier_count_exact(cards: Seq<JewelCard>, t: int, v: JewelCard)
    ensures
        tier_cards(cards, t).to_multiset().count(v) == if v.tier.spec_index() == t {
            cards.to_multiset().count(v)
        } else {
            0
        },
    decreases cards.len(),
{
    if cards.len() > 0 {
        lemma_tier_count_exact(cards.drop_last(), t, v);
        assert(cards =~= cards.drop_last().push(cards.last()));
    }
}

/// The hidden cards of a level are of that level.
proof fn lemma_hidden_level(rs: Seq<ReservedCard>, t: int)
    ensures
        all_of_level(hidden_cards(rs, t), t),
    decreases rs.len(),
{
    if rs.len() > 0 {
        lemma_hidden_level(rs.drop_last(), t);
    }
}

/// A card is among the public cards of a reserve exactly when a public entry holds it.
proof fn lemma_public_cards_contains(rs: Seq<ReservedCard>, c: JewelCard)
    ensures
        public_cards(rs).contains(c) <==> exists|i: int| 0 <= i < rs.len() && rs[i].is_public && #[trigger] rs[i].card == c,
    decreases rs.len(),
{
    if rs.len() > 0 {
        let rest = rs.drop_last();
        lemma_public_cards_contains(rest, c);
        if public_cards(rs).contains(c) {
            if !(rs.last().is_public && rs.last().card == c) {
                assert(public_cards(rest).contains(c)) by {
                    let k = choose|k: int| 0 <= k < public_cards(rs).len() && public_cards(rs)[k] == c;
                    if rs.last().is_public {
                        assert(k < public_cards(rest).len());
                        assert(public_cards(rest)[k] == c);
                    }
                }
                let i = choose|i: int| 0 <= i < rest.len() && rest[i].is_public && #[trigger] rest[i].card == c;
                assert(rs[i] == rest[i]);
            }
        }
        if exists|i: int| 0 <= i < rs.len() && rs[i].is_public && #[trigger] rs[i].card == c {
            let i = choose|i: int| 0 <= i < rs.len() && rs[i].is_public && #[trigger] rs[i].card == c;
            if i < rs.len() - 1 {
                assert(rest[i] == rs[i]);
                assert(public_cards(rest).contains(c));
                let k = choose|k: int| 0 <= k < public_cards(rest).len() && public_cards(rest)[k] == c;
                if rs.last().is_public {
                    assert(public_cards(rs)[k] == c);
                }
            } else {
                assert(public_cards(rs).last() == c);
            }
        }
    }
}

/// A card that occurs in a list of one level is of that level.
proof fn lemma_level_count(q: Seq<JewelCard>, t: int, v: JewelCard)
    requires
        all_of_level(q, t),
        q.to_multiset().count(v) > 0,
    ensures
        v.tier.spec_index() == t,
{
    assert(q.contains(v));
    let i = choose|i: int| 0 <= i < q.len() && q[i] == v;
    assert(q[i].tier.spec_index() == t);
}

/// The cards `observer` can see, counted with multiplicity: the market, every bought
/// card, the observer's own reserve and the opponent's public reserved cards.
pub open spec fn visible_cards(s: GameState, observer: int) -> Multiset<JewelCard> {
    s.row(0).to_multiset().add(s.row(1).to_multiset()).add(s.row(2).to_multiset()).add(
        s.players@[0].cards@.to_multiset(),
    ).add(s.players@[1].cards@.to_multiset()).add(
        reserve_cards(s.players@[observer].reserved_cards@).to_multiset(),
    ).add(public_cards(s.players@[1 - observer].reserved_cards@).to_multiset())
}

/// A card the observer can see has a visible id.
proof fn lemma_visible_known(s: GameState, observer: int, v: JewelCard)
    requires
        0 <= observer < 2,
        visible_cards(s, observer).count(v) > 0,
    ensures
        is_known(s, observer, v.id),
{
    broadcast use vstd::multiset::group_multiset_axioms;

    let mine = s.players@[observer].reserved_cards@;
    let theirs = s.players@[1 - observer].reserved_cards@;
    if s.row(0).to_multiset().count(v) > 0 || s.row(1).to_multiset().count(v) > 0 || s.row(2).to_multiset().count(v) > 0 {
        let t = if s.row(0).to_multiset().count(v) > 0 { 0int } else if s.row(1).to_multiset().count(v) > 0 { 1int } else { 2int };
        assert(s.row(t).contains(v));
        let i = choose|i: int| 0 <= i < s.row(t).len() && s.row(t)[i] == v;
        assert(s.row(t)[i].id == v.id);
    } else if s.players@[0].cards@.to_multiset().count(v) > 0 || s.players@[1].cards@.to_multiset().count(v) > 0 {
        let pl = if s.players@[0].cards@.to_multiset().count(v) > 0 { 0int } else { 1int };
        assert(s.players@[pl].cards@.contains(v));
        let i = choose|i: int| 0 <= i < s.players@[pl].cards@.len() && s.players@[pl].cards@[i] == v;
        assert(s.players@[pl].cards@[i].id == v.id);
    } else if reserve_cards(mine).to_multiset().count(v) > 0 {
        assert(reserve_cards(mine).contains(v));
        let i = choose|i: int| 0 <= i < reserve_cards(mine).len() && reserve_cards(mine)[i] == v;
        assert(mine[i].card.id == v.id);
    } else {
        assert(public_cards(theirs).to_multiset().count(v) > 0);
        assert(public_cards(theirs).contains(v));
        lemma_public_cards_contains(theirs, v);
        let i = choose|i: int| 0 <= i < theirs.len() && theirs[i].is_public && #[trigger] theirs[i].card == v;
        assert(theirs[i].card.id == v.id);
    }
}

/// A visible id belongs to a card the observer can see.
proof fn lemma_known_visible(s: GameState, observer: int, id: u8) -> (w: JewelCard)
    requires
        0 <= observer < 2,
        is_known(s, observer, id),
    ensures
        visible_cards(s, observer).count(w) > 0,
        w.id == id,
{
    broadcast use vstd::multiset::group_multiset_axioms;

    let mine = s.players@[observer].reserved_cards@;
    let theirs = s.players@[1 - observer].reserved_cards@;
    if exists|t: int, i: int| 0 <= t < 3 && 0 <= i < s.row(t).len() && #[trigger] s.row(t)[i].id == id {
        let (t, i) = choose|t: int, i: int| 0 <= t < 3 && 0 <= i < s.row(t).len() && #[trigger] s.row(t)[i].id == id;
        let w = s.row(t)[i];
        assert(s.row(t).contains(w));
        w
    } else if exists|pl: int, i: int|
        0 <= pl < 2 && 0 <= i < s.players@[pl].cards@.len() && #[trigger] s.players@[pl].cards@[i].id == id {
        let (pl, i) = choose|pl: int, i: int|
            0 <= pl < 2 && 0 <= i < s.players@[pl].cards@.len() && #[trigger] s.players@[pl].cards@[i].id == id;
        let w = s.players@[pl].cards@[i];
        assert(s.players@[pl].cards@.contains(w));
        w
    } else if exists|i: int| 0 <= i < mine.len() && #[trigger] mine[i].card.id == id {
        let i = choose|i: int| 0 <= i < mine.len() && #[trigger] mine[i].card.id == id;
        let w = mine[i].card;
        assert(reserve_cards(mine)[i] == w);
        assert(reserve_cards(mine).contains(w));
        w
    } else {
        let i = choose|i: int| 0 <= i < theirs.len() && theirs[i].is_public && #[trigger] theirs[i].card.id == id;
        let w = theirs[i].card;
        lemma_public_cards_contains(theirs, w);
        assert(public_cards(theirs).contains(w));
        w
    }
}

/// A card in the deck of level `u`, or among the hidden reserved cards of that level, is
/// of that level.
proof fn lemma_deck_hidden_level(s: GameState, rs: Seq<ReservedCard>, u: int, v: JewelCard)
    requires
        0 <= u < 3,
        decks_levelled(s),
    ensures
        s.deck(u).to_multiset().count(v) > 0 || hidden_cards(rs, u).to_multiset().count(v) > 0 ==> v.tier.spec_index() == u,
{
    if s.deck(u).to_multiset().count(v) > 0 {
        lemma_level_count(s.deck(u), u, v);
    } else if hidden_cards(rs, u).to_multiset().count(v) > 0 {
        lemma_hidden_level(rs, u);
        lemma_level_count(hidden_cards(rs, u), u, v);
    }
}

/// A state whose cards in play are the catalogue, with no two catalogue cards sharing an
/// id and every deck holding cards of its level, accounts for what each player cannot
/// see: the unseen cards of each level are those of its deck and the opponent's hidden
/// reserved cards of that level.
pub proof fn lemma_catalogue_accounted(s: GameState, observer: int, cards: Seq<JewelCard>)
    requires
        0 <= observer < 2,
        distinct_ids(cards),
        cards_in_play(s) == cards.to_multiset(),
        decks_levelled(s),
    ensures
        unseen_accounted(s, observer, cards),
{
    broadcast use vstd::multiset::group_multiset_axioms;

    let opp = s.players@[1 - observer].reserved_cards@;
    lemma_reserve_split(opp);
    let hid = |t: int, v: JewelCard| hidden_cards(opp, t).to_multiset().count(v);
    let dk = |t: int, v: JewelCard| s.deck(t).to_multiset().count(v);
    assert forall|v: JewelCard| #[trigger] cards.to_multiset().count(v) == visible_cards(s, observer).count(v)
        + dk(0, v) + dk(1, v) + dk(2, v) + hid(0, v) + hid(1, v) + hid(2, v) by {
        assert(cards_in_play(s).count(v) == cards.to_multiset().count(v));
        if observer == 0 {
        } else {
        }
    }
    assert forall|t: int| 0 <= t < 3 implies #[trigger] unseen_cards(s, observer, cards, t).to_multiset() == s.deck(
        t,
    ).to_multiset().add(hidden_cards(opp, t).to_multiset()) by {
        assert forall|v: JewelCard| #[trigger] unseen_cards(s, observer, cards, t).to_multiset().count(v) == s.deck(
            t,
        ).to_multiset().add(hidden_cards(opp, t).to_multiset()).count(v) by {
            lemma_unseen_count(s, observer, cards, t, v);
            lemma_tier_count_exact(cards, t, v);
            lemma_distinct_count(cards, v);
            assert(cards.to_multiset().count(v) == visible_cards(s, observer).count(v) + dk(0, v) + dk(1, v) + dk(2, v)
                + hid(0, v) + hid(1, v) + hid(2, v));
            if is_known(s, observer, v.id) {
                if dk(t, v) + hid(t, v) > 0 {
                    let w = lemma_known_visible(s, observer, v.id);
                    assert(cards.to_multiset().count(w) == visible_cards(s, observer).count(w) + dk(0, w) + dk(1, w)
                        + dk(2, w) + hid(0, w) + hid(1, w) + hid(2, w));
                    if w == v {
                        // Seen and unseen at once: the card would occur twice.
                        assert(cards.to_multiset().count(v) >= 2);
                    } else {
                        assert(cards.contains(v));
                        assert(cards.contains(w));
                        let a = choose|a: int| 0 <= a < cards.len() && cards[a] == v;
                        let b = choose|b: int| 0 <= b < cards.len() && cards[b] == w;
                        if a < b {
                            assert(cards[a].id != cards[b].id);
                        } else {
                            assert(cards[b].id != cards[a].id);
                        }
                    }
                }
            } else {
                if visible_cards(s, observer).count(v) > 0 {
                    lemma_visible_known(s, observer, v);
                }
                lemma_deck_hidden_level(s, opp, 0, v);
                lemma_deck_hidden_level(s, opp, 1, v);
                lemma_deck_hidden_level(s, opp, 2, v);
                if v.tier.spec_index() != t {
                    assert(dk(t, v) == 0 && hid(t, v) == 0);
                }
            }
        }
        assert(unseen_cards(s, observer, cards, t).to_multiset() =~= s.deck(t).to_multiset().add(
            hidden_cards(opp, t).to_multiset(),
        ));
    }
}

/// The cards of a level are all of that level.
pub proof fn lemma_tier_level(cards: Seq<JewelCard>, t: int)
    ensures
        all_of_level(tier_cards(cards, t), t),
    decreases cards.len(),
{
    if cards.len() > 0 {
        lemma_tier_level(cards.drop_last(), t);
    }
}

/// A list is its cards of the three levels.
pub proof fn lemma_tier_split(cards: Seq<JewelCard>)
    ensures
        tier_cards(cards, 0).to_multiset().add(tier_cards(cards, 1).to_multiset()).add(
            tier_cards(cards, 2).to_multiset(),
        ) == cards.to_multiset(),
    decreases cards.len(),
{
    broadcast use vstd::multiset::group_multiset_axioms;

    if cards.len() == 0 {
        assert(tier_cards(cards, 0).to_multiset().add(tier_cards(cards, 1).to_multiset()).add(
            tier_cards(cards, 2).to_multiset(),
        ) =~= cards.to_multiset());
    } else {
        lemma_tier_split(cards.drop_last());
        assert(cards =~= cards.drop_last().push(cards.last()));
        assert(tier_cards(cards, 0).to_multiset().add(tier_cards(cards, 1).to_multiset()).add(
            tier_cards(cards, 2).to_multiset(),
        ) =~= cards.to_multiset());
    }
}

} // verus!
