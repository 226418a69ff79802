use vstd::prelude::*;

use crate::model::card::{CardColor, JewelCard, ReservedCard, RoyalCard};
use crate::model::token::{GemType, TokenCollection};

verus! {

/// A player's holdings, with cached totals of what the played cards give.
#[derive(Debug, Clone, PartialEq, Eq)]
pub struct PlayerState {
    pub id: usize,
    pub tokens: TokenCollection,
    pub cards: Vec<JewelCard>,
    /// At most three reserved cards.
    pub reserved_cards: Vec<ReservedCard>,
    pub royal_cards: Vec<RoyalCard>,
    /// At most three privilege scrolls.
    pub privileges: u8,
    /// Permanent discount per basic colour (white, blue, green, red, black).
    pub bonuses: [u8; 5],
    /// Prestige of the cards of each basic colour.
    pub color_points: [u8; 5],
    /// Prestige of the colourless prestige cards.
    pub points_card_points: u8,
    pub total_points: u8,
    pub total_crowns: u8,
    /// Royal milestones taken: [0] for three crowns, [1] for six.
    pub royals_claimed: [bool; 2],
}

/// Position in `bonuses` and `color_points` that a card adds to: its own colour, or for a
/// joker the colour it is attached to; none for a prestige card or an unattached joker.
pub open spec fn bonus_slot(card: JewelCard, attached: Option<GemType>) -> Option<int> {
    match card.color.spec_to_gem_type() {
        Some(g) => Some(g.spec_index()),
        None => if card.color == CardColor::Joker {
            match attached {
                Some(g) => Some(g.spec_index()),
                None => None,
            }
        } else {
            None
        },
    }
}

/// `a - b`, or 0 when `b >= a`.
pub open spec fn sat_sub(a: int, b: int) -> int {
    if a > b { a - b } else { 0 }
}

pub open spec fn min_int(a: int, b: int) -> int {
    if a < b { a } else { b }
}

/// `a` with `x` added to entry `i`.
pub open spec fn arr5_add(a: [u8; 5], i: int, x: int) -> [u8; 5] {
    [
        if i == 0 { (a@[0] + x) as u8 } else { a@[0] },
        if i == 1 { (a@[1] + x) as u8 } else { a@[1] },
        if i == 2 { (a@[2] + x) as u8 } else { a@[2] },
        if i == 3 { (a@[3] + x) as u8 } else { a@[3] },
        if i == 4 { (a@[4] + x) as u8 } else { a@[4] },
    ]
}

/// An item-by-item copy of a list.
pub fn copy_list<T: Copy>(items: &Vec<T>) -> (r: Vec<T>)
    ensures
        r@ == items@,
{
    let mut out: Vec<T> = Vec::new();
    let mut i: usize = 0;
    while i < items.len()
        invariant
            0 <= i <= items@.len(),
            out@ == items@.subrange(0, i as int),
        decreases items@.len() - i,
    {
        proof {
            assert(items@.subrange(0, i as int + 1) =~= items@.subrange(0, i as int).push(items@[i as int]));
        }
        out.push(items[i]);
        i = i + 1;
    }
    proof {
        assert(items@.subrange(0, items@.len() as int) =~= items@);
    }
    out
}

impl PlayerState {
    /// The cached totals after `card` is played (attached to `attached` if a joker); the
    /// card list itself is left as it is.
    pub open spec fn played(self, card: JewelCard, attached: Option<GemType>) -> PlayerState {
        let base = PlayerState {
            total_points: (self.total_points + card.points) as u8,
            total_crowns: (self.total_crowns + card.crowns) as u8,
            ..self
        };
        match bonus_slot(card, attached) {
            Some(i) => PlayerState {
                bonuses: arr5_add(self.bonuses, i, card.bonus as int),
                color_points: arr5_add(self.color_points, i, card.points as int),
                ..base
            },
            None => if card.color == CardColor::Points {
                PlayerState {
                    points_card_points: (self.points_card_points + card.points) as u8,
                    ..base
                }
            } else {
                base
            },
        }
    }

    /// This player with the royal milestone `m` (3 or 6) marked as taken.
    pub open spec fn marked(self, m: u8) -> PlayerState {
        PlayerState {
            royals_claimed: [
                if m == 3 { true } else { self.royals_claimed@[0] },
                if m == 6 { true } else { self.royals_claimed@[1] },
            ],
            ..self
        }
    }

    /// Discount the player has for `gem` (none for pearl and gold).
    pub open spec fn spec_get_bonus(&self, gem: GemType) -> int {
        if gem.spec_is_basic() {
            self.bonuses@[gem.spec_index()] as int
        } else {
            0
        }
    }

    pub open spec fn spec_has_any_bonus(&self) -> bool {
        exists|i: int| 0 <= i < 5 && self.bonuses@[i] > 0
    }

    /// Tokens of kind `gem` still owed for `card` after the discount (pearls get none).
    pub open spec fn required(&self, card: JewelCard, gem: GemType) -> int {
        sat_sub(card.cost.spec_get(gem) as int, self.spec_get_bonus(gem))
    }

    /// How many of the tokens owed for `card` in the `i`-th colour (0..6, pearl last)
    /// the player cannot cover with tokens of that colour.
    pub open spec fn shortfall(&self, card: JewelCard, i: int) -> int {
        let g = GemType::spec_from_index(i).unwrap();
        sat_sub(self.required(card, g), self.tokens.count(g))
    }

    /// Sum of the shortfalls of the first `n` colours.
    pub open spec fn shortfall_upto(&self, card: JewelCard, n: int) -> int
        decreases n,
    {
        if n <= 0 {
            0
        } else {
            self.shortfall_upto(card, n - 1) + self.shortfall(card, n - 1)
        }
    }

    /// Gold needed to buy `card`: the shortfall over the five colours and pearls.
    pub open spec fn gold_needed(&self, card: JewelCard) -> int {
        self.shortfall_upto(card, 6)
    }

    /// The player can pay for `card`, covering every shortfall with gold.
    pub open spec fn spec_can_afford(&self, card: JewelCard) -> bool {
        self.gold_needed(card) <= self.tokens.count(GemType::Gold)
    }

    /// Milestones (3, 6) reached by the crown total and not yet taken, in order.
    pub open spec fn spec_pending_milestones(&self) -> Seq<u8> {
        (if self.total_crowns >= 3 && !self.royals_claimed@[0] {
            seq![3u8]
        } else {
            Seq::empty()
        }) + (if self.total_crowns >= 6 && !self.royals_claimed@[1] {
            seq![6u8]
        } else {
            Seq::empty()
        })
    }

    /// Playing `card` (attached to `attached` if it is a joker) keeps every cached total
    /// within `u8`; a joker can only be attached to a basic colour.
    pub open spec fn can_play(&self, card: JewelCard, attached: Option<GemType>) -> bool {
        &&& self.total_points + card.points <= u8::MAX
        &&& self.total_crowns + card.crowns <= u8::MAX
        &&& (card.color == CardColor::Joker ==> (attached matches Some(g) ==> g.spec_is_basic()))
        &&& (bonus_slot(card, attached) matches Some(i) ==> self.bonuses@[i] + card.bonus
            <= u8::MAX && self.color_points@[i] + card.points <= u8::MAX)
        &&& (card.color == CardColor::Points ==> self.points_card_points + card.points <= u8::MAX)
    }

    /// `other` holds the same as this player: equal fields, lists with equal contents.
    pub open spec fn same(self, other: PlayerState) -> bool {
        &&& other.id == self.id
        &&& other.tokens == self.tokens
        &&& other.cards@ == self.cards@
        &&& other.reserved_cards@ == self.reserved_cards@
        &&& other.royal_cards@ == self.royal_cards@
        &&& other.privileges == self.privileges
        &&& other.bonuses == self.bonuses
        &&& other.color_points == self.color_points
        &&& other.points_card_points == self.points_card_points
        &&& other.total_points == self.total_points
        &&& other.total_crowns == self.total_crowns
        &&& other.royals_claimed == self.royals_claimed
    }

    /// A copy of this player.
    pub fn duplicate(&self) -> (r: Self)
        ensures
            self.same(r),
    {
        PlayerState {
            id: self.id,
            tokens: self.tokens,
            cards: copy_list(&self.cards),
            reserved_cards: copy_list(&self.reserved_cards),
            royal_cards: copy_list(&self.royal_cards),
            privileges: self.privileges,
            bonuses: self.bonuses,
            color_points: self.color_points,
            points_card_points: self.points_card_points,
            total_points: self.total_points,
            total_crowns: self.total_crowns,
            royals_claimed: self.royals_claimed,
        }
    }

    /// A new player with nothing.
    pub fn new(id: usize) -> (r: Self)
        ensures
            r.id == id,
            r.tokens.sum() == 0,
            forall|i: int| 0 <= i < 7 ==> r.tokens.counts@[i] == 0,
            r.cards@.len() == 0,
            r.reserved_cards@.len() == 0,
            r.royal_cards@.len() == 0,
            r.privileges == 0,
            forall|i: int| 0 <= i < 5 ==> r.bonuses@[i] == 0 && r.color_points@[i] == 0,
            r.points_card_points == 0,
            r.total_points == 0,
            r.total_crowns == 0,
            !r.royals_claimed@[0] && !r.royals_claimed@[1],
    {
        PlayerState {
            id,
            tokens: TokenCollection::new(),
            cards: Vec::new(),
            reserved_cards: Vec::new(),
            royal_cards: Vec::new(),
            privileges: 0,
            bonuses: [0; 5],
            color_points: [0; 5],
            points_card_points: 0,
            total_points: 0,
            total_crowns: 0,
            royals_claimed: [false; 2],
        }
    }

    /// Whether the player has a discount in some basic colour (needed to buy a joker).
    pub fn has_any_bonus(&self) -> (r: bool)
        ensures
            r == self.spec_has_any_bonus(),
    {
        let mut i: usize = 0;
        while i < 5
            invariant
                0 <= i <= 5,
                forall|j: int| 0 <= j < i ==> self.bonuses@[j] == 0,
            decreases 5 - i,
        {
            if self.bonuses[i] > 0 {
                return true;
            }
            i = i + 1;
        }
        false
    }

    pub fn get_bonus(&self, gem: GemType) -> (r: u8)
        ensures
            r == self.spec_get_bonus(gem),
    {
        if gem.is_basic_gem() {
            self.bonuses[gem.index()]
        } else {
            0
        }
    }

    /// Crown milestones reached and not yet taken (3 before 6).
    pub fn pending_royal_milestones(&self) -> (r: Vec<u8>)
        ensures
            r@ == self.spec_pending_milestones(),
    {
        let mut milestones: Vec<u8> = Vec::new();
        if self.total_crowns >= 3 && !self.royals_claimed[0] {
            milestones.push(3);
        }
        if self.total_crowns >= 6 && !self.royals_claimed[1] {
            milestones.push(6);
        }
        assert(milestones@ =~= self.spec_pending_milestones());
        milestones
    }

    /// Records that the royal card of milestone 3 or 6 was taken; other values do nothing.
    pub fn mark_royal_claimed(&mut self, milestone: u8)
        ensures
            *final(self) == old(self).marked(milestone),
            milestone == 3 ==> final(self).royals_claimed@ == old(self).royals_claimed@.update(0, true),
            milestone == 6 ==> final(self).royals_claimed@ == old(self).royals_claimed@.update(1, true),
            milestone != 3 && milestone != 6 ==> final(self).royals_claimed@ == old(self).royals_claimed@,
            final(self).total_crowns == old(self).total_crowns,
            final(self).total_points == old(self).total_points,
            final(self).tokens == old(self).tokens,
            final(self).cards@ == old(self).cards@,
            final(self).reserved_cards@ == old(self).reserved_cards@,
            final(self).royal_cards@ == old(self).royal_cards@,
            final(self).privileges == old(self).privileges,
            final(self).bonuses == old(self).bonuses,
            final(self).color_points == old(self).color_points,
            final(self).points_card_points == old(self).points_card_points,
            final(self).id == old(self).id,
    {
        if milestone == 3 {
            self.royals_claimed[0] = true;
        } else if milestone == 6 {
            self.royals_claimed[1] = true;
        }
        assert(self.royals_claimed =~= old(self).marked(milestone).royals_claimed);
    }

    /// Adds a bought card and its prestige, crowns and discount to the cached totals; a
    /// joker counts for the colour it is attached to.
    pub fn play_card(&mut self, card: JewelCard, attached_color: Option<GemType>)
        requires
            old(self).can_play(card, attached_color),
        ensures
            *final(self) == (PlayerState { cards: final(self).cards, ..old(self).played(card, attached_color) }),
            final(self).cards@ == old(self).cards@.push(card),
            final(self).total_points == old(self).total_points + card.points,
            final(self).total_crowns == old(self).total_crowns + card.crowns,
            bonus_slot(card, attached_color) matches Some(i) ==> final(self).bonuses@
                == old(self).bonuses@.update(i, (old(self).bonuses@[i] + card.bonus) as u8)
                && final(self).color_points@ == old(self).color_points@.update(
                i,
                (old(self).color_points@[i] + card.points) as u8,
            ),
            bonus_slot(card, attached_color) is None ==> final(self).bonuses == old(self).bonuses
                && final(self).color_points == old(self).color_points,
            card.color == CardColor::Points ==> final(self).points_card_points == old(
                self,
            ).points_card_points + card.points,
            card.color != CardColor::Points ==> final(self).points_card_points == old(
                self,
            ).points_card_points,
            final(self).tokens == old(self).tokens,
            final(self).reserved_cards@ == old(self).reserved_cards@,
            final(self).royal_cards@ == old(self).royal_cards@,
            final(self).privileges == old(self).privileges,
            final(self).royals_claimed == old(self).royals_claimed,
            final(self).id == old(self).id,
    {
        self.cards.push(card);
        self.total_points = self.total_points + card.points;
        self.total_crowns = self.total_crowns + card.crowns;
        match card.color {
            CardColor::White | CardColor::Blue | CardColor::Green | CardColor::Red
            | CardColor::Black => {
                let idx = card.color.to_gem_type().unwrap().index();
                self.bonuses[idx] = self.bonuses[idx] + card.bonus;
                self.color_points[idx] = self.color_points[idx] + card.points;
                assert(self.bonuses =~= old(self).played(card, attached_color).bonuses);
                assert(self.color_points =~= old(self).played(card, attached_color).color_points);
            },
            CardColor::Points => {
                self.points_card_points = self.points_card_points + card.points;
            },
            CardColor::Joker => {
                if let Some(color) = attached_color {
                    let idx = color.index();
                    self.bonuses[idx] = self.bonuses[idx] + card.bonus;
                    self.color_points[idx] = self.color_points[idx] + card.points;
                    assert(self.bonuses =~= old(self).played(card, attached_color).bonuses);
                    assert(self.color_points =~= old(self).played(card, attached_color).color_points);
                }
            },
        }
    }

    /// Adds a royal card and its prestige.
    pub fn claim_royal_card(&mut self, royal: RoyalCard)
        requires
            old(self).total_points + royal.points <= u8::MAX,
        ensures
            *final(self) == (PlayerState {
                royal_cards: final(self).royal_cards,
                total_points: (old(self).total_points + royal.points) as u8,
                ..*old(self)
            }),
            final(self).total_points == old(self).total_points + royal.points,
            final(self).royal_cards@ == old(self).royal_cards@.push(royal),
            final(self).tokens == old(self).tokens,
            final(self).cards@ == old(self).cards@,
            final(self).reserved_cards@ == old(self).reserved_cards@,
            final(self).privileges == old(self).privileges,
            final(self).bonuses == old(self).bonuses,
            final(self).color_points == old(self).color_points,
            final(self).points_card_points == old(self).points_card_points,
            final(self).total_crowns == old(self).total_crowns,
            final(self).royals_claimed == old(self).royals_claimed,
            final(self).id == old(self).id,
    {
        self.total_points = self.total_points + royal.points;
        self.royal_cards.push(royal);
    }

    /// Whether the player can pay for `card`: after the discounts, what the player's own
    /// tokens do not cover must be covered by gold. The gold needed is added up in
    /// `u8`, so that sum must fit.
    pub fn can_afford(&self, card: &JewelCard) -> (r: bool)
        requires
            self.gold_needed(*card) <= u8::MAX,
        ensures
            r == self.spec_can_afford(*card),
    {
        let mut gold_needed: u8 = 0;
        let mut i: usize = 0;
        while i < 5
            invariant
                0 <= i <= 5,
                gold_needed == self.shortfall_upto(*card, i as int),
                self.gold_needed(*card) <= u8::MAX,
            decreases 5 - i,
        {
            let gem = GemType::from_index(i).unwrap();
            let cost = card.cost.get(gem);
            let discount = self.get_bonus(gem);
            let required = cost.saturating_sub(discount);
            let have = self.tokens.get(gem);
            proof {
                self.lemma_shortfall_upto_monotone(*card, i as int + 1, 6);
            }
            if have < required {
                gold_needed = gold_needed + (required - have);
            }
            i = i + 1;
        }
        let pearl_req = card.cost.pearl;
        let pearl_have = self.tokens.get(GemType::Pearl);
        if pearl_have < pearl_req {
            gold_needed = gold_needed + (pearl_req - pearl_have);
        }
        self.tokens.get(GemType::Gold) >= gold_needed
    }

    pub proof fn lemma_shortfall_upto_monotone(&self, card: JewelCard, a: int, b: int)
        requires
            0 <= a <= b,
        ensures
            self.shortfall_upto(card, a) <= self.shortfall_upto(card, b),
        decreases b - a,
    {
        if a < b {
            self.lemma_shortfall_upto_monotone(card, a, b - 1);
        }
    }
}

} // verus!
