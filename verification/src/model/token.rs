use vstd::prelude::*;

verus! {

/// The seven kinds of token: five basic gems, the scarce pearl, and gold (a wildcard
/// that can only be gained by reserving a card).
#[derive(Debug, Clone, Copy, PartialEq, Eq, Hash, Structural)]
pub enum GemType {
    White,
    Blue,
    Green,
    Red,
    Black,
    Pearl,
    Gold,
}

/// Number of token kinds.
pub const GEM_KINDS: usize = 7;

/// Number of basic gem colours (the colours a card bonus can have).
pub const BASIC_GEMS: usize = 5;

impl GemType {
    /// Position of this kind in a `TokenCollection` (White 0 .. Gold 6).
    pub open spec fn spec_index(self) -> int {
        match self {
            GemType::White => 0,
            GemType::Blue => 1,
            GemType::Green => 2,
            GemType::Red => 3,
            GemType::Black => 4,
            GemType::Pearl => 5,
            GemType::Gold => 6,
        }
    }

    /// The kind stored at position `idx`, if `idx < 7`.
    pub open spec fn spec_from_index(idx: int) -> Option<GemType> {
        if idx == 0 {
            Some(GemType::White)
        } else if idx == 1 {
            Some(GemType::Blue)
        } else if idx == 2 {
            Some(GemType::Green)
        } else if idx == 3 {
            Some(GemType::Red)
        } else if idx == 4 {
            Some(GemType::Black)
        } else if idx == 5 {
            Some(GemType::Pearl)
        } else if idx == 6 {
            Some(GemType::Gold)
        } else {
            None
        }
    }

    /// One of White, Blue, Green, Red, Black.
    pub open spec fn spec_is_basic(self) -> bool {
        self.spec_index() < 5
    }

    pub fn index(self) -> (r: usize)
        ensures
            r == self.spec_index(),
            r < 7,
    {
        match self {
            GemType::White => 0,
            GemType::Blue => 1,
            GemType::Green => 2,
            GemType::Red => 3,
            GemType::Black => 4,
            GemType::Pearl => 5,
            GemType::Gold => 6,
        }
    }

    pub fn from_index(idx: usize) -> (r: Option<GemType>)
        ensures
            r == Self::spec_from_index(idx as int),
            r matches Some(g) ==> g.spec_index() == idx,
            r is None <==> idx >= 7,
    {
        match idx {
            0 => Some(GemType::White),
            1 => Some(GemType::Blue),
            2 => Some(GemType::Green),
            3 => Some(GemType::Red),
            4 => Some(GemType::Black),
            5 => Some(GemType::Pearl),
            6 => Some(GemType::Gold),
            _ => None,
        }
    }

    pub fn is_gold(self) -> (r: bool)
        ensures
            r == (self == GemType::Gold),
    {
        matches!(self, GemType::Gold)
    }

    pub fn is_basic_gem(self) -> (r: bool)
        ensures
            r == self.spec_is_basic(),
    {
        matches!(
            self,
            GemType::White | GemType::Blue | GemType::Green | GemType::Red | GemType::Black
        )
    }
}

/// Each kind sits at the position its index names.
pub proof fn lemma_gem_index_roundtrip(g: GemType)
    ensures
        GemType::spec_from_index(g.spec_index()) == Some(g),
        0 <= g.spec_index() < 7,
{
}

/// Counts of each token kind, indexed by `GemType::index`.
#[derive(Debug, Clone, Copy, PartialEq, Eq)]
pub struct TokenCollection {
    pub counts: [u8; 7],
}

/// Sum of the first `n` entries of a count sequence.
pub open spec fn sum_prefix(s: Seq<u8>, n: int) -> int
    decreases n,
{
    if n <= 0 {
        0
    } else {
        sum_prefix(s, n - 1) + s[n - 1] as int
    }
}

impl TokenCollection {
    /// How many tokens of kind `g` the collection holds.
    pub open spec fn count(&self, g: GemType) -> int {
        self.counts@[g.spec_index()] as int
    }

    /// Total number of tokens in the collection.
    pub open spec fn sum(&self) -> int {
        sum_prefix(self.counts@, 7)
    }

    /// This collection with the count at position `i` set to `n`.
    pub open spec fn with_count_at(self, i: int, n: u8) -> TokenCollection {
        TokenCollection {
            counts: [
                if i == 0 { n } else { self.counts@[0] },
                if i == 1 { n } else { self.counts@[1] },
                if i == 2 { n } else { self.counts@[2] },
                if i == 3 { n } else { self.counts@[3] },
                if i == 4 { n } else { self.counts@[4] },
                if i == 5 { n } else { self.counts@[5] },
                if i == 6 { n } else { self.counts@[6] },
            ],
        }
    }

    /// This collection with the count of `g` changed by `delta`.
    pub open spec fn shifted(self, g: GemType, delta: int) -> TokenCollection {
        self.with_count_at(g.spec_index(), (self.count(g) + delta) as u8)
    }

    /// This collection less `other`, kind by kind.
    pub open spec fn minus(self, other: TokenCollection) -> TokenCollection {
        TokenCollection {
            counts: [
                (self.counts@[0] - other.counts@[0]) as u8,
                (self.counts@[1] - other.counts@[1]) as u8,
                (self.counts@[2] - other.counts@[2]) as u8,
                (self.counts@[3] - other.counts@[3]) as u8,
                (self.counts@[4] - other.counts@[4]) as u8,
                (self.counts@[5] - other.counts@[5]) as u8,
                (self.counts@[6] - other.counts@[6]) as u8,
            ],
        }
    }

    pub fn new() -> (r: Self)
        ensures
            forall|i: int| 0 <= i < 7 ==> r.counts@[i] == 0,
            r.sum() == 0,
    {
        let r = TokenCollection { counts: [0u8; 7] };
        proof {
            reveal_with_fuel(sum_prefix, 8);
        }
        r
    }

    /// The full set of tokens at the start of a game: four of each basic gem,
    /// two pearls and three gold (25 in all).
    pub fn initial_bag() -> (r: Self)
        ensures
            r.counts@ == seq![4u8, 4u8, 4u8, 4u8, 4u8, 2u8, 3u8],
            r.sum() == 25,
    {
        let r = TokenCollection { counts: [4u8, 4u8, 4u8, 4u8, 4u8, 2u8, 3u8] };
        proof {
            assert(r.counts@ =~= seq![4u8, 4u8, 4u8, 4u8, 4u8, 2u8, 3u8]);
            reveal_with_fuel(sum_prefix, 8);
        }
        r
    }

    pub fn get(&self, gem: GemType) -> (r: u8)
        ensures
            r == self.count(gem),
    {
        self.counts[gem.index()]
    }

    pub fn get_mut(&mut self, gem: GemType) -> (r: &mut u8)
        ensures
            *r == old(self).count(gem),
            final(self).counts@ == old(self).counts@.update(gem.spec_index(), *final(r)),
    {
        let i = gem.index();
        &mut self.counts[i]
    }

    pub fn set(&mut self, gem: GemType, val: u8)
        ensures
            final(self).counts@ == old(self).counts@.update(gem.spec_index(), val),
            *final(self) == old(self).with_count_at(gem.spec_index(), val),
    {
        let i = gem.index();
        self.counts[i] = val;
        assert(self.counts =~= old(self).with_count_at(gem.spec_index(), val).counts);
    }

    pub fn add(&mut self, gem: GemType, count: u8)
        requires
            old(self).count(gem) + count <= u8::MAX,
        ensures
            final(self).counts@ == old(self).counts@.update(
                gem.spec_index(),
                (old(self).count(gem) + count) as u8,
            ),
            *final(self) == old(self).shifted(gem, count as int),
    {
        let i = gem.index();
        self.counts[i] = self.counts[i] + count;
        assert(self.counts =~= old(self).shifted(gem, count as int).counts);
    }

    /// Takes `count` tokens of kind `gem`; refused (and nothing changes) when fewer are held.
    pub fn remove(&mut self, gem: GemType, count: u8) -> (r: Result<(), ()>)
        ensures
            r is Ok <==> old(self).count(gem) >= count,
            r is Ok ==> final(self).counts@ == old(self).counts@.update(
                gem.spec_index(),
                (old(self).count(gem) - count) as u8,
            ),
            r is Ok ==> *final(self) == old(self).shifted(gem, -count),
            r is Err ==> *final(self) == *old(self),
    {
        let i = gem.index();
        if self.counts[i] >= count {
            self.counts[i] = self.counts[i] - count;
            assert(self.counts =~= old(self).shifted(gem, -count).counts);
            Ok(())
        } else {
            Err(())
        }
    }

    /// Total number of tokens, summed in `u8`, so the total must fit.
    pub fn total(&self) -> (r: u8)
        requires
            self.sum() <= u8::MAX,
        ensures
            r == self.sum(),
    {
        let mut sum: u8 = 0;
        let mut i: usize = 0;
        while i < 7
            invariant
                0 <= i <= 7,
                sum == sum_prefix(self.counts@, i as int),
                self.sum() <= u8::MAX,
            decreases 7 - i,
        {
            proof {
                lemma_sum_prefix_monotone(self.counts@, i as int + 1, 7);
            }
            sum = sum + self.counts[i];
            i = i + 1;
        }
        sum
    }

    pub fn is_empty(&self) -> (r: bool)
        requires
            self.sum() <= u8::MAX,
        ensures
            r == (self.sum() == 0),
    {
        self.total() == 0
    }

    pub fn add_collection(&mut self, other: &TokenCollection)
        requires
            forall|i: int| 0 <= i < 7 ==> old(self).counts@[i] + other.counts@[i] <= u8::MAX,
        ensures
            forall|i: int|
                0 <= i < 7 ==> final(self).counts@[i] == old(self).counts@[i] + other.counts@[i],
    {
        let mut i: usize = 0;
        while i < 7
            invariant
                0 <= i <= 7,
                forall|j: int| 0 <= j < 7 ==> old(self).counts@[j] + other.counts@[j] <= u8::MAX,
                forall|j: int| 0 <= j < i ==> self.counts@[j] == old(self).counts@[j] + other.counts@[j],
                forall|j: int| i <= j < 7 ==> self.counts@[j] == old(self).counts@[j],
            decreases 7 - i,
        {
            self.counts[i] = self.counts[i] + other.counts[i];
            i = i + 1;
        }
    }

    /// Takes every token of `other` at once; refused (and nothing changes) unless each
    /// kind is held in sufficient number.
    pub fn remove_collection(&mut self, other: &TokenCollection) -> (r: Result<(), ()>)
        ensures
            r is Ok <==> (forall|i: int| 0 <= i < 7 ==> other.counts@[i] <= old(self).counts@[i]),
            r is Ok ==> forall|i: int|
                0 <= i < 7 ==> final(self).counts@[i] == old(self).counts@[i] - other.counts@[i],
            r is Ok ==> *final(self) == old(self).minus(*other),
            r is Err ==> *final(self) == *old(self),
    {
        let mut i: usize = 0;
        while i < 7
            invariant
                0 <= i <= 7,
                forall|j: int| 0 <= j < i ==> other.counts@[j] <= self.counts@[j],
            decreases 7 - i,
        {
            if self.counts[i] < other.counts[i] {
                return Err(());
            }
            i = i + 1;
        }
        let mut i: usize = 0;
        while i < 7
            invariant
                0 <= i <= 7,
                forall|j: int| 0 <= j < 7 ==> other.counts@[j] <= old(self).counts@[j],
                forall|j: int| 0 <= j < i ==> self.counts@[j] == old(self).counts@[j] - other.counts@[j],
                forall|j: int| i <= j < 7 ==> self.counts@[j] == old(self).counts@[j],
            decreases 7 - i,
        {
            self.counts[i] = self.counts[i] - other.counts[i];
            i = i + 1;
        }
        assert(self.counts =~= old(self).minus(*other).counts);
        Ok(())
    }
}

/// A prefix sum of counts never exceeds a longer prefix sum.
pub proof fn lemma_sum_prefix_monotone(s: Seq<u8>, a: int, b: int)
    requires
        0 <= a <= b <= s.len(),
    ensures
        sum_prefix(s, a) <= sum_prefix(s, b),
    decreases b - a,
{
    if a < b {
        lemma_sum_prefix_monotone(s, a, b - 1);
    }
}


impl TokenCollection {
    /// No single count exceeds the total.
    pub proof fn lemma_count_le_sum(&self, g: GemType)
        ensures
            self.count(g) <= self.sum(),
            0 <= self.count(g),
    {
        reveal_with_fuel(sum_prefix, 8);
    }

    /// Replacing one count changes the total by the difference.
    pub proof fn lemma_with_count_at_sum(&self, i: int, n: u8)
        requires
            0 <= i < 7,
        ensures
            self.with_count_at(i, n).sum() == self.sum() - self.counts@[i] + n,
    {
        reveal_with_fuel(sum_prefix, 8);
    }

    /// Changing the count of `g` by `delta` (within `u8`) changes the total by `delta`.
    pub proof fn lemma_shifted_sum(&self, g: GemType, delta: int)
        requires
            0 <= self.count(g) + delta <= u8::MAX,
        ensures
            self.shifted(g, delta).sum() == self.sum() + delta,
            self.shifted(g, delta).count(g) == self.count(g) + delta,
    {
        self.lemma_with_count_at_sum(g.spec_index(), (self.count(g) + delta) as u8);
    }

    /// Taking away a collection held kind by kind lowers the total by its total.
    pub proof fn lemma_minus_sum(&self, other: TokenCollection)
        requires
            forall|i: int| 0 <= i < 7 ==> other.counts@[i] <= self.counts@[i],
        ensures
            self.minus(other).sum() == self.sum() - other.sum(),
            other.sum() <= self.sum(),
    {
        reveal_with_fuel(sum_prefix, 8);
    }
}
} // verus!
