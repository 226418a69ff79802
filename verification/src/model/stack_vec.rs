use vstd::prelude::*;

use crate::model::card::JewelCard;
use crate::model::token::GemType;
use crate::rng::{shuffle_deal_seeded, shuffle_gems_seeded, spec_seeded_deal, spec_seeded_gem_order};

verus! {

/// A list of copyable items whose length never exceeds the fixed capacity `CAP`.
#[derive(Debug, Clone, PartialEq, Eq)]
pub struct StackVec<T: Copy, const CAP: usize> {
    data: Vec<T>,
}

impl<T: Copy, const CAP: usize> View for StackVec<T, CAP> {
    type V = Seq<T>;

    closed spec fn view(&self) -> Seq<T> {
        self.data@
    }
}

impl<T: Copy, const CAP: usize> StackVec<T, CAP> {
    /// The length is within the capacity.
    pub open spec fn wf(&self) -> bool {
        self@.len() <= CAP
    }

    pub fn new() -> (r: Self)
        ensures
            r@ == Seq::<T>::empty(),
            r.wf(),
    {
        StackVec { data: Vec::new() }
    }

    pub fn len(&self) -> (r: usize)
        ensures
            r == self@.len(),
    {
        self.data.len()
    }

    pub fn is_empty(&self) -> (r: bool)
        ensures
            r == (self@.len() == 0),
    {
        self.data.len() == 0
    }

    pub fn capacity(&self) -> (r: usize)
        ensures
            r == CAP,
    {
        CAP
    }

    /// Appends `val`; the list must not be full.
    pub fn push(&mut self, val: T)
        requires
            old(self)@.len() < CAP,
        ensures
            final(self)@ == old(self)@.push(val),
    {
        self.data.push(val);
    }

    /// Removes and returns the last item, if any.
    pub fn pop(&mut self) -> (r: Option<T>)
        ensures
            old(self)@.len() == 0 ==> r is None && final(self)@ == old(self)@,
            old(self)@.len() > 0 ==> r == Some(old(self)@.last()) && final(self)@
                == old(self)@.drop_last(),
    {
        self.data.pop()
    }

    /// Removes the item at `index`, shifting the later ones down; `index` must be in
    /// bounds.
    pub fn remove(&mut self, index: usize) -> (r: T)
        requires
            index < old(self)@.len(),
        ensures
            r == old(self)@[index as int],
            final(self)@ == old(self)@.remove(index as int),
    {
        self.data.remove(index)
    }

    /// Inserts `val` at `index`, shifting the later items up; the list must not be full
    /// and `index` must not be past the end.
    pub fn insert(&mut self, index: usize, val: T)
        requires
            old(self)@.len() < CAP,
            index <= old(self)@.len(),
        ensures
            final(self)@ == old(self)@.insert(index as int, val),
    {
        self.data.insert(index, val);
    }

    pub fn clear(&mut self)
        ensures
            final(self)@ == Seq::<T>::empty(),
    {
        self.data.clear();
    }

    pub fn as_slice(&self) -> (r: &[T])
        ensures
            r@ == self@,
    {
        self.data.as_slice()
    }

    /// The item at `index`, if `index` is in bounds.
    pub fn get(&self, index: usize) -> (r: Option<T>)
        ensures
            index < self@.len() ==> r == Some(self@[index as int]),
            index >= self@.len() ==> r is None,
    {
        if index < self.data.len() {
            Some(self.data[index])
        } else {
            None
        }
    }

    /// The item at `index`, which must be in bounds.
    pub fn at(&self, index: usize) -> (r: T)
        requires
            index < self@.len(),
        ensures
            r == self@[index as int],
    {
        self.data[index]
    }

    /// Replaces the item at `index`, which must be in bounds.
    pub fn set(&mut self, index: usize, val: T)
        requires
            index < old(self)@.len(),
        ensures
            final(self)@ == old(self)@.update(index as int, val),
    {
        self.data.set(index, val);
    }

    /// Appends every item of `items` in order; they must fit.
    pub fn extend(&mut self, items: &[T])
        requires
            old(self)@.len() + items@.len() <= CAP,
        ensures
            final(self)@ == old(self)@ + items@,
    {
        let mut i: usize = 0;
        while i < items.len()
            invariant
                0 <= i <= items@.len(),
                old(self)@.len() + items@.len() <= CAP,
                self@ == old(self)@ + items@.subrange(0, i as int),
            decreases items@.len() - i,
        {
            proof {
                assert(items@.subrange(0, i as int + 1) =~= items@.subrange(0, i as int).push(
                    items@[i as int],
                ));
            }
            self.data.push(items[i]);
            i = i + 1;
        }
        proof {
            assert(items@.subrange(0, items@.len() as int) =~= items@);
        }
    }

    /// An item-by-item copy.
    pub(crate) fn duplicate(&self) -> (r: Self)
        ensures
            r@ == self@,
    {
        let mut data: Vec<T> = Vec::new();
        let mut i: usize = 0;
        while i < self.data.len()
            invariant
                0 <= i <= self@.len(),
                data@ == self@.subrange(0, i as int),
            decreases self@.len() - i,
        {
            proof {
                assert(self@.subrange(0, i as int + 1) =~= self@.subrange(0, i as int).push(
                    self@[i as int],
                ));
            }
            data.push(self.data[i]);
            i = i + 1;
        }
        proof {
            assert(self@.subrange(0, self@.len() as int) =~= self@);
        }
        StackVec { data }
    }
}

/// The items of a `StackVec`, handed out one by one from the first.
pub struct StackVecIntoIter<T: Copy, const CAP: usize> {
    vec: StackVec<T, CAP>,
    idx: usize,
}

impl<T: Copy, const CAP: usize> StackVecIntoIter<T, CAP> {
    /// The items not handed out yet.
    pub closed spec fn remaining(&self) -> Seq<T> {
        self.vec@.subrange(self.idx as int, self.vec@.len() as int)
    }

    pub closed spec fn wf(&self) -> bool {
        self.idx <= self.vec@.len()
    }

    /// The next item, if any.
    pub fn next(&mut self) -> (r: Option<T>)
        requires
            old(self).wf(),
        ensures
            final(self).wf(),
            old(self).remaining().len() == 0 ==> r is None && final(self).remaining() == old(self).remaining(),
            old(self).remaining().len() > 0 ==> r == Some(old(self).remaining()[0]) && final(self).remaining()
                == old(self).remaining().drop_first(),
    {
        if self.idx < self.vec.len() {
            let item = self.vec.at(self.idx);
            self.idx = self.idx + 1;
            proof {
                assert(self.remaining() =~= old(self).remaining().drop_first());
            }
            Some(item)
        } else {
            None
        }
    }
}

impl<T: Copy, const CAP: usize> StackVec<T, CAP> {
    /// Hands out the items one by one, from the first.
    pub fn into_iter(self) -> (r: StackVecIntoIter<T, CAP>)
        ensures
            r.wf(),
            r.remaining() == self@,
    {
        let r = StackVecIntoIter { vec: self, idx: 0 };
        proof {
            assert(r.remaining() =~= self@);
        }
        r
    }
}

impl<const CAP: usize> StackVec<GemType, CAP> {
    /// Puts the tokens in the order a generator seeded with `seed` shuffles them into.
    pub fn shuffle_seeded(&mut self, seed: u64)
        ensures
            final(self)@ == spec_seeded_gem_order(old(self)@, seed),
            final(self)@.to_multiset() == old(self)@.to_multiset(),
            final(self)@.len() == old(self)@.len(),
    {
        shuffle_gems_seeded(&mut self.data, seed);
    }
}

/// What `StackVec::insert` then `StackVec::remove` at the same index do: the insert puts
/// the item between the first `index` items and the rest, one longer; the remove gives the
/// item back and leaves the list as it was before the insert.
pub proof fn lemma_insert_then_remove<T>(s: Seq<T>, index: int, val: T)
    requires
        0 <= index <= s.len(),
    ensures
        s.insert(index, val) == s.subrange(0, index) + seq![val] + s.subrange(index, s.len() as int),
        s.insert(index, val).len() == s.len() + 1,
        s.insert(index, val)[index] == val,
        s.insert(index, val).remove(index) == s,
{
    assert(s.insert(index, val) =~= s.subrange(0, index) + seq![val] + s.subrange(index, s.len() as int));
    assert(s.insert(index, val).remove(index) =~= s);
}

/// Shuffles three card lists and then a token list with one generator seeded from
/// `seed`, as a deal does.
pub fn shuffle_deal<const C: usize, const B: usize>(
    l0: &mut StackVec<JewelCard, C>,
    l1: &mut StackVec<JewelCard, C>,
    l2: &mut StackVec<JewelCard, C>,
    bag: &mut StackVec<GemType, B>,
    seed: u64,
)
    ensures
        (final(l0)@, final(l1)@, final(l2)@, final(bag)@) == spec_seeded_deal(old(l0)@, old(l1)@, old(l2)@, old(bag)@, seed),
        final(l0)@.len() == old(l0)@.len(),
        final(l1)@.len() == old(l1)@.len(),
        final(l2)@.len() == old(l2)@.len(),
        final(bag)@.len() == old(bag)@.len(),
        final(l0)@.to_multiset() == old(l0)@.to_multiset(),
        final(l1)@.to_multiset() == old(l1)@.to_multiset(),
        final(l2)@.to_multiset() == old(l2)@.to_multiset(),
        final(bag)@.to_multiset() == old(bag)@.to_multiset(),
{
    shuffle_deal_seeded(&mut l0.data, &mut l1.data, &mut l2.data, &mut bag.data, seed);
}

} // verus!
