//! Typed indices and the arenas that hand them out.
use core::marker::PhantomData;
use core::ops::Range;
use vstd::prelude::*;
use vstd::slice::slice_subrange;

verus! {

/// A typed index: a plain number that names one slot of an arena.
pub trait Idx: Copy + Eq + core::hash::Hash + core::fmt::Debug + Sized {
    /// The number this index stands for.
    spec fn nat_of(self) -> nat;

    /// Two indices with the same number are the same index.
    proof fn lemma_nat_of_injective(a: Self, b: Self)
        requires
            a.nat_of() == b.nat_of(),
        ensures
            a == b,
    ;

    fn from_usize(i: usize) -> (r: Self)
        requires
            i <= u32::MAX,
        ensures
            r.nat_of() == i,
    ;

    fn index(self) -> (r: usize)
        ensures
            r == self.nat_of(),
    ;
}

/// A vector addressed by a typed index.
#[derive(Debug, Clone)]
pub struct IndexVec<I: Idx, V> {
    raw: Vec<V>,
    _marker: PhantomData<I>,
}

impl<I: Idx, V> View for IndexVec<I, V> {
    type V = Seq<V>;

    closed spec fn view(&self) -> Seq<V> {
        self.raw@
    }
}

impl<I: Idx, V> IndexVec<I, V> {
    pub fn new() -> (r: Self)
        ensures
            r@ == Seq::<V>::empty(),
    {
        Self { raw: Vec::new(), _marker: PhantomData }
    }

    /// Appends `v` and returns its index.
    pub fn push(&mut self, v: V) -> (i: I)
        requires
            old(self)@.len() <= u32::MAX,
        ensures
            final(self)@ == old(self)@.push(v),
            i.nat_of() == old(self)@.len(),
    {
        let i = I::from_usize(self.raw.len());
        self.raw.push(v);
        i
    }

    pub fn get(&self, i: I) -> (r: Option<&V>)
        ensures
            r is Some <==> i.nat_of() < self@.len(),
            r matches Some(v) ==> *v == self@[i.nat_of() as int],
    {
        let k = i.index();
        if k < self.raw.len() {
            Some(&self.raw[k])
        } else {
            None
        }
    }

    pub fn len(&self) -> (r: usize)
        ensures
            r == self@.len(),
    {
        self.raw.len()
    }

    pub fn is_empty(&self) -> (r: bool)
        ensures
            r == (self@.len() == 0),
    {
        self.raw.len() == 0
    }

    /// The index the next `push` will hand out.
    pub fn next_idx(&self) -> (r: I)
        requires
            self@.len() <= u32::MAX,
        ensures
            r.nat_of() == self@.len(),
    {
        I::from_usize(self.raw.len())
    }

    /// The elements, in order.
    pub fn iter(&self) -> (r: Vec<&V>)
        ensures
            r@.len() == self@.len(),
            forall|k: int| 0 <= k < self@.len() ==> *r@[k] == self@[k],
    {
        let mut r: Vec<&V> = Vec::new();
        let mut k: usize = 0;
        while k < self.raw.len()
            invariant
                k <= self.raw@.len(),
                r@.len() == k,
                forall|j: int| 0 <= j < k ==> *r@[j] == self.raw@[j],
            decreases self.raw@.len() - k,
        {
            r.push(&self.raw[k]);
            k += 1;
        }
        r
    }

    /// The elements with their indices, in order.
    pub fn iter_enumerated(&self) -> (r: Vec<(I, &V)>)
        requires
            self@.len() <= u32::MAX + 1,
        ensures
            r@.len() == self@.len(),
            forall|k: int|
                0 <= k < self@.len() ==> (#[trigger] r@[k]).0.nat_of() == k && *r@[k].1 == self@[k],
    {
        let mut r: Vec<(I, &V)> = Vec::new();
        let mut k: usize = 0;
        while k < self.raw.len()
            invariant
                k <= self.raw@.len() <= u32::MAX + 1,
                r@.len() == k,
                forall|j: int|
                    0 <= j < k ==> (#[trigger] r@[j]).0.nat_of() == j && *r@[j].1 == self.raw@[j],
            decreases self.raw@.len() - k,
        {
            r.push((I::from_usize(k), &self.raw[k]));
            k += 1;
        }
        r
    }

}

impl<I: Idx, V> core::ops::Index<I> for IndexVec<I, V> {
    type Output = V;

    fn index(&self, i: I) -> (r: &V)
        ensures
            *r == self@[i.nat_of() as int],
    {
        &self.raw[i.index()]
    }
}

impl<I: Idx, V> core::ops::IndexMut<I> for IndexVec<I, V> {
    fn index_mut(&mut self, i: I) -> (r: &mut V)
        requires
            i.nat_of() < old(self)@.len(),
        ensures
            *r == old(self)@[i.nat_of() as int],
            final(self)@ == old(self)@.update(i.nat_of() as int, *final(r)),
    {
        &mut self.raw[i.index()]
    }
}

impl<I: Idx, V> vstd::std_specs::core::IndexSpecImpl<I> for IndexVec<I, V> {
    open spec fn index_req(&self, i: &I) -> bool {
        i.nat_of() < self@.len()
    }
}

impl<I: Idx, V> core::ops::Index<Range<I>> for IndexVec<I, V> {
    type Output = [V];

    fn index(&self, r: Range<I>) -> (s: &[V])
        ensures
            s@ == self@.subrange(r.start.nat_of() as int, r.end.nat_of() as int),
    {
        slice_subrange(self.raw.as_slice(), r.start.index(), r.end.index())
    }
}

impl<I: Idx, V> vstd::std_specs::core::IndexSpecImpl<Range<I>> for IndexVec<I, V> {
    open spec fn index_req(&self, r: &Range<I>) -> bool {
        r.start.nat_of() <= r.end.nat_of() <= self@.len()
    }
}

impl<I: Idx, V> core::ops::Index<RawRange<I>> for IndexVec<I, V> {
    type Output = [V];

    fn index(&self, r: RawRange<I>) -> (s: &[V])
        ensures
            s@ == self@.subrange(r.start_idx().nat_of() as int, r.end_idx().nat_of() as int),
    {
        slice_subrange(self.raw.as_slice(), r.start.index(), r.end.index())
    }
}

impl<I: Idx, V> vstd::std_specs::core::IndexSpecImpl<RawRange<I>> for IndexVec<I, V> {
    open spec fn index_req(&self, r: &RawRange<I>) -> bool {
        r.start_idx().nat_of() <= r.end_idx().nat_of() <= self@.len()
    }
}

impl<I: Idx, V> Default for IndexVec<I, V> {
    fn default() -> (r: Self)
        ensures
            r@ == Seq::<V>::empty(),
    {
        Self::new()
    }
}

/// A range of indices `[start, end)`, stored as its two ends.
#[derive(Debug, Copy, Clone, PartialEq, Eq, Hash)]
pub struct RawRange<T> {
    start: T,
    end: T,
}

impl<T> RawRange<T> {
    /// The first index of the range.
    pub closed spec fn start_idx(self) -> T {
        self.start
    }

    /// The index just past the range.
    pub closed spec fn end_idx(self) -> T {
        self.end
    }
}

impl<I: Idx> From<RawRange<I>> for Range<I> {
    fn from(value: RawRange<I>) -> (r: Self) {
        Range { start: value.start, end: value.end }
    }
}

impl<I: Idx> vstd::std_specs::convert::FromSpecImpl<RawRange<I>> for Range<I> {
    open spec fn obeys_from_spec() -> bool {
        true
    }

    open spec fn from_spec(value: RawRange<I>) -> Self {
        Range { start: value.start_idx(), end: value.end_idx() }
    }
}

impl<I: Idx> From<Range<I>> for RawRange<I> {
    fn from(value: Range<I>) -> (r: Self) {
        RawRange { start: value.start, end: value.end }
    }
}

impl<I: Idx> vstd::std_specs::convert::FromSpecImpl<Range<I>> for RawRange<I> {
    open spec fn obeys_from_spec() -> bool {
        true
    }

    closed spec fn from_spec(value: Range<I>) -> Self {
        RawRange { start: value.start, end: value.end }
    }
}

/// `PhantomData::clone`: std's `PhantomData` holds no data, so its clone is
/// the value itself.
pub assume_specification<T: core::marker::PointeeSized>[ <PhantomData<T> as Clone>::clone ](
    marker: &PhantomData<T>,
) -> (r: PhantomData<T>)
    ensures
        r == *marker,
;

/// A stretch of a pool of indices: `len` entries from position `start`.
#[derive(Debug, Copy, Clone, PartialEq, Eq, Hash)]
pub struct IdRange<I> {
    start: u32,
    len: u32,
    _marker: PhantomData<I>,
}

impl<I> IdRange<I> {
    /// The position of the first entry.
    pub closed spec fn first(self) -> nat {
        self.start as nat
    }

    /// The number of entries.
    pub closed spec fn count(self) -> nat {
        self.len as nat
    }

    pub fn empty() -> (r: Self)
        ensures
            r.first() == 0,
            r.count() == 0,
    {
        Self { start: 0, len: 0, _marker: PhantomData }
    }

    pub fn len(self) -> (r: usize)
        ensures
            r == self.count(),
    {
        self.len as usize
    }

    pub fn is_empty(self) -> (r: bool)
        ensures
            r == (self.count() == 0),
    {
        self.len == 0
    }
}

/// An arena of values together with a pool of index lists.
pub struct IndexPool<I: Idx, V> {
    items: IndexVec<I, V>,
    pool: Vec<I>,
}

impl<I: Idx, V> IndexPool<I, V> {
    /// The values, in the order they were allocated.
    pub closed spec fn items(&self) -> Seq<V> {
        self.items@
    }

    /// The pool of index lists, laid end to end.
    pub closed spec fn ids(&self) -> Seq<I> {
        self.pool@
    }

    pub fn new() -> (r: Self)
        ensures
            r.items() == Seq::<V>::empty(),
            r.ids() == Seq::<I>::empty(),
    {
        Self { items: IndexVec::new(), pool: Vec::new() }
    }

    /// Stores `v` and returns its index.
    pub fn allocate(&mut self, v: V) -> (i: I)
        requires
            old(self).items().len() <= u32::MAX,
        ensures
            final(self).items() == old(self).items().push(v),
            final(self).ids() == old(self).ids(),
            i.nat_of() == old(self).items().len(),
    {
        self.items.push(v)
    }

    pub fn get(&self, i: I) -> (r: &V)
        requires
            i.nat_of() < self.items().len(),
        ensures
            *r == self.items()[i.nat_of() as int],
    {
        &self.items[i]
    }

    pub fn get_mut(&mut self, i: I) -> (r: &mut V)
        requires
            i.nat_of() < old(self).items().len(),
        ensures
            *r == old(self).items()[i.nat_of() as int],
            final(self).items() == old(self).items().update(i.nat_of() as int, *final(r)),
            final(self).ids() == old(self).ids(),
    {
        core::ops::IndexMut::index_mut(self, i)
    }

    pub fn len(&self) -> (r: usize)
        ensures
            r == self.items().len(),
    {
        self.items.len()
    }

    /// The index the next `allocate` will hand out.
    pub fn next_idx(&self) -> (r: I)
        requires
            self.items().len() <= u32::MAX,
        ensures
            r.nat_of() == self.items().len(),
    {
        self.items.next_idx()
    }

    /// The values with their indices, in order.
    pub fn iter_enumerated(&self) -> (r: Vec<(I, &V)>)
        requires
            self.items().len() <= u32::MAX + 1,
        ensures
            r@.len() == self.items().len(),
            forall|k: int|
                0 <= k < self.items().len() ==> (#[trigger] r@[k]).0.nat_of() == k && *r@[k].1
                    == self.items()[k],
    {
        self.items.iter_enumerated()
    }

    /// Appends the list `ids` to the pool and returns where it stands. The
    /// position and the length are kept in 32 bits.
    pub fn alloc_range(&mut self, ids: &[I]) -> (r: IdRange<I>)
        ensures
            final(self).items() == old(self).items(),
            final(self).ids() == old(self).ids() + ids@,
            r.first() == old(self).ids().len() as u32,
            r.count() == ids@.len() as u32,
    {
        let start = self.pool.len() as u32;
        let mut k: usize = 0;
        while k < ids.len()
            invariant
                k <= ids@.len(),
                self.items == old(self).items,
                self.pool@ == old(self).pool@ + ids@.subrange(0, k as int),
            decreases ids@.len() - k,
        {
            self.pool.push(ids[k]);
            k += 1;
            assert(ids@.subrange(0, k as int) == ids@.subrange(0, k - 1) + seq![ids@[k - 1]]);
        }
        assert(ids@.subrange(0, ids@.len() as int) == ids@);
        IdRange { start, len: ids.len() as u32, _marker: PhantomData }
    }

    /// The list of indices that `r` stands for.
    pub fn range(&self, r: IdRange<I>) -> (s: &[I])
        requires
            r.first() + r.count() <= self.ids().len(),
        ensures
            s@ == self.ids().subrange(r.first() as int, (r.first() + r.count()) as int),
    {
        let s = r.start as usize;
        assert(self.pool@.len() == self.pool.len());
        slice_subrange(self.pool.as_slice(), s, s + r.len as usize)
    }

    /// Stores `values` one after another and returns the range of their
    /// indices.
    pub fn alloc_raw_range(&mut self, values: Vec<V>) -> (r: RawRange<I>)
        requires
            old(self).items().len() + values@.len() <= u32::MAX,
        ensures
            final(self).items() == old(self).items() + values@,
            final(self).ids() == old(self).ids(),
            r.start_idx().nat_of() == old(self).items().len(),
            r.end_idx().nat_of() == final(self).items().len(),
    {
        let start = self.items.next_idx();
        let mut values = values;
        let ghost all = values@;
        let ghost before = self.items@;
        let mut k: usize = 0;
        while values.len() > 0
            invariant
                k <= all.len(),
                values@ == all.subrange(k as int, all.len() as int),
                self.items@ == before + all.subrange(0, k as int),
                before.len() + all.len() <= u32::MAX,
                self.pool == old(self).pool,
            decreases values@.len(),
        {
            let v = values.remove(0);
            self.items.push(v);
            k += 1;
            assert(all.subrange(0, k as int) == all.subrange(0, k - 1) + seq![all[k - 1]]);
        }
        assert(all.subrange(0, all.len() as int) == all);
        let end = self.items.next_idx();
        RawRange { start, end }
    }

    /// The values that a raw range covers.
    pub fn raw_range(&self, r: RawRange<I>) -> (s: &[V])
        requires
            r.start_idx().nat_of() <= r.end_idx().nat_of() <= self.items().len(),
        ensures
            s@ == self.items().subrange(r.start_idx().nat_of() as int, r.end_idx().nat_of() as int),
    {
        &self.items[r]
    }
}

impl<I: Idx, V> core::ops::Index<I> for IndexPool<I, V> {
    type Output = V;

    fn index(&self, i: I) -> (r: &V)
        ensures
            *r == self.items()[i.nat_of() as int],
    {
        &self.items[i]
    }
}

impl<I: Idx, V> core::ops::IndexMut<I> for IndexPool<I, V> {
    fn index_mut(&mut self, i: I) -> (r: &mut V)
        requires
            i.nat_of() < old(self).items().len(),
        ensures
            *r == old(self).items()[i.nat_of() as int],
            final(self).items() == old(self).items().update(i.nat_of() as int, *final(r)),
            final(self).ids() == old(self).ids(),
    {
        core::ops::IndexMut::index_mut(&mut self.items, i)
    }
}

impl<I: Idx, V> vstd::std_specs::core::IndexSpecImpl<I> for IndexPool<I, V> {
    open spec fn index_req(&self, i: &I) -> bool {
        i.nat_of() < self.items().len()
    }
}

impl<I: Idx, V> Default for IndexPool<I, V> {
    fn default() -> (r: Self)
        ensures
            r.items() == Seq::<V>::empty(),
            r.ids() == Seq::<I>::empty(),
    {
        Self::new()
    }
}

/// A push appends: the pushed value sits at the index handed out, and the
/// values before it stay where they were.
pub proof fn lemma_push_then_get<V>(items: Seq<V>, v: V)
    ensures
        items.push(v)[items.len() as int] == v,
        items.push(v).len() == items.len() + 1,
        forall|k: int| 0 <= k < items.len() ==> #[trigger] items.push(v)[k] == items[k],
{
}

/// Reading back a range of indices gives the list that was stored, as long
/// as the pool's positions fit in 32 bits.
pub proof fn lemma_alloc_range_then_range<I>(pool: Seq<I>, ids: Seq<I>)
    requires
        pool.len() + ids.len() <= u32::MAX,
    ensures
        ({
            let first = (pool.len() as u32) as int;
            let count = (ids.len() as u32) as int;
            (pool + ids).subrange(first, first + count) == ids
        }),
{
    assert((pool + ids).subrange(pool.len() as int, (pool.len() + ids.len()) as int) =~= ids);
}

/// Reading back a raw range gives the values that were stored.
pub proof fn lemma_alloc_raw_range_then_raw_range<V>(items: Seq<V>, values: Seq<V>)
    ensures
        (items + values).subrange(items.len() as int, (items + values).len() as int) == values,
{
    assert((items + values).subrange(items.len() as int, (items + values).len() as int) =~= values);
}

/// Converting a raw range into a `Range` and back gives the raw range again,
/// and the other way round.
pub proof fn lemma_range_conversions_undo<I: Idx>(r: RawRange<I>, q: Range<I>)
    ensures
        <RawRange<I> as vstd::std_specs::convert::FromSpec<Range<I>>>::from_spec(
            <Range<I> as vstd::std_specs::convert::FromSpec<RawRange<I>>>::from_spec(r),
        ) == r,
        <Range<I> as vstd::std_specs::convert::FromSpec<RawRange<I>>>::from_spec(
            <RawRange<I> as vstd::std_specs::convert::FromSpec<Range<I>>>::from_spec(q),
        ) == q,
{
}

} // verus!
