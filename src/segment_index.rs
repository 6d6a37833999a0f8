//! An append-only table of increasing offsets, searchable in logarithmic time.
use vstd::prelude::*;

verus! {

/// Every element is smaller than the one after it.
pub open spec fn strictly_increasing(s: Seq<usize>) -> bool {
    forall|i: int, j: int| 0 <= i < j < s.len() ==> s[i] < s[j]
}

/// Number of elements of `s` smaller than `v`.
pub open spec fn count_below(s: Seq<usize>, v: int) -> nat
    decreases s.len(),
{
    if s.len() == 0 {
        0
    } else {
        count_below(s.drop_last(), v) + if s.last() < v {
            1nat
        } else {
            0nat
        }
    }
}

/// In a strictly increasing sequence, a split point with every element before it
/// below `v` and every element from it on at least `v` is the count below `v`.
pub proof fn lemma_split_point_is_count(s: Seq<usize>, v: int, i: int)
    requires
        strictly_increasing(s),
        0 <= i <= s.len(),
        forall|j: int| 0 <= j < i ==> s[j] < v,
        forall|j: int| i <= j < s.len() ==> s[j] >= v,
    ensures
        count_below(s, v) == i,
    decreases s.len(),
{
    if s.len() > 0 {
        let t = s.drop_last();
        if i == s.len() {
            lemma_split_point_is_count(t, v, i - 1);
        } else {
            lemma_split_point_is_count(t, v, i);
        }
    }
}

/// A strictly increasing sequence of values below `n` has at most `n` elements.
pub proof fn lemma_increasing_below_len(s: Seq<usize>, n: int)
    requires
        0 <= n,
        strictly_increasing(s),
        forall|k: int| 0 <= k < s.len() ==> s[k] < n,
    ensures
        s.len() <= n,
    decreases s.len(),
{
    if s.len() > 0 {
        let t = s.drop_last();
        assert forall|k: int| 0 <= k < t.len() implies t[k] < s.last() by {
            assert(s[k] < s[s.len() - 1]);
        }
        lemma_increasing_below_len(t, s.last() as int);
        assert(s.last() < n);
    }
}

/// Counting below a larger bound never gives less.
pub proof fn lemma_count_below_monotonic(s: Seq<usize>, v: int, w: int)
    requires
        v <= w,
    ensures
        count_below(s, v) <= count_below(s, w),
    decreases s.len(),
{
    if s.len() > 0 {
        lemma_count_below_monotonic(s.drop_last(), v, w);
    }
}

/// A table of strictly increasing offsets, filled in one pass.
#[derive(Debug, Hash)]
pub struct SegmentIndex {
    offsets: Vec<usize>,
}

impl View for SegmentIndex {
    type V = Seq<usize>;

    closed spec fn view(&self) -> Seq<usize> {
        self.offsets@
    }
}

impl SegmentIndex {
    /// An empty table.
    pub fn new() -> (r: SegmentIndex)
        ensures
            r@ == Seq::<usize>::empty(),
            strictly_increasing(r@),
    {
        SegmentIndex { offsets: Vec::new() }
    }

    /// Appends an offset greater than every stored one, which keeps the
    /// table strictly increasing.
    pub fn push(&mut self, offset: usize)
        requires
            old(self)@.len() == 0 || old(self)@.last() < offset,
        ensures
            final(self)@ == old(self)@.push(offset),
            strictly_increasing(old(self)@) ==> strictly_increasing(final(self)@),
    {
        self.offsets.push(offset);
    }

    /// Number of stored offsets.
    pub fn len(&self) -> (r: usize)
        ensures
            r == self@.len(),
    {
        self.offsets.len()
    }

    /// The offset at `i`, or `None` past the end.
    pub fn get(&self, i: usize) -> (r: Option<usize>)
        ensures
            r == (if i < self@.len() {
                Some(self@[i as int])
            } else {
                None
            }),
    {
        if i < self.offsets.len() {
            Some(self.offsets[i])
        } else {
            None
        }
    }

    /// The offset at `i`, which must exist.
    pub fn index(&self, i: usize) -> (r: usize)
        requires
            i < self@.len(),
        ensures
            r == self@[i as int],
    {
        self.offsets[i]
    }

    /// Searches a value: `Ok` with its place when it is stored, else `Err` with
    /// the place where it would be inserted.
    pub fn binary_search(&self, v: usize) -> (r: Result<usize, usize>)
        requires
            strictly_increasing(self@),
        ensures
            match r {
                Ok(i) => i < self@.len() && self@[i as int] == v,
                Err(i) => i <= self@.len() && (forall|j: int| 0 <= j < i ==> self@[j] < v) && (
                forall|j: int| i <= j < self@.len() ==> self@[j] > v),
            },
    {
        let mut lo: usize = 0;
        let mut hi: usize = self.offsets.len();
        while lo < hi
            invariant
                0 <= lo <= hi <= self@.len(),
                strictly_increasing(self@),
                forall|j: int| 0 <= j < lo ==> self@[j] < v,
                forall|j: int| hi <= j < self@.len() ==> self@[j] > v,
            decreases hi - lo,
        {
            let mid = lo + (hi - lo) / 2;
            let x = self.offsets[mid];
            if x == v {
                return Ok(mid);
            } else if x < v {
                lo = mid + 1;
            } else {
                hi = mid;
            }
        }
        Err(lo)
    }

    /// A double-ended cursor over all stored offsets.
    pub fn iter(&self) -> (r: IndexIter<'_>)
        ensures
            r.table() == self@,
            r.front() == 0,
            r.back() == self@.len(),
    {
        IndexIter { index: self, front: 0, back: self.offsets.len() }
    }
}

/// A double-ended, sized cursor over the offsets of a [`SegmentIndex`].
#[derive(Debug)]
pub struct IndexIter<'a> {
    index: &'a SegmentIndex,
    front: usize,
    back: usize,
}

impl<'a> IndexIter<'a> {
    /// The offsets walked over.
    pub closed spec fn table(&self) -> Seq<usize> {
        self.index@
    }

    /// Place of the next offset from the front.
    pub closed spec fn front(&self) -> nat {
        self.front as nat
    }

    /// One past the place of the next offset from the back.
    pub closed spec fn back(&self) -> nat {
        self.back as nat
    }

    /// The offsets not yet handed out, in order.
    pub open spec fn remaining(&self) -> Seq<usize> {
        self.table().subrange(self.front() as int, self.back() as int)
    }

    #[verifier::type_invariant]
    spec fn inv(&self) -> bool {
        self.front <= self.back <= self.index@.len()
    }

    /// The cursor's bounds are in order and within the table.
    pub open spec fn bounded(&self) -> bool {
        self.front() <= self.back() <= self.table().len()
    }

    /// Hands out the first offset not yet handed out.
    pub fn next(&mut self) -> (r: Option<usize>)
        ensures
            old(self).bounded(),
            final(self).bounded(),
            final(self).table() == old(self).table(),
            final(self).back() == old(self).back(),
            old(self).remaining().len() == 0 ==> r is None && final(self).front() == old(
                self,
            ).front(),
            old(self).remaining().len() > 0 ==> r == Some(old(self).remaining()[0])
                && final(self).front() == old(self).front() + 1,
    {
        proof {
            use_type_invariant(&*self);
        }
        if self.front < self.back {
            let v = self.index.index(self.front);
            self.front = self.front + 1;
            Some(v)
        } else {
            None
        }
    }

    /// Hands out the last offset not yet handed out.
    pub fn next_back(&mut self) -> (r: Option<usize>)
        ensures
            old(self).bounded(),
            final(self).bounded(),
            final(self).table() == old(self).table(),
            final(self).front() == old(self).front(),
            old(self).remaining().len() == 0 ==> r is None && final(self).back() == old(
                self,
            ).back(),
            old(self).remaining().len() > 0 ==> r == Some(old(self).remaining().last())
                && final(self).back() == old(self).back() - 1,
    {
        proof {
            use_type_invariant(&*self);
        }
        if self.front < self.back {
            self.back = self.back - 1;
            Some(self.index.index(self.back))
        } else {
            None
        }
    }

    /// Number of offsets not yet handed out.
    pub fn len(&self) -> (r: usize)
        ensures
            r == self.remaining().len(),
    {
        proof {
            use_type_invariant(self);
        }
        self.back - self.front
    }
}

impl Clone for SegmentIndex {
    fn clone(&self) -> (r: Self)
        ensures
            r@ == self@,
    {
        let offsets = self.offsets.clone();
        proof {
            assert(offsets@ =~= self.offsets@);
        }
        SegmentIndex { offsets }
    }
}

impl<'a> Clone for IndexIter<'a> {
    fn clone(&self) -> (r: Self)
        ensures
            r == *self,
    {
        proof {
            use_type_invariant(self);
        }
        IndexIter { index: self.index, front: self.front, back: self.back }
    }
}

} // verus!
