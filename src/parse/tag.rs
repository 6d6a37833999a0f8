//! A literal sequence of grapheme clusters, written as a slice of strings.
use vstd::prelude::*;

verus! {

/// A literal sequence of grapheme clusters, one string per cluster, usable to
/// match a span without building a source for it.
#[derive(Debug, Clone, Copy, PartialEq, Eq, PartialOrd, Ord, Hash)]
pub struct Tag<'slice, 'seg>(
    /// The clusters' texts.
    pub &'slice [&'seg str],
);

impl<'slice, 'seg> Tag<'slice, 'seg> {
    /// Number of grapheme clusters.
    pub fn len(self) -> (r: usize)
        ensures
            r == self.0@.len(),
    {
        self.0.len()
    }

    /// Walks over the clusters' texts in order.
    pub fn segments(self) -> (r: SegmentContents<'slice, 'seg>)
        ensures
            r@ == self.0@,
    {
        SegmentContents { items: self.0, front: 0 }
    }
}

/// The clusters' texts of a [`Tag`], handed out in order.
#[derive(Debug)]
pub struct SegmentContents<'slice, 'seg> {
    items: &'slice [&'seg str],
    front: usize,
}

impl<'slice, 'seg> View for SegmentContents<'slice, 'seg> {
    type V = Seq<&'seg str>;

    /// The texts not yet handed out.
    closed spec fn view(&self) -> Seq<&'seg str> {
        self.items@.subrange(self.front as int, self.items@.len() as int)
    }
}

impl<'slice, 'seg> SegmentContents<'slice, 'seg> {
    #[verifier::type_invariant]
    spec fn inv(&self) -> bool {
        self.front <= self.items@.len()
    }

    /// Hands out the next text.
    pub fn next(&mut self) -> (r: Option<&'seg str>)
        ensures
            old(self)@.len() == 0 ==> r is None && final(self)@ == old(self)@,
            old(self)@.len() > 0 ==> r == Some(old(self)@[0]) && final(self)@ == old(
                self,
            )@.drop_first(),
    {
        proof {
            use_type_invariant(&*self);
        }
        if self.front < self.items.len() {
            let s = self.items[self.front];
            self.front = self.front + 1;
            proof {
                assert(self@ =~= old(self)@.drop_first());
            }
            Some(s)
        } else {
            None
        }
    }

    /// Number of texts not yet handed out.
    pub fn len(&self) -> (r: usize)
        ensures
            r == self@.len(),
    {
        proof {
            use_type_invariant(self);
        }
        self.items.len() - self.front
    }
}

impl<'slice, 'seg> Clone for SegmentContents<'slice, 'seg> {
    fn clone(&self) -> (r: Self)
        ensures
            r@ == self@,
    {
        proof {
            use_type_invariant(self);
        }
        SegmentContents { items: self.items, front: self.front }
    }
}

} // verus!
