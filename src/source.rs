//! The source text object: a named text split once into grapheme clusters,
//! with the positions of its line feeds.
use crate::location::Location;
use crate::segment_index::{
    count_below,
    lemma_increasing_below_len,
    lemma_split_point_is_count,
    strictly_increasing,
    IndexIter,
    SegmentIndex,
};
use crate::span::Span;
use crate::text::{byte_slice, grapheme_start_offsets, grapheme_starts};
pub use crate::text::count_grapheme_clusters;
use std::rc::Rc;
use vstd::prelude::*;
use vstd::string::StringSliceAdditionalSpecFns;
use vstd::utf8::*;

verus! {

broadcast use vstd::utf8::group_utf8_lib;

/// What a [`Source`] holds, as mathematical values.
pub struct SourceModel {
    /// The display name.
    pub name: Seq<char>,
    /// The text.
    pub text: Seq<char>,
    /// Byte offset of each grapheme cluster's start, then the text's byte length.
    pub bounds: Seq<usize>,
    /// Ordinal of each grapheme cluster that is a single line feed, in order.
    pub newlines: Seq<usize>,
}

impl SourceModel {
    /// The UTF-8 encoding of the text.
    pub open spec fn bytes(self) -> Seq<u8> {
        encode_utf8(self.text)
    }

    /// Number of grapheme clusters.
    pub open spec fn len(self) -> nat {
        if self.bounds.len() == 0 {
            0
        } else {
            (self.bounds.len() - 1) as nat
        }
    }

    /// The bytes of the grapheme clusters from ordinal `a` up to, not
    /// including, ordinal `b`.
    pub open spec fn range_bytes(self, a: int, b: int) -> Seq<u8> {
        self.bytes().subrange(self.bounds[a] as int, self.bounds[b] as int)
    }

    /// The bytes of the grapheme cluster at ordinal `i`.
    pub open spec fn segment_bytes(self, i: int) -> Seq<u8> {
        self.range_bytes(i, i + 1)
    }

    /// The grapheme cluster at ordinal `i` is a single line feed.
    pub open spec fn is_line_feed_at(self, i: int) -> bool {
        self.segment_bytes(i) == seq![10u8]
    }

    /// The line of ordinal `p`: the number of line feeds before it.
    pub open spec fn line_of(self, p: int) -> nat {
        count_below(self.newlines, p)
    }

    /// The ordinal at which line `line` starts; line 0 starts at 0 and every
    /// other one just after a line feed.
    pub open spec fn line_start_of(self, line: int) -> int {
        if line == 0 {
            0
        } else {
            self.newlines[line - 1] + 1
        }
    }

    /// The boundaries split the text into non-empty pieces at char boundaries,
    /// and the line feed table lists exactly the clusters that are line feeds.
    pub open spec fn wf(self) -> bool {
        &&& 1 <= self.bounds.len() <= usize::MAX
        &&& self.bounds[0] == 0
        &&& self.bounds.last() == self.bytes().len()
        &&& strictly_increasing(self.bounds)
        &&& forall|i: int|
            0 <= i < self.bounds.len() ==> is_char_boundary(
                self.bytes(),
                #[trigger] self.bounds[i] as int,
            )
        &&& strictly_increasing(self.newlines)
        &&& forall|k: int|
            0 <= k < self.newlines.len() ==> #[trigger] self.newlines[k] < self.len()
                && self.is_line_feed_at(self.newlines[k] as int)
        &&& forall|i: int|
            0 <= i < self.len() && #[trigger] self.is_line_feed_at(i) ==> self.newlines.contains(
                i as usize,
            )
    }
}

/// The bytes of the cluster starting at `starts[j]`, up to the next start or
/// the end of `b`.
spec fn piece(b: Seq<u8>, starts: Seq<usize>, j: int) -> Seq<u8> {
    let e = if j + 1 < starts.len() {
        starts[j + 1] as int
    } else {
        b.len() as int
    };
    b.subrange(starts[j] as int, e)
}

#[derive(Debug, Hash)]
struct SourceInner {
    name: String,
    contents: String,
    segments: SegmentIndex,
    newlines: SegmentIndex,
}

/// A named source text. Cloning it shares the text; two sources are equal only
/// when they are handles to one and the same construction.
#[derive(Debug, Hash)]
pub struct Source {
    inner: Rc<SourceInner>,
}

impl View for Source {
    type V = SourceModel;

    closed spec fn view(&self) -> SourceModel {
        SourceModel {
            name: self.inner.name@,
            text: self.inner.contents@,
            bounds: self.inner.segments@,
            newlines: self.inner.newlines@,
        }
    }
}

/// Relies on std's `Rc::clone`: the new handle points at the same value.
#[verifier::external_body]
fn share<T>(rc: &Rc<T>) -> (r: Rc<T>)
    ensures
        r == *rc,
{
    Rc::clone(rc)
}

/// Relies on std's `Rc::ptr_eq`: two handles to one allocation hold one value.
#[verifier::external_body]
fn same_allocation<T>(a: &Rc<T>, b: &Rc<T>) -> (r: bool)
    ensures
        r ==> *a == *b,
{
    Rc::ptr_eq(a, b)
}

/// The offsets at which the grapheme clusters of a text with bytes `b` start:
/// from 0, strictly increasing, below the length, each on a char boundary.
pub open spec fn valid_starts(b: Seq<u8>, starts: Seq<usize>) -> bool {
    &&& (starts.len() == 0 <==> b.len() == 0)
    &&& starts.len() > 0 ==> starts[0] == 0
    &&& strictly_increasing(starts)
    &&& forall|k: int|
        0 <= k < starts.len() ==> starts[k] < b.len() && is_char_boundary(
            b,
            #[trigger] starts[k] as int,
        )
}

/// The cluster table and the line feed table of `text`, split into grapheme
/// clusters at `starts`: the starts followed by the byte length, and the
/// ordinals of the clusters that are a single line feed.
pub fn index_clusters(text: &str, starts: &Vec<usize>) -> (r: (SegmentIndex, SegmentIndex))
    requires
        valid_starts(text.spec_bytes(), starts@),
    ensures
        r.0@ == starts@.push(text.spec_bytes().len() as usize),
        (SourceModel { name: Seq::empty(), text: text@, bounds: r.0@, newlines: r.1@ }).wf(),
{
    let bytes = text.as_bytes();
    let total = bytes.len();
    let ghost b = text.spec_bytes();
    let mut segments = SegmentIndex::new();
    let mut newlines = SegmentIndex::new();
    let n = starts.len();
    let mut i: usize = 0;
    while i < n
        invariant
            b == encode_utf8(text@),
            bytes@ == b,
            total == b.len(),
            n == starts@.len(),
            valid_starts(b, starts@),
            0 <= i <= n,
            segments@ == starts@.subrange(0, i as int),
            strictly_increasing(newlines@),
            forall|k: int|
                0 <= k < newlines@.len() ==> #[trigger] newlines@[k] < i && piece(
                    b,
                    starts@,
                    newlines@[k] as int,
                ) == seq![10u8],
            forall|j: int|
                0 <= j < i && #[trigger] piece(b, starts@, j) == seq![10u8]
                    ==> newlines@.contains(j as usize),
        decreases n - i,
    {
        let start = starts[i];
        let end = if i + 1 < n {
            starts[i + 1]
        } else {
            total
        };
        let ghost cluster = piece(b, starts@, i as int);
        if end - start == 1 && bytes[start] == 10u8 {
            proof {
                assert(cluster =~= seq![10u8]);
            }
            let ghost before = newlines@;
            newlines.push(i);
            proof {
                assert(newlines@[before.len() as int] == i);
                assert forall|j: int|
                    0 <= j < i && #[trigger] piece(b, starts@, j) == seq![10u8]
                        implies newlines@.contains(j as usize) by {
                    let k = choose|k: int| 0 <= k < before.len() && before[k] == j as usize;
                    assert(newlines@[k] == j as usize);
                }
            }
        } else {
            proof {
                if cluster == seq![10u8] {
                    assert(cluster.len() == 1);
                    assert(cluster[0] == b[start as int]);
                }
            }
        }
        segments.push(start);
        proof {
            assert(segments@ =~= starts@.subrange(0, i + 1));
        }
        i = i + 1;
    }
    proof {
        assert(segments@ =~= starts@);
        is_char_boundary_start_end_of_seq(b);
    }
    segments.push(total);
    // The table's length fits a usize, which the well-formedness below states.
    let _ = segments.len();
    proof {
        let m = SourceModel {
            name: Seq::empty(),
            text: text@,
            bounds: segments@,
            newlines: newlines@,
        };
        assert(m.bytes() == b);
        assert(m.bounds =~= starts@.push(total));
        assert forall|x: int, y: int| 0 <= x < y < m.bounds.len() implies m.bounds[x]
            < m.bounds[y] by {
            if y < n {
                assert(starts@[x] < starts@[y]);
            } else {
                assert(starts@[x] < total);
            }
        }
        assert forall|x: int| 0 <= x < m.bounds.len() implies is_char_boundary(
            b,
            #[trigger] m.bounds[x] as int,
        ) by {
            if x < n {
                assert(is_char_boundary(b, starts@[x] as int));
            }
        }
        assert forall|j: int| 0 <= j < m.len() implies m.segment_bytes(j) == piece(
            b,
            starts@,
            j,
        ) by {}
        assert forall|k: int| 0 <= k < m.newlines.len() implies #[trigger] m.newlines[k]
            < m.len() && m.is_line_feed_at(m.newlines[k] as int) by {
            assert(m.segment_bytes(m.newlines[k] as int) == piece(
                b,
                starts@,
                m.newlines[k] as int,
            ));
        }
        assert forall|j: int| 0 <= j < m.len() && #[trigger] m.is_line_feed_at(j) implies m.newlines.contains(
            j as usize,
        ) by {
            assert(m.segment_bytes(j) == piece(b, starts@, j));
        }
        assert(m.wf());
    }
    (segments, newlines)
}

impl Source {
    #[verifier::type_invariant]
    pub(crate) open spec fn inv(&self) -> bool {
        self@.wf()
    }

    /// Splits `contents` into extended grapheme clusters, recording where each
    /// one starts and which ones are line feeds.
    pub fn new(name: String, contents: String) -> (r: Source)
        ensures
            r@.name == name@,
            r@.text == contents@,
            r@.bounds == grapheme_starts(contents@).push(r@.bytes().len() as usize),
            r@.wf(),
    {
        let offsets = grapheme_start_offsets(contents.as_str());
        let (segments, newlines) = index_clusters(contents.as_str(), &offsets);
        proof {
            let unnamed = SourceModel {
                name: Seq::empty(),
                text: contents@,
                bounds: segments@,
                newlines: newlines@,
            };
            let named = SourceModel { name: name@, ..unnamed };
            assert(named.bytes() == unnamed.bytes());
            assert(named.len() == unnamed.len());
            assert forall|i: int| #[trigger] named.is_line_feed_at(i) == unnamed.is_line_feed_at(i) by {}
            assert(named.wf());
        }
        let inner = SourceInner { name, contents, segments, newlines };
        Source { inner: Rc::new(inner) }
    }

    /// The display name.
    pub fn name(&self) -> (r: &str)
        ensures
            r@ == self@.name,
    {
        self.inner.name.as_str()
    }

    /// Number of grapheme clusters.
    pub fn len(&self) -> (r: usize)
        ensures
            r == self@.len(),
            self@.wf(),
            self@.newlines.len() <= self@.len(),
    {
        proof {
            use_type_invariant(self);
            lemma_increasing_below_len(self@.newlines, self@.len() as int);
        }
        self.inner.segments.len() - 1
    }

    /// The text.
    pub fn contents(&self) -> (r: &str)
        ensures
            r@ == self@.text,
    {
        self.inner.contents.as_str()
    }

    /// The byte offset at which each grapheme cluster starts, then the text's
    /// byte length.
    pub fn seg_byte_indices(&self) -> (r: SegmentByteIndices<'_>)
        ensures
            r@ == self@.bounds,
    {
        SegmentByteIndices { inner: self.inner.segments.iter() }
    }

    /// The ordinal of each grapheme cluster that is a line feed.
    pub fn newline_indices(&self) -> (r: NewlineIndices<'_>)
        ensures
            r@ == self@.newlines,
    {
        NewlineIndices { inner: self.inner.newlines.iter() }
    }

    /// The line, counted from 0, that holds ordinal `position`.
    pub fn line(&self, position: usize) -> (r: usize)
        ensures
            r == self@.line_of(position as int),
            r <= self@.newlines.len() <= self@.len(),
            r > 0 ==> self@.newlines[r - 1] < position,
            r < self@.newlines.len() ==> self@.newlines[r as int] >= position,
            self@.wf(),
    {
        proof {
            use_type_invariant(self);
        }
        let r = match self.inner.newlines.binary_search(position) {
            Ok(n) => n,
            Err(n) => n,
        };
        proof {
            lemma_split_point_is_count(self@.newlines, position as int, r as int);
            lemma_increasing_below_len(self@.newlines, self@.len() as int);
        }
        r
    }

    /// The ordinal at which line `line` starts.
    pub fn line_start(&self, line: usize) -> (r: usize)
        requires
            line <= self@.newlines.len(),
        ensures
            r == self@.line_start_of(line as int),
            line == 0 ==> r == 0,
            r <= self@.len(),
    {
        proof {
            use_type_invariant(self);
        }
        if line == 0 {
            0
        } else {
            self.inner.newlines.index(line - 1) + 1
        }
    }

    /// The ordinal at which line `line` starts, or `None` past the last line.
    pub fn try_line_start(&self, line: usize) -> (r: Option<usize>)
        ensures
            r == (if line <= self@.newlines.len() {
                Some(self@.line_start_of(line as int) as usize)
            } else {
                None
            }),
            r matches Some(s) ==> s <= self@.len(),
    {
        proof {
            use_type_invariant(self);
        }
        if line == 0 {
            Some(0)
        } else {
            match self.inner.newlines.get(line - 1) {
                Some(position) => Some(position + 1),
                None => None,
            }
        }
    }

    /// The grapheme cluster at ordinal `position`, or `None` past the end.
    pub fn get(&self, position: usize) -> (r: Option<&str>)
        ensures
            r is Some <==> position < self@.len(),
            r matches Some(s) ==> s.spec_bytes() == self@.segment_bytes(position as int),
    {
        proof {
            use_type_invariant(self);
        }
        if position < self.len() {
            Some(self.slice_unchecked(position, position + 1))
        } else {
            None
        }
    }

    /// The grapheme clusters from ordinal `start` up to, not including, `end`,
    /// or `None` unless `start <= end <= len`.
    pub fn get_range(&self, start: usize, end: usize) -> (r: Option<&str>)
        ensures
            r is Some <==> start <= end <= self@.len(),
            r matches Some(s) ==> s.spec_bytes() == self@.range_bytes(start as int, end as int),
    {
        proof {
            use_type_invariant(self);
        }
        if start <= end && end <= self.len() {
            Some(self.slice_unchecked(start, end))
        } else {
            None
        }
    }

    /// The grapheme cluster at ordinal `position`, which must exist.
    pub fn index(&self, position: usize) -> (r: &str)
        requires
            position < self@.len(),
        ensures
            r.spec_bytes() == self@.segment_bytes(position as int),
    {
        proof {
            use_type_invariant(self);
        }
        self.slice_unchecked(position, position + 1)
    }

    /// The grapheme clusters from ordinal `start` up to `end`, which must be in
    /// order and within the text.
    pub fn index_range(&self, start: usize, end: usize) -> (r: &str)
        requires
            start <= end <= self@.len(),
        ensures
            r.spec_bytes() == self@.range_bytes(start as int, end as int),
    {
        self.slice_unchecked(start, end)
    }

    fn slice_unchecked(&self, start: usize, end: usize) -> (r: &str)
        requires
            start <= end <= self@.len(),
        ensures
            r.spec_bytes() == self@.range_bytes(start as int, end as int),
    {
        proof {
            use_type_invariant(self);
        }
        let a = self.inner.segments.index(start);
        let b = self.inner.segments.index(end);
        let text = self.inner.contents.as_str();
        byte_slice(text, a, b)
    }

    /// A span over the whole text.
    pub fn full_span(&self) -> (r: Span)
        ensures
            r@.source == self@,
            r@.start == 0,
            r@.len == self@.len(),
    {
        let n = self.len();
        Span::new(Location::new(self.clone(), 0), n)
    }
}

impl Clone for Source {
    fn clone(&self) -> (r: Self)
        ensures
            r@ == self@,
    {
        proof {
            use_type_invariant(self);
        }
        Source { inner: share(&self.inner) }
    }
}

impl PartialEq for Source {
    fn eq(&self, other: &Self) -> (r: bool)
        ensures
            r ==> self@ == other@,
    {
        same_allocation(&self.inner, &other.inner)
    }
}

impl vstd::std_specs::cmp::PartialEqSpecImpl for Source {
    open spec fn obeys_eq_spec() -> bool {
        false
    }

    open spec fn eq_spec(&self, other: &Source) -> bool {
        self@ == other@
    }
}

impl Eq for Source {

}

/// The byte offsets of the grapheme cluster boundaries of a [`Source`], from
/// either end.
#[derive(Debug, Clone)]
pub struct SegmentByteIndices<'src> {
    inner: IndexIter<'src>,
}

impl<'src> View for SegmentByteIndices<'src> {
    type V = Seq<usize>;

    closed spec fn view(&self) -> Seq<usize> {
        self.inner.remaining()
    }
}

impl<'src> SegmentByteIndices<'src> {
    /// Hands out the first offset not yet handed out.
    pub fn next(&mut self) -> (r: Option<usize>)
        ensures
            old(self)@.len() == 0 ==> r is None && final(self)@ == old(self)@,
            old(self)@.len() > 0 ==> r == Some(old(self)@[0]) && final(self)@ == old(
                self,
            )@.drop_first(),
    {
        let r = self.inner.next();
        proof {
            assert(self@ =~= if old(self)@.len() == 0 {
                old(self)@
            } else {
                old(self)@.drop_first()
            });
        }
        r
    }

    /// Hands out the last offset not yet handed out.
    pub fn next_back(&mut self) -> (r: Option<usize>)
        ensures
            old(self)@.len() == 0 ==> r is None && final(self)@ == old(self)@,
            old(self)@.len() > 0 ==> r == Some(old(self)@.last()) && final(self)@ == old(
                self,
            )@.drop_last(),
    {
        let r = self.inner.next_back();
        proof {
            assert(self@ =~= if old(self)@.len() == 0 {
                old(self)@
            } else {
                old(self)@.drop_last()
            });
        }
        r
    }

    /// Number of offsets not yet handed out.
    pub fn len(&self) -> (r: usize)
        ensures
            r == self@.len(),
    {
        self.inner.len()
    }
}

/// The ordinals of the line feeds of a [`Source`], from either end.
#[derive(Debug, Clone)]
pub struct NewlineIndices<'src> {
    inner: IndexIter<'src>,
}

impl<'src> View for NewlineIndices<'src> {
    type V = Seq<usize>;

    closed spec fn view(&self) -> Seq<usize> {
        self.inner.remaining()
    }
}

impl<'src> NewlineIndices<'src> {
    /// Hands out the first ordinal not yet handed out.
    pub fn next(&mut self) -> (r: Option<usize>)
        ensures
            old(self)@.len() == 0 ==> r is None && final(self)@ == old(self)@,
            old(self)@.len() > 0 ==> r == Some(old(self)@[0]) && final(self)@ == old(
                self,
            )@.drop_first(),
    {
        let r = self.inner.next();
        proof {
            assert(self@ =~= if old(self)@.len() == 0 {
                old(self)@
            } else {
                old(self)@.drop_first()
            });
        }
        r
    }

    /// Hands out the last ordinal not yet handed out.
    pub fn next_back(&mut self) -> (r: Option<usize>)
        ensures
            old(self)@.len() == 0 ==> r is None && final(self)@ == old(self)@,
            old(self)@.len() > 0 ==> r == Some(old(self)@.last()) && final(self)@ == old(
                self,
            )@.drop_last(),
    {
        let r = self.inner.next_back();
        proof {
            assert(self@ =~= if old(self)@.len() == 0 {
                old(self)@
            } else {
                old(self)@.drop_last()
            });
        }
        r
    }

    /// Number of ordinals not yet handed out.
    pub fn len(&self) -> (r: usize)
        ensures
            r == self@.len(),
    {
        self.inner.len()
    }
}

} // verus!
