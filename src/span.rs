//! Ranges of grapheme clusters in a source text, and walking over them from
//! either end.
use crate::location::{LocatedSegment, Location, LocationModel};
use crate::parse::tag::Tag;
use crate::segment_index::lemma_count_below_monotonic;
use crate::source::{Source, SourceModel};
use crate::text::{
    decimal,
    compare_text,
    decimal_string,
    hash_value,
    lex_cmp,
    is_line_ending_text,
    same_text,
    text_is_line_ending,
    text_of,
};
use std::ops::Range;
use std::cmp::Ordering;
use vstd::prelude::*;
use vstd::std_specs::cmp::{PartialEqSpec, PartialOrdSpec};
use vstd::string::{StringExecFns, StringSliceAdditionalSpecFns};
use vstd::utf8::*;

verus! {

broadcast use vstd::utf8::group_utf8_lib;

/// A range of grapheme clusters, as mathematical values.
pub struct SpanModel {
    /// The text the range lies in.
    pub source: SourceModel,
    /// Ordinal of the first grapheme cluster.
    pub start: nat,
    /// Number of grapheme clusters.
    pub len: nat,
}

impl SpanModel {
    /// Ordinal just past the last grapheme cluster.
    pub open spec fn end(self) -> int {
        self.start + self.len as int
    }

    /// The bytes the range covers.
    pub open spec fn bytes(self) -> Seq<u8> {
        self.source.range_bytes(self.start as int, self.end())
    }

    /// The text the range covers.
    pub open spec fn text(self) -> Seq<char> {
        text_of(self.bytes())
    }

    /// The range without its first grapheme cluster.
    pub open spec fn drop_front(self) -> SpanModel {
        SpanModel { source: self.source, start: self.start + 1, len: (self.len - 1) as nat }
    }

    /// The range without its last grapheme cluster.
    pub open spec fn drop_back(self) -> SpanModel {
        SpanModel { source: self.source, start: self.start, len: (self.len - 1) as nat }
    }

    /// The point at `offset` grapheme clusters into the range.
    pub open spec fn location_at(self, offset: int) -> LocationModel {
        LocationModel { source: self.source, position: (self.start + offset) as nat }
    }

    /// The ordinal at which the first line that the range touches starts.
    pub open spec fn first_line_start(self) -> int {
        self.source.line_start_of(self.source.line_of(self.start as int) as int)
    }

    /// The ordinal of the last grapheme cluster, or the start when the range
    /// is empty.
    pub open spec fn last_position(self) -> int {
        if self.len > 0 {
            self.end() - 1
        } else {
            self.start as int
        }
    }

    /// The ordinal at which the line after the one holding the last grapheme
    /// cluster starts, or the end of the text if there is no such line. A line
    /// feed belongs to the line it ends.
    pub open spec fn after_last_line(self) -> int {
        let line = self.source.line_of(self.last_position());
        if line < self.source.newlines.len() {
            self.source.line_start_of(line + 1int)
        } else {
            self.source.len() as int
        }
    }
}

/// One end of a range of offsets.
#[derive(Debug, Clone, Copy, PartialEq, Eq)]
pub enum Endpoint {
    /// The offset is part of the range.
    Included(usize),
    /// The offset bounds the range but is not part of it.
    Excluded(usize),
    /// The range runs to the end on this side.
    Unbounded,
}

/// `p + 1`, or `p` itself when that would not fit.
pub open spec fn saturating_next(p: usize) -> int {
    if p == usize::MAX {
        p as int
    } else {
        p + 1
    }
}

/// The first offset that a range with this start includes.
pub open spec fn resolve_start(b: Endpoint) -> int {
    match b {
        Endpoint::Included(p) => p as int,
        Endpoint::Excluded(p) => saturating_next(p),
        Endpoint::Unbounded => 0,
    }
}

/// The offset just past the range with this end, in a span of length `len`.
pub open spec fn resolve_end(b: Endpoint, len: nat) -> int {
    match b {
        Endpoint::Included(p) => saturating_next(p),
        Endpoint::Excluded(p) => p as int,
        Endpoint::Unbounded => len as int,
    }
}

/// A range of grapheme clusters in a source text: a start location and a
/// length that stays within the text.
#[derive(Debug, PartialEq, Eq, Hash)]
pub struct Span {
    start: Location,
    length: usize,
}

impl View for Span {
    type V = SpanModel;

    closed spec fn view(&self) -> SpanModel {
        SpanModel {
            source: self.start@.source,
            start: self.start@.position,
            len: self.length as nat,
        }
    }
}

impl Span {
    #[verifier::type_invariant]
    spec fn inv(&self) -> bool {
        self.start@.position + self.length <= self.start@.source.len()
    }

    /// The span of `length` grapheme clusters from `start`.
    pub fn new(start: Location, length: usize) -> (r: Span)
        requires
            start@.position + length <= start@.source.len(),
        ensures
            r@ == (SpanModel { source: start@.source, start: start@.position, len: length as nat }),
    {
        Span { start, length }
    }

    /// The span from `start` up to, not including, `end`.
    pub fn from_range(start: Location, end: Location) -> (r: Span)
        requires
            start@.source == end@.source,
            start@.position <= end@.position,
        ensures
            r@ == (SpanModel {
                source: start@.source,
                start: start@.position,
                len: (end@.position - start@.position) as nat,
            }),
    {
        let e = end.position();
        let length = e - start.position();
        Span { start, length }
    }

    /// The span from `start` up to and including `end`; `end` may stand just
    /// before `start`, which gives an empty span.
    pub fn from_range_inclusive(start: Location, end: Location) -> (r: Span)
        requires
            start@.source == end@.source,
            end@.position < end@.source.len(),
            start@.position <= end@.position + 1,
        ensures
            r@ == (SpanModel {
                source: start@.source,
                start: start@.position,
                len: (end@.position + 1 - start@.position) as nat,
            }),
    {
        proof {
            use_type_invariant(&end);
        }
        let e = end.position() + 1;
        let length = e - start.position();
        Span { start, length }
    }

    /// The location of the first grapheme cluster.
    pub fn start(&self) -> (r: Location)
        ensures
            r@ == self@.location_at(0),
            self@.end() <= self@.source.len(),
            self@.source.wf(),
    {
        proof {
            use_type_invariant(self);
            use_type_invariant(&self.start);
        }
        self.start.clone()
    }

    /// The location just past the last grapheme cluster.
    pub fn end(&self) -> (r: Location)
        ensures
            r@ == self@.location_at(self@.len as int),
    {
        proof {
            use_type_invariant(self);
            use_type_invariant(&self.start);
        }
        Location::new(self.start.source().clone(), self.start.position() + self.length)
    }

    /// Number of grapheme clusters.
    pub fn len(&self) -> (r: usize)
        ensures
            r == self@.len,
    {
        self.length
    }

    /// The source text.
    pub fn source(&self) -> (r: &Source)
        ensures
            r@ == self@.source,
    {
        self.start.source()
    }

    /// The text the span covers.
    pub fn as_str(&self) -> (r: &str)
        ensures
            r.spec_bytes() == self@.bytes(),
            r@ == self@.text(),
    {
        proof {
            use_type_invariant(self);
            use_type_invariant(&self.start);
        }
        let start = self.start.position();
        let r = self.source().index_range(start, start + self.length);
        proof {
            encode_utf8_decode_utf8(r@);
        }
        r
    }

    /// Where this span is, for messages: `in <name> from (<line>, <column>) to
    /// (<line>, <column>)`, lines and columns counted from 1.
    pub fn describe(&self) -> (r: String)
        ensures
            r@ == "in "@ + self@.source.name + " from ("@ + decimal(self@.location_at(0).line() + 1)
                + ", "@ + decimal((self@.location_at(0).column() + 1) as nat) + ") to ("@
                + decimal(self@.location_at(self@.len as int).line() + 1) + ", "@ + decimal(
                (self@.location_at(self@.len as int).column() + 1) as nat,
            ) + ")"@,
    {
        let (line_start, col_start) = self.start().line_column();
        let (line_end, col_end) = self.end().line_column();
        proof {
            use_type_invariant(&self.start);
        }
        let r = String::from_str("in ");
        let r = r.concat(self.source().name());
        let r = r.concat(" from (");
        let r = r.concat(decimal_string(line_start + 1).as_str());
        let r = r.concat(", ");
        let r = r.concat(decimal_string(col_start + 1).as_str());
        let r = r.concat(") to (");
        let r = r.concat(decimal_string(line_end + 1).as_str());
        let r = r.concat(", ");
        let r = r.concat(decimal_string(col_end + 1).as_str());
        r.concat(")")
    }

    /// The same range, compared by its text rather than by its place.
    pub fn content(&self) -> (r: SpanContent)
        ensures
            r@ == self@,
    {
        SpanContent { span: self.clone() }
    }

    /// Grows the span to whole lines: back to the start of the line of its
    /// first grapheme cluster, and on to the start of the line after the one
    /// holding its last grapheme cluster, or to the end of the text.
    pub fn expand_lines(&self) -> (r: Span)
        ensures
            r@.source == self@.source,
            r@.start == self@.first_line_start(),
            r@.end() == self@.after_last_line(),
    {
        proof {
            use_type_invariant(self);
        }
        let source = self.source();
        let first = source.line(self.start.position());
        let last_position = if self.length > 0 {
            self.start.position() + self.length - 1
        } else {
            self.start.position()
        };
        let last = source.line(last_position);
        let init = source.line_start(first);
        let end = match source.try_line_start(last + 1) {
            Some(e) => e,
            None => source.len(),
        };
        proof {
            let m = self@.source;
            lemma_count_below_monotonic(m.newlines, self@.start as int, self@.last_position());
            if first > 0 && last < m.newlines.len() {
                assert(m.newlines[first - 1] <= m.newlines[last as int]);
            }
        }
        Span::new(Location::new(source.clone(), init), end - init)
    }

    /// The part of this span between two offsets into it, or `None` unless
    /// `range.start <= range.end <= len`.
    pub fn try_slice(&self, range: Range<usize>) -> (r: Option<Span>)
        ensures
            r is Some <==> range.start <= range.end <= self@.len,
            r matches Some(s) ==> s@ == (SpanModel {
                source: self@.source,
                start: (self@.start + range.start) as nat,
                len: (range.end - range.start) as nat,
            }),
    {
        self.try_slice_bounds(Endpoint::Included(range.start), Endpoint::Excluded(range.end))
    }

    /// The part of this span between two endpoints given as offsets into it,
    /// or `None` unless they resolve to `start <= end <= len`.
    pub fn try_slice_bounds(&self, start: Endpoint, end: Endpoint) -> (r: Option<Span>)
        ensures
            r is Some <==> resolve_start(start) <= resolve_end(end, self@.len) <= self@.len,
            r matches Some(s) ==> s@ == (SpanModel {
                source: self@.source,
                start: (self@.start + resolve_start(start)) as nat,
                len: (resolve_end(end, self@.len) - resolve_start(start)) as nat,
            }),
    {
        proof {
            use_type_invariant(self);
        }
        let first = match start {
            Endpoint::Included(p) => p,
            Endpoint::Excluded(p) => p.saturating_add(1),
            Endpoint::Unbounded => 0,
        };
        let last = match end {
            Endpoint::Included(p) => p.saturating_add(1),
            Endpoint::Excluded(p) => p,
            Endpoint::Unbounded => self.length,
        };
        proof {
            use_type_invariant(&self.start);
        }
        if first <= self.length && last <= self.length && first <= last {
            let loc = Location::new(self.source().clone(), self.start.position() + first);
            Some(Span::new(loc, last - first))
        } else {
            None
        }
    }

    /// The part of this span between two offsets into it, which must satisfy
    /// `range.start <= range.end <= len`.
    pub fn slice(&self, range: Range<usize>) -> (r: Span)
        requires
            range.start <= range.end <= self@.len,
        ensures
            r@ == (SpanModel {
                source: self@.source,
                start: (self@.start + range.start) as nat,
                len: (range.end - range.start) as nat,
            }),
    {
        match self.try_slice(range) {
            Some(s) => s,
            None => {
                proof {
                    assert(false);
                }
                self.clone()
            },
        }
    }

    /// Walks over the grapheme clusters of this span, from either end.
    pub fn segments(&self) -> (r: Segments)
        ensures
            r@ == self@,
    {
        Segments { span: self.clone() }
    }

    /// Walks over the grapheme clusters of this span with their ordinals.
    pub fn indexed_segments(&self) -> (r: IndexedSegments)
        ensures
            r@ == self@,
    {
        self.segments().indexed()
    }
}

impl Clone for Span {
    fn clone(&self) -> (r: Self)
        ensures
            r@ == self@,
    {
        proof {
            use_type_invariant(self);
        }
        Span { start: self.start.clone(), length: self.length }
    }
}

/// The grapheme clusters of a span, handed out from the front, from the back,
/// or both; the two ends share one count, so no cluster comes out twice.
#[derive(Debug, Clone)]
pub struct Segments {
    span: Span,
}

impl View for Segments {
    type V = SpanModel;

    /// The range not yet handed out.
    closed spec fn view(&self) -> SpanModel {
        self.span@
    }
}

impl Segments {
    /// The same walk, handing out each cluster with its ordinal.
    pub fn indexed(self) -> (r: IndexedSegments)
        ensures
            r@ == self@,
    {
        IndexedSegments { inner: self }
    }

    /// Hands out the first grapheme cluster not yet handed out.
    pub fn next(&mut self) -> (r: Option<LocatedSegment>)
        ensures
            old(self)@.len == 0 ==> r is None && final(self)@ == old(self)@,
            old(self)@.len > 0 ==> r is Some && r.unwrap()@ == old(self)@.location_at(0)
                && final(self)@ == old(self)@.drop_front(),
    {
        proof {
            use_type_invariant(&self.span);
        }
        if self.span.length > 0 {
            let segment = self.span.start.segment();
            proof {
                use_type_invariant(&self.span.start);
            }
            let source = self.span.source().clone();
            let next = Location::new(source, self.span.start.position() + 1);
            self.span = Span::new(next, self.span.length - 1);
            Some(segment)
        } else {
            None
        }
    }

    /// Hands out the last grapheme cluster not yet handed out.
    pub fn next_back(&mut self) -> (r: Option<LocatedSegment>)
        ensures
            old(self)@.len == 0 ==> r is None && final(self)@ == old(self)@,
            old(self)@.len > 0 ==> r is Some && r.unwrap()@ == old(self)@.location_at(
                old(self)@.len - 1,
            ) && final(self)@ == old(self)@.drop_back(),
    {
        proof {
            use_type_invariant(&self.span);
        }
        if self.span.length > 0 {
            let start = self.span.start.clone();
            self.span = Span::new(start, self.span.length - 1);
            let segment = self.span.end().segment();
            Some(segment)
        } else {
            None
        }
    }

    /// Number of grapheme clusters not yet handed out.
    pub fn len(&self) -> (r: usize)
        ensures
            r == self@.len,
    {
        self.span.len()
    }

    /// Hands out all remaining grapheme clusters, in order.
    pub fn collect(self) -> (r: Vec<LocatedSegment>)
        ensures
            r@.len() == self@.len,
            forall|i: int| 0 <= i < r@.len() ==> (#[trigger] r@[i])@ == self@.location_at(i),
    {
        let ghost first = self@;
        let mut rest = self;
        let mut r: Vec<LocatedSegment> = Vec::new();
        while rest.len() > 0
            invariant
                rest@.source == first.source,
                rest@.start == first.start + r@.len(),
                rest@.len + r@.len() == first.len,
                forall|i: int| 0 <= i < r@.len() ==> (#[trigger] r@[i])@ == first.location_at(i),
            decreases rest@.len,
        {
            match rest.next() {
                Some(s) => r.push(s),
                None => {},
            }
        }
        r
    }
}

/// The grapheme clusters of a span with their ordinals, from either end.
#[derive(Debug, Clone)]
pub struct IndexedSegments {
    inner: Segments,
}

impl View for IndexedSegments {
    type V = SpanModel;

    /// The range not yet handed out.
    closed spec fn view(&self) -> SpanModel {
        self.inner@
    }
}

impl IndexedSegments {
    /// Hands out the first grapheme cluster not yet handed out, with its ordinal.
    pub fn next(&mut self) -> (r: Option<(usize, LocatedSegment)>)
        ensures
            old(self)@.len == 0 ==> r is None && final(self)@ == old(self)@,
            old(self)@.len > 0 ==> r is Some && r.unwrap().0 == old(self)@.start
                && r.unwrap().1@ == old(self)@.location_at(0) && final(self)@ == old(
                self,
            )@.drop_front(),
    {
        match self.inner.next() {
            Some(segment) => {
                let position = segment.location().position();
                Some((position, segment))
            },
            None => None,
        }
    }

    /// Hands out the last grapheme cluster not yet handed out, with its ordinal.
    pub fn next_back(&mut self) -> (r: Option<(usize, LocatedSegment)>)
        ensures
            old(self)@.len == 0 ==> r is None && final(self)@ == old(self)@,
            old(self)@.len > 0 ==> r is Some && r.unwrap().0 == old(self)@.start + old(
                self,
            )@.len - 1 && r.unwrap().1@ == old(self)@.location_at(old(self)@.len - 1)
                && final(self)@ == old(self)@.drop_back(),
    {
        match self.inner.next_back() {
            Some(segment) => {
                let position = segment.location().position();
                Some((position, segment))
            },
            None => None,
        }
    }

    /// Number of grapheme clusters not yet handed out.
    pub fn len(&self) -> (r: usize)
        ensures
            r == self@.len,
    {
        self.inner.len()
    }
}

/// A span that compares by the text it covers rather than by where it lies.
#[derive(Debug, Clone)]
pub struct SpanContent {
    span: Span,
}

impl View for SpanContent {
    type V = SpanModel;

    closed spec fn view(&self) -> SpanModel {
        self.span@
    }
}

impl SpanContent {
    /// The text covered.
    pub fn as_str(&self) -> (r: &str)
        ensures
            r.spec_bytes() == self@.bytes(),
            r@ == self@.text(),
    {
        self.span.as_str()
    }

    /// Walks over the grapheme clusters, from either end.
    pub fn segments(&self) -> (r: Segments)
        ensures
            r@ == self@,
    {
        self.span.segments()
    }

    /// Walks over the grapheme clusters with their ordinals.
    pub fn indexed_segments(&self) -> (r: IndexedSegments)
        ensures
            r@ == self@,
    {
        self.span.indexed_segments()
    }

    /// The part between two offsets into the span, or `None` unless
    /// `range.start <= range.end <= len`.
    pub fn try_slice(&self, range: Range<usize>) -> (r: Option<SpanContent>)
        ensures
            r is Some <==> range.start <= range.end <= self@.len,
            r matches Some(s) ==> s@ == (SpanModel {
                source: self@.source,
                start: (self@.start + range.start) as nat,
                len: (range.end - range.start) as nat,
            }),
    {
        match self.span.try_slice(range) {
            Some(span) => Some(SpanContent { span }),
            None => None,
        }
    }
}

impl PartialEq for SpanContent {
    fn eq(&self, other: &Self) -> (r: bool)
        ensures
            r == (self@.text() == other@.text()),
    {
        same_text(self.as_str(), other.as_str())
    }
}

impl vstd::std_specs::cmp::PartialEqSpecImpl for SpanContent {
    open spec fn obeys_eq_spec() -> bool {
        true
    }

    open spec fn eq_spec(&self, other: &SpanContent) -> bool {
        self@.text() == other@.text()
    }
}

impl Eq for SpanContent {

}

impl PartialOrd for SpanContent {
    fn partial_cmp(&self, other: &Self) -> (r: Option<Ordering>)
        ensures
            r == Some(lex_cmp(self@.bytes(), other@.bytes())),
    {
        Some(compare_text(self.as_str(), other.as_str()))
    }
}

impl vstd::std_specs::cmp::PartialOrdSpecImpl for SpanContent {
    open spec fn obeys_partial_cmp_spec() -> bool {
        true
    }

    open spec fn partial_cmp_spec(&self, other: &SpanContent) -> Option<Ordering> {
        Some(lex_cmp(self@.bytes(), other@.bytes()))
    }
}

impl std::hash::Hash for SpanContent {
    fn hash<H: std::hash::Hasher>(&self, state: &mut H) {
        hash_value(self.as_str(), state)
    }
}

impl PartialEq<str> for SpanContent {
    fn eq(&self, other: &str) -> (r: bool)
        ensures
            r == (self@.text() == other@),
    {
        same_text(self.as_str(), other)
    }
}

impl vstd::std_specs::cmp::PartialEqSpecImpl<str> for SpanContent {
    open spec fn obeys_eq_spec() -> bool {
        true
    }

    open spec fn eq_spec(&self, other: &str) -> bool {
        self@.text() == other@
    }
}

/// How the start of a span compares with a literal sequence of clusters.
#[derive(Debug, Clone, Copy, PartialEq, Eq)]
pub enum Comparison {
    /// The span starts with every cluster of the literal.
    Matched,
    /// Some cluster differs before either runs out.
    Mismatched,
    /// The span runs out first, agreeing as far as it goes.
    Incomplete,
}

/// The first `k` clusters of `sp` have the texts of the first `k` of `tag`.
pub open spec fn agree_upto(sp: SpanModel, tag: Seq<&str>, k: int) -> bool {
    forall|i: int| 0 <= i < k ==> (#[trigger] sp.location_at(i)).text() == tag[i]@
}

/// The first `k` clusters of `sp`, lower-cased, equal the first `k` of `tag`,
/// lower-cased.
pub open spec fn agree_upto_no_case(sp: SpanModel, tag: Seq<&str>, k: int) -> bool {
    forall|i: int|
        0 <= i < k ==> lower_of((#[trigger] sp.location_at(i)).text()) == lower_of(tag[i]@)
}

/// The comparison of the start of `sp` with `tag`, given whether their first
/// `min(len, tag.len())` clusters agree.
pub open spec fn comparison_of(sp: SpanModel, tag: Seq<&str>, agree: bool) -> Comparison {
    if !agree {
        Comparison::Mismatched
    } else if tag.len() > sp.len {
        Comparison::Incomplete
    } else {
        Comparison::Matched
    }
}

/// The shorter of two lengths.
pub open spec fn shorter(a: nat, b: nat) -> int {
    if a < b {
        a as int
    } else {
        b as int
    }
}

/// The lower-case form of a text.
pub uninterp spec fn lower_of(s: Seq<char>) -> Seq<char>;

/// Relies on std's `str::to_lowercase`: the result depends on the text alone.
#[verifier::external_body]
fn lowercase(s: &str) -> (r: String)
    ensures
        r@ == lower_of(s@),
{
    s.to_lowercase()
}

impl Span {
    /// The text of the cluster `i` places into the span, with its bytes.
    fn cluster_at(&self, i: usize) -> (r: &str)
        requires
            i < self@.len,
        ensures
            r@ == self@.location_at(i as int).text(),
    {
        proof {
            use_type_invariant(self);
            use_type_invariant(&self.start);
        }
        let r = self.source().index(self.start.position() + i);
        proof {
            encode_utf8_decode_utf8(r@);
        }
        r
    }

    /// Whether this span starts with the clusters of `tag`.
    pub fn compare_tag(&self, tag: Tag) -> (r: Comparison)
        ensures
            r == comparison_of(self@, tag.0@, agree_upto(self@, tag.0@, shorter(self@.len, tag.0@.len()))),
    {
        let n = tag.len();
        let mut i: usize = 0;
        while i < n && i < self.length
            invariant
                n == tag.0@.len(),
                0 <= i <= n,
                i <= self@.len,
                agree_upto(self@, tag.0@, i as int),
            decreases n - i,
        {
            if !same_text(self.cluster_at(i), tag.0[i]) {
                return Comparison::Mismatched;
            }
            i = i + 1;
        }
        if i < n {
            Comparison::Incomplete
        } else {
            Comparison::Matched
        }
    }

    /// Whether this span starts with the clusters of `tag`, both lower-cased.
    pub fn compare_tag_no_case(&self, tag: Tag) -> (r: Comparison)
        ensures
            r == comparison_of(
                self@,
                tag.0@,
                agree_upto_no_case(self@, tag.0@, shorter(self@.len, tag.0@.len())),
            ),
    {
        let n = tag.len();
        let mut i: usize = 0;
        while i < n && i < self.length
            invariant
                n == tag.0@.len(),
                0 <= i <= n,
                i <= self@.len,
                agree_upto_no_case(self@, tag.0@, i as int),
            decreases n - i,
        {
            let a = lowercase(self.cluster_at(i));
            let b = lowercase(tag.0[i]);
            if !same_text(a.as_str(), b.as_str()) {
                return Comparison::Mismatched;
            }
            i = i + 1;
        }
        if i < n {
            Comparison::Incomplete
        } else {
            Comparison::Matched
        }
    }

    /// The offset of the first cluster of this span that ends a line, if any.
    pub fn line_ending_position(&self) -> (r: Option<usize>)
        ensures
            r is None ==> forall|i: int|
                0 <= i < self@.len ==> !is_line_ending_text(
                    (#[trigger] self@.location_at(i)).text(),
                ),
            r matches Some(k) ==> k < self@.len && is_line_ending_text(
                self@.location_at(k as int).text(),
            ) && forall|i: int|
                0 <= i < k ==> !is_line_ending_text((#[trigger] self@.location_at(i)).text()),
    {
        let mut i: usize = 0;
        while i < self.length
            invariant
                0 <= i <= self@.len,
                forall|j: int|
                    0 <= j < i ==> !is_line_ending_text((#[trigger] self@.location_at(j)).text()),
            decreases self@.len - i,
        {
            if text_is_line_ending(self.cluster_at(i)) {
                return Some(i);
            }
            i = i + 1;
        }
        None
    }

    /// Whether some cluster of this span has the text `token`.
    pub fn find_segment(&self, token: &str) -> (r: bool)
        ensures
            r == exists|i: int| 0 <= i < self@.len && (#[trigger] self@.location_at(i)).text() == token@,
    {
        let mut i: usize = 0;
        while i < self.length
            invariant
                0 <= i <= self@.len,
                forall|j: int| 0 <= j < i ==> (#[trigger] self@.location_at(j)).text() != token@,
            decreases self@.len - i,
        {
            if same_text(self.cluster_at(i), token) {
                return true;
            }
            i = i + 1;
        }
        false
    }
}

/// Data produced from a span, kept with that span.
#[derive(Debug, Clone)]
pub struct Symbol<T> {
    /// The span the data comes from.
    pub span: Span,
    /// The data.
    pub data: T,
}

impl<T> Symbol<T> {
    /// The same span with a reference to the data.
    pub fn as_ref(&self) -> (r: Symbol<&T>)
        ensures
            r.span@ == self.span@,
            *r.data == self.data,
    {
        Symbol { span: self.span.clone(), data: &self.data }
    }

    /// The same span with a mutable reference to the data.
    pub fn as_mut(&mut self) -> (r: Symbol<&mut T>)
        ensures
            r.span@ == old(self).span@,
            *r.data == old(self).data,
            final(self).span == old(self).span,
            final(self).data == *final(r.data),
    {
        Symbol { span: self.span.clone(), data: &mut self.data }
    }

    /// The same span with the data converted by `mapper`.
    pub fn map<U, F: FnOnce(T) -> U>(self, mapper: F) -> (r: Symbol<U>)
        requires
            mapper.requires((self.data,)),
        ensures
            r.span@ == self.span@,
            mapper.ensures((self.data,), r.data),
    {
        Symbol { span: self.span, data: mapper(self.data) }
    }
}

impl<T: PartialEq> PartialEq for Symbol<T> {
    fn eq(&self, other: &Self) -> (r: bool)
        ensures
            T::obeys_eq_spec() ==> r == self.data.eq_spec(&other.data),
    {
        self.data == other.data
    }
}

impl<T: PartialEq> vstd::std_specs::cmp::PartialEqSpecImpl for Symbol<T> {
    open spec fn obeys_eq_spec() -> bool {
        T::obeys_eq_spec()
    }

    open spec fn eq_spec(&self, other: &Symbol<T>) -> bool {
        self.data.eq_spec(&other.data)
    }
}

impl<T: Eq> Eq for Symbol<T> {

}

impl<T: PartialOrd> PartialOrd for Symbol<T> {
    fn partial_cmp(&self, other: &Self) -> (r: Option<Ordering>)
        ensures
            T::obeys_partial_cmp_spec() ==> r == self.data.partial_cmp_spec(&other.data),
    {
        self.data.partial_cmp(&other.data)
    }
}

impl<T: PartialOrd> vstd::std_specs::cmp::PartialOrdSpecImpl for Symbol<T> {
    open spec fn obeys_partial_cmp_spec() -> bool {
        T::obeys_partial_cmp_spec()
    }

    open spec fn partial_cmp_spec(&self, other: &Symbol<T>) -> Option<Ordering> {
        self.data.partial_cmp_spec(&other.data)
    }
}

impl<T: std::hash::Hash> std::hash::Hash for Symbol<T> {
    fn hash<H: std::hash::Hasher>(&self, state: &mut H) {
        hash_value(&self.data, state)
    }
}

/// Values that come from a span of a source text.
pub trait Spanned {
    /// Whether the value has a span; a location at the very end has none.
    spec fn has_span(&self) -> bool;

    /// The span the value comes from.
    fn span(&self) -> Span
        requires
            self.has_span(),
    ;
}

impl Spanned for Span {
    open spec fn has_span(&self) -> bool {
        true
    }

    fn span(&self) -> (r: Span)
        ensures
            r@ == self@,
    {
        self.clone()
    }
}

impl Spanned for SpanContent {
    open spec fn has_span(&self) -> bool {
        true
    }

    fn span(&self) -> (r: Span)
        ensures
            r@ == self@,
    {
        self.span.clone()
    }
}

impl<T> Spanned for Symbol<T> {
    open spec fn has_span(&self) -> bool {
        true
    }

    fn span(&self) -> (r: Span)
        ensures
            r@ == self.span@,
    {
        self.span.clone()
    }
}

impl Spanned for Location {
    open spec fn has_span(&self) -> bool {
        self@.position < self@.source.len()
    }

    fn span(&self) -> (r: Span)
        ensures
            r@ == (SpanModel { source: self@.source, start: self@.position, len: 1 }),
    {
        Span::new(self.clone(), 1)
    }
}

impl Spanned for LocatedSegment {
    open spec fn has_span(&self) -> bool {
        true
    }

    fn span(&self) -> (r: Span)
        ensures
            r@ == (SpanModel { source: self@.source, start: self@.position, len: 1 }),
    {
        self.location().span()
    }
}

} // verus!
