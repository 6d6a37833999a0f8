//! Points in a source text, counted in grapheme clusters, and the grapheme
//! cluster found at such a point.
use crate::source::{Source, SourceModel};
use crate::span::Span;
use crate::text::{
    decimal,
    compare_text,
    decimal_string,
    hash_value,
    lex_cmp,
    is_line_ending_text,
    same_text,
    text_is_line_ending,
    text_of,
};
use std::cmp::Ordering;
use vstd::prelude::*;
use vstd::string::{StrSliceExecFns, StringExecFns, StringSliceAdditionalSpecFns};
use vstd::utf8::*;

verus! {

broadcast use vstd::utf8::group_utf8_lib;

/// A point in a source text, as mathematical values.
pub struct LocationModel {
    /// The text pointed into.
    pub source: SourceModel,
    /// The grapheme cluster ordinal.
    pub position: nat,
}

impl LocationModel {
    /// The line holding this point.
    pub open spec fn line(self) -> nat {
        self.source.line_of(self.position as int)
    }

    /// How many grapheme clusters this point lies after the start of its line.
    pub open spec fn column(self) -> int {
        self.position - self.source.line_start_of(self.line() as int)
    }

    /// The text of the grapheme cluster at this point.
    pub open spec fn text(self) -> Seq<char> {
        text_of(self.source.segment_bytes(self.position as int))
    }
}

/// A point in a source text: a grapheme cluster ordinal from 0 up to the
/// number of grapheme clusters, the last one standing just past the end.
#[derive(Debug, PartialEq, Eq, Hash)]
pub struct Location {
    source: Source,
    position: usize,
}

impl View for Location {
    type V = LocationModel;

    closed spec fn view(&self) -> LocationModel {
        LocationModel { source: self.source@, position: self.position as nat }
    }
}

impl Location {
    #[verifier::type_invariant]
    pub(crate) open spec fn inv(&self) -> bool {
        self@.position <= self@.source.len() && self@.source.wf()
    }

    /// The point at ordinal `position` of `source`.
    pub fn new(source: Source, position: usize) -> (r: Location)
        requires
            position <= source@.len(),
        ensures
            r@ == (LocationModel { source: source@, position: position as nat }),
    {
        proof {
            use_type_invariant(&source);
        }
        Location { source, position }
    }

    /// The grapheme cluster ordinal.
    pub fn position(&self) -> (r: usize)
        ensures
            r == self@.position,
            r <= self@.source.len(),
    {
        proof {
            use_type_invariant(self);
        }
        self.position
    }

    /// The source text pointed into.
    pub fn source(&self) -> (r: &Source)
        ensures
            r@ == self@.source,
    {
        &self.source
    }

    /// The line and the column of this point, both counted from 0 in grapheme
    /// clusters.
    pub fn line_column(&self) -> (r: (usize, usize))
        ensures
            r.0 == self@.line(),
            r.1 == self@.column(),
            r.0 <= self@.source.len(),
            r.1 <= self@.position <= self@.source.len(),
    {
        proof {
            use_type_invariant(self);
        }
        let line = self.source.line(self.position);
        let line_start = self.source.line_start(line);
        (line, self.position - line_start)
    }

    /// Where this point is, for messages: `in <name> (<line>, <column>)`, with
    /// line and column counted from 1.
    pub fn describe(&self) -> (r: String)
        ensures
            r@ == "in "@ + self@.source.name + " ("@ + decimal(self@.line() + 1) + ", "@ + decimal(
                (self@.column() + 1) as nat,
            ) + ")"@,
    {
        proof {
            use_type_invariant(self);
        }
        let (line, column) = self.line_column();
        let r = String::from_str("in ");
        let r = r.concat(self.source.name());
        let r = r.concat(" (");
        let r = r.concat(decimal_string(line + 1).as_str());
        let r = r.concat(", ");
        let r = r.concat(decimal_string(column + 1).as_str());
        r.concat(")")
    }

    /// The line of this point, counted from 0.
    pub fn line(&self) -> (r: usize)
        ensures
            r == self@.line(),
    {
        self.source.line(self.position)
    }

    /// The column of this point, counted from 0 in grapheme clusters.
    pub fn column(&self) -> (r: usize)
        ensures
            r == self@.column(),
    {
        let (_, column) = self.line_column();
        column
    }

    /// The grapheme cluster at this point, which must not be the end.
    pub fn as_str(&self) -> (r: &str)
        requires
            self@.position < self@.source.len(),
        ensures
            r.spec_bytes() == self@.source.segment_bytes(self@.position as int),
            r@ == self@.text(),
    {
        let r = self.source.index(self.position);
        proof {
            encode_utf8_decode_utf8(r@);
        }
        r
    }

    /// The grapheme cluster at this point, with this point.
    pub fn segment(&self) -> (r: LocatedSegment)
        requires
            self@.position < self@.source.len(),
        ensures
            r@ == self@,
    {
        proof {
            use_type_invariant(self);
        }
        LocatedSegment { location: self.clone() }
    }

    /// The span of the whole line holding this point, its line feed included.
    pub fn line_span(&self) -> (r: Span)
        ensures
            r@.source == self@.source,
            r@.start == self@.source.line_start_of(self@.line() as int),
            r@.end() == (if self@.line() < self@.source.newlines.len() {
                self@.source.line_start_of(self@.line() + 1int)
            } else {
                self@.source.len() as int
            }),
    {
        let line = self.source.line(self.position);
        let init = self.source.line_start(line);
        let end = match self.source.try_line_start(line + 1) {
            Some(e) => e,
            None => self.source.len(),
        };
        proof {
            if line < self@.source.newlines.len() && line > 0 {
                assert(self@.source.newlines[line - 1] < self@.source.newlines[line as int]);
            }
        }
        Span::new(Location::new(self.source.clone(), init), end - init)
    }
}

/// Whether `c` is alphabetic in Unicode's sense.
pub uninterp spec fn alphabetic(c: char) -> bool;

/// Whether `c` is numeric in Unicode's sense.
pub uninterp spec fn numeric(c: char) -> bool;

/// Whether `c` is white space in Unicode's sense.
pub uninterp spec fn white_space(c: char) -> bool;

/// Relies on std's `char::is_alphabetic`.
#[verifier::external_body]
fn char_is_alphabetic(c: char) -> (r: bool)
    ensures
        r == alphabetic(c),
{
    c.is_alphabetic()
}

/// Relies on std's `char::is_numeric`.
#[verifier::external_body]
fn char_is_numeric(c: char) -> (r: bool)
    ensures
        r == numeric(c),
{
    c.is_numeric()
}

/// Relies on std's `char::is_whitespace`.
#[verifier::external_body]
fn char_is_whitespace(c: char) -> (r: bool)
    ensures
        r == white_space(c),
{
    c.is_whitespace()
}

/// `c` is one of `a-z`, `A-Z`.
pub open spec fn ascii_letter(c: char) -> bool {
    (97 <= c as u32 <= 122) || (65 <= c as u32 <= 90)
}

/// `c` is one of `0-9`.
pub open spec fn ascii_digit(c: char) -> bool {
    48 <= c as u32 <= 57
}

/// The value of `c` as a digit of `base`: `0-9` stand for 0 to 9, and `a-z`
/// or `A-Z` for 10 to 35; `None` when `c` is no such digit below `base`.
pub open spec fn digit_value(c: char, base: u32) -> Option<u32> {
    let u = c as u32;
    let v: int = if 48 <= u <= 57 {
        u - 48
    } else if 97 <= u <= 122 {
        u - 97 + 10
    } else if 65 <= u <= 90 {
        u - 65 + 10
    } else {
        36
    };
    if v < base {
        Some(v as u32)
    } else {
        None
    }
}

fn char_digit_value(c: char, base: u32) -> (r: Option<u32>)
    ensures
        r == digit_value(c, base),
{
    let u = c as u32;
    let v: u32 = if 48 <= u && u <= 57 {
        u - 48
    } else if 97 <= u && u <= 122 {
        u - 97 + 10
    } else if 65 <= u && u <= 90 {
        u - 65 + 10
    } else {
        36
    };
    if v < base {
        Some(v)
    } else {
        None
    }
}

/// One grapheme cluster of a source text together with its location.
#[derive(Debug)]
pub struct LocatedSegment {
    location: Location,
}

impl View for LocatedSegment {
    type V = LocationModel;

    closed spec fn view(&self) -> LocationModel {
        self.location@
    }
}

impl LocatedSegment {
    #[verifier::type_invariant]
    spec fn inv(&self) -> bool {
        self.location@.position < self.location@.source.len()
    }

    /// The text of this grapheme cluster.
    pub open spec fn text(&self) -> Seq<char> {
        self@.text()
    }

    /// The location of this grapheme cluster.
    pub fn location(&self) -> (r: &Location)
        ensures
            r@ == self@,
            self@.position < self@.source.len(),
    {
        proof {
            use_type_invariant(self);
        }
        &self.location
    }

    /// The text of this grapheme cluster.
    pub fn as_str(&self) -> (r: &str)
        ensures
            r.spec_bytes() == self@.source.segment_bytes(self@.position as int),
            r@ == self.text(),
    {
        proof {
            use_type_invariant(self);
        }
        self.location.as_str()
    }

    /// This grapheme cluster is a single code point.
    pub fn is_single_char(&self) -> (r: bool)
        ensures
            r == (self.text().len() == 1),
    {
        self.as_str().unicode_len() == 1
    }

    /// The first code point is alphabetic, so letters with diacritics count.
    pub fn is_alphabetic(&self) -> (r: bool)
        ensures
            r == (self.text().len() > 0 && alphabetic(self.text()[0])),
    {
        let s = self.as_str();
        s.unicode_len() > 0 && char_is_alphabetic(s.get_char(0))
    }

    /// This grapheme cluster is a single ASCII letter.
    pub fn is_ascii_alphabetic(&self) -> (r: bool)
        ensures
            r == (self.text().len() == 1 && ascii_letter(self.text()[0])),
    {
        let s = self.as_str();
        if s.unicode_len() != 1 {
            return false;
        }
        let u = s.get_char(0) as u32;
        (97 <= u && u <= 122) || (65 <= u && u <= 90)
    }

    /// The first code point is numeric, so digits with diacritics count.
    pub fn is_numeric(&self) -> (r: bool)
        ensures
            r == (self.text().len() > 0 && numeric(self.text()[0])),
    {
        let s = self.as_str();
        s.unicode_len() > 0 && char_is_numeric(s.get_char(0))
    }

    /// This grapheme cluster is a single ASCII digit.
    pub fn is_ascii_numeric(&self) -> (r: bool)
        ensures
            r == (self.text().len() == 1 && ascii_digit(self.text()[0])),
    {
        let s = self.as_str();
        if s.unicode_len() != 1 {
            return false;
        }
        let u = s.get_char(0) as u32;
        48 <= u && u <= 57
    }

    /// The first code point is alphabetic or numeric.
    pub fn is_alphanumeric(&self) -> (r: bool)
        ensures
            r == (self.text().len() > 0 && (alphabetic(self.text()[0]) || numeric(
                self.text()[0],
            ))),
    {
        let s = self.as_str();
        if s.unicode_len() == 0 {
            return false;
        }
        let c = s.get_char(0);
        char_is_alphabetic(c) || char_is_numeric(c)
    }

    /// This grapheme cluster is a single ASCII letter or digit.
    pub fn is_ascii_alphanumeric(&self) -> (r: bool)
        ensures
            r == (self.text().len() == 1 && (ascii_letter(self.text()[0]) || ascii_digit(
                self.text()[0],
            ))),
    {
        let s = self.as_str();
        if s.unicode_len() != 1 {
            return false;
        }
        let u = s.get_char(0) as u32;
        (97 <= u && u <= 122) || (65 <= u && u <= 90) || (48 <= u && u <= 57)
    }

    /// This grapheme cluster is a single code point that is a digit of `base`.
    pub fn is_digit(&self, base: u32) -> (r: bool)
        requires
            2 <= base <= 36,
        ensures
            r == (self.text().len() == 1 && digit_value(self.text()[0], base) is Some),
    {
        let s = self.as_str();
        if s.unicode_len() != 1 {
            return false;
        }
        char_digit_value(s.get_char(0), base).is_some()
    }

    /// The value of this grapheme cluster as a digit of `base`, when it is a
    /// single code point that is such a digit.
    pub fn to_digit(&self, base: u32) -> (r: Option<u32>)
        requires
            2 <= base <= 36,
        ensures
            r == (if self.text().len() == 1 {
                digit_value(self.text()[0], base)
            } else {
                None
            }),
    {
        let s = self.as_str();
        if s.unicode_len() != 1 {
            return None;
        }
        char_digit_value(s.get_char(0), base)
    }

    /// This grapheme cluster is a line feed alone.
    pub fn is_newline(&self) -> (r: bool)
        ensures
            r == (self.text() == seq!['\n']),
    {
        let s = self.as_str();
        let r = s.unicode_len() == 1 && s.get_char(0) == '\n';
        proof {
            if self.text() == seq!['\n'] {
                assert(s@[0] == '\n');
            }
            if r {
                assert(s@ =~= seq!['\n']);
            }
        }
        r
    }

    /// This grapheme cluster ends a line: a line feed, alone or after a
    /// carriage return.
    pub fn is_line_ending(&self) -> (r: bool)
        ensures
            r == is_line_ending_text(self.text()),
    {
        text_is_line_ending(self.as_str())
    }

    /// This grapheme cluster is a single space.
    pub fn is_space(&self) -> (r: bool)
        ensures
            r == (self.text() == seq![' ']),
    {
        let s = self.as_str();
        let r = s.unicode_len() == 1 && s.get_char(0) == ' ';
        proof {
            if self.text() == seq![' '] {
                assert(s@[0] == ' ');
            }
            if r {
                assert(s@ =~= seq![' ']);
            }
        }
        r
    }

    /// Every code point of this grapheme cluster is white space.
    pub fn is_whitespace(&self) -> (r: bool)
        ensures
            r == (forall|i: int| 0 <= i < self.text().len() ==> white_space(#[trigger] self.text()[i])),
    {
        let s = self.as_str();
        let n = s.unicode_len();
        let mut i: usize = 0;
        while i < n
            invariant
                n == s@.len(),
                s@ == self.text(),
                0 <= i <= n,
                forall|j: int| 0 <= j < i ==> white_space(#[trigger] s@[j]),
            decreases n - i,
        {
            if !char_is_whitespace(s.get_char(i)) {
                return false;
            }
            i = i + 1;
        }
        true
    }
}

impl Clone for Location {
    fn clone(&self) -> (r: Self)
        ensures
            r@ == self@,
    {
        proof {
            use_type_invariant(self);
        }
        Location { source: self.source.clone(), position: self.position }
    }
}

impl Clone for LocatedSegment {
    fn clone(&self) -> (r: Self)
        ensures
            r@ == self@,
    {
        proof {
            use_type_invariant(self);
        }
        LocatedSegment { location: self.location.clone() }
    }
}

impl PartialEq for LocatedSegment {
    fn eq(&self, other: &Self) -> (r: bool)
        ensures
            r == (self.text() == other.text()),
    {
        same_text(self.as_str(), other.as_str())
    }
}

impl vstd::std_specs::cmp::PartialEqSpecImpl for LocatedSegment {
    open spec fn obeys_eq_spec() -> bool {
        true
    }

    open spec fn eq_spec(&self, other: &LocatedSegment) -> bool {
        self.text() == other.text()
    }
}

impl Eq for LocatedSegment {

}

impl PartialOrd for LocatedSegment {
    fn partial_cmp(&self, other: &Self) -> (r: Option<Ordering>)
        ensures
            r == Some(lex_cmp(self@.source.segment_bytes(self@.position as int), other@.source.segment_bytes(other@.position as int))),
    {
        Some(compare_text(self.as_str(), other.as_str()))
    }
}

impl vstd::std_specs::cmp::PartialOrdSpecImpl for LocatedSegment {
    open spec fn obeys_partial_cmp_spec() -> bool {
        true
    }

    open spec fn partial_cmp_spec(&self, other: &LocatedSegment) -> Option<Ordering> {
        Some(lex_cmp(self@.source.segment_bytes(self@.position as int), other@.source.segment_bytes(other@.position as int)))
    }
}

impl std::hash::Hash for LocatedSegment {
    fn hash<H: std::hash::Hasher>(&self, state: &mut H) {
        hash_value(self.as_str(), state)
    }
}

impl PartialEq<str> for LocatedSegment {
    fn eq(&self, other: &str) -> (r: bool)
        ensures
            r == (self.text() == other@),
    {
        same_text(self.as_str(), other)
    }
}

impl vstd::std_specs::cmp::PartialEqSpecImpl<str> for LocatedSegment {
    open spec fn obeys_eq_spec() -> bool {
        true
    }

    open spec fn eq_spec(&self, other: &str) -> bool {
        self.text() == other@
    }
}

} // verus!
