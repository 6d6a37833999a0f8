//! Byte-level helpers over UTF-8 text, and the grapheme cluster split of a text.
use crate::segment_index::strictly_increasing;
use std::cmp::Ordering;
use unicode_segmentation::UnicodeSegmentation;
use vstd::prelude::*;
use vstd::string::{StrSliceExecFns, StringSliceAdditionalSpecFns};
use vstd::utf8::*;

verus! {

broadcast use vstd::utf8::group_utf8_lib;

/// Byte offsets at which the extended grapheme clusters of a text begin.
pub uninterp spec fn grapheme_starts(text: Seq<char>) -> Seq<usize>;

/// Relies on unicode_segmentation's `grapheme_indices(true)`, keeping each
/// cluster's byte offset. Its source hands out the clusters as consecutive
/// non-empty slices `&s[start..next]` that begin at 0 and end at `s.len()`, so
/// the offsets start at 0, strictly increase, and each lies on a char boundary.
#[verifier::external_body]
pub(crate) fn grapheme_start_offsets(s: &str) -> (r: Vec<usize>)
    ensures
        r@ == grapheme_starts(s@),
        r@.len() == 0 <==> s@.len() == 0,
        r@.len() > 0 ==> r@[0] == 0,
        strictly_increasing(r@),
        forall|i: int|
            0 <= i < r@.len() ==> r@[i] < s.spec_bytes().len() && is_char_boundary(
                s.spec_bytes(),
                #[trigger] r@[i] as int,
            ),
{
    s.grapheme_indices(true).map(|(offset, _)| offset).collect()
}

/// Counts the extended grapheme clusters of `input`.
pub fn count_grapheme_clusters(input: &str) -> (r: usize)
    ensures
        r == grapheme_starts(input@).len(),
        r == 0 <==> input@.len() == 0,
{
    grapheme_start_offsets(input).len()
}

/// The decimal digit for `d`, which is below 10.
pub open spec fn digit_char(d: nat) -> char {
    seq!['0', '1', '2', '3', '4', '5', '6', '7', '8', '9'][d as int]
}

/// The decimal digits of `n`, without sign or padding.
pub open spec fn decimal(n: nat) -> Seq<char>
    decreases n,
{
    if n < 10 {
        seq![digit_char(n)]
    } else {
        decimal(n / 10).push(digit_char(n % 10))
    }
}

/// Relies on std's `Display` for `usize`, through `to_string`: the decimal
/// digits, without sign or padding.
#[verifier::external_body]
pub(crate) fn decimal_string(n: usize) -> (r: String)
    ensures
        r@ == decimal(n as nat),
{
    n.to_string()
}

/// The text whose UTF-8 encoding is `b`.
pub open spec fn text_of(b: Seq<u8>) -> Seq<char> {
    decode_utf8(b)
}

/// The part of `s` between two char boundaries, given in bytes.
pub fn byte_slice(s: &str, start: usize, end: usize) -> (r: &str)
    requires
        start <= end <= s.spec_bytes().len(),
        is_char_boundary(s.spec_bytes(), start as int),
        is_char_boundary(s.spec_bytes(), end as int),
    ensures
        r.spec_bytes() == s.spec_bytes().subrange(start as int, end as int),
{
    let ghost b = s.spec_bytes();
    proof {
        encode_utf8_valid_utf8(s@);
        valid_utf8_split(b, start as int);
    }
    let (_, rest) = s.split_at(start);
    let ghost t = rest.spec_bytes();
    proof {
        assert(t =~= b.subrange(start as int, b.len() as int));
        if end < b.len() {
            is_char_boundary_iff_not_is_continuation_byte(b, end as int);
            is_char_boundary_iff_not_is_continuation_byte(t, end - start);
            assert(t[end - start] == b[end as int]);
        } else {
            is_char_boundary_start_end_of_seq(t);
        }
    }
    let (mid, _) = rest.split_at(end - start);
    proof {
        assert(mid.spec_bytes() =~= b.subrange(start as int, end as int));
    }
    mid
}

/// Relies on std's `Hash::hash`: feeds `value` to `state`.
#[verifier::external_body]
pub(crate) fn hash_value<T: std::hash::Hash + ?Sized, H: std::hash::Hasher>(value: &T, state: &mut H) {
    std::hash::Hash::hash(value, state)
}

/// A line ends with a line feed alone or with a carriage return and a line
/// feed; either one forms a single grapheme cluster.
pub open spec fn is_line_ending_text(t: Seq<char>) -> bool {
    t == seq!['\n'] || t == seq!['\r', '\n']
}

/// Whether `s` is a line ending.
pub fn text_is_line_ending(s: &str) -> (r: bool)
    ensures
        r == is_line_ending_text(s@),
{
    let n = s.unicode_len();
    let r = if n == 1 {
        s.get_char(0) == '\n'
    } else if n == 2 {
        s.get_char(0) == '\r' && s.get_char(1) == '\n'
    } else {
        false
    };
    proof {
        if r {
            if n == 1 {
                assert(s@ =~= seq!['\n']);
            } else {
                assert(s@ =~= seq!['\r', '\n']);
            }
        }
        if s@ == seq!['\n'] {
            assert(s@[0] == '\n');
        }
        if s@ == seq!['\r', '\n'] {
            assert(s@[0] == '\r' && s@[1] == '\n');
        }
    }
    r
}

/// Byte-wise lexicographic order: the order of `str`.
pub open spec fn lex_cmp(a: Seq<u8>, b: Seq<u8>) -> Ordering
    decreases a.len(),
{
    if a.len() == 0 {
        if b.len() == 0 {
            Ordering::Equal
        } else {
            Ordering::Less
        }
    } else if b.len() == 0 {
        Ordering::Greater
    } else if a[0] < b[0] {
        Ordering::Less
    } else if a[0] > b[0] {
        Ordering::Greater
    } else {
        lex_cmp(a.drop_first(), b.drop_first())
    }
}

/// Orders two texts byte by byte.
pub fn compare_text(a: &str, b: &str) -> (r: Ordering)
    ensures
        r == lex_cmp(a.spec_bytes(), b.spec_bytes()),
{
    let x = a.as_bytes();
    let y = b.as_bytes();
    let mut i: usize = 0;
    proof {
        assert(x@.subrange(0, x@.len() as int) =~= x@);
        assert(y@.subrange(0, y@.len() as int) =~= y@);
    }
    while i < x.len() && i < y.len() && x[i] == y[i]
        invariant
            x@ == a.spec_bytes(),
            y@ == b.spec_bytes(),
            0 <= i <= x@.len(),
            i <= y@.len(),
            lex_cmp(x@, y@) == lex_cmp(
                x@.subrange(i as int, x@.len() as int),
                y@.subrange(i as int, y@.len() as int),
            ),
        decreases x@.len() - i,
    {
        proof {
            let xs = x@.subrange(i as int, x@.len() as int);
            let ys = y@.subrange(i as int, y@.len() as int);
            assert(xs.drop_first() =~= x@.subrange(i + 1, x@.len() as int));
            assert(ys.drop_first() =~= y@.subrange(i + 1, y@.len() as int));
        }
        i = i + 1;
    }
    proof {
        let xs = x@.subrange(i as int, x@.len() as int);
        let ys = y@.subrange(i as int, y@.len() as int);
        assert(xs.len() > 0 ==> xs[0] == x@[i as int]);
        assert(ys.len() > 0 ==> ys[0] == y@[i as int]);
    }
    if i == x.len() {
        if i == y.len() {
            Ordering::Equal
        } else {
            Ordering::Less
        }
    } else if i == y.len() {
        Ordering::Greater
    } else if x[i] < y[i] {
        Ordering::Less
    } else {
        Ordering::Greater
    }
}

/// Whether two texts are the same.
pub fn same_text(a: &str, b: &str) -> (r: bool)
    ensures
        r == (a@ == b@),
{
    let x = a.as_bytes();
    let y = b.as_bytes();
    proof {
        encode_utf8_decode_utf8(a@);
        encode_utf8_decode_utf8(b@);
    }
    if x.len() != y.len() {
        return false;
    }
    let mut i: usize = 0;
    while i < x.len()
        invariant
            x@ == a.spec_bytes(),
            y@ == b.spec_bytes(),
            x@.len() == y@.len(),
            0 <= i <= x@.len(),
            forall|j: int| 0 <= j < i ==> x@[j] == y@[j],
        decreases x@.len() - i,
    {
        if x[i] != y[i] {
            return false;
        }
        i = i + 1;
    }
    proof {
        assert(x@ =~= y@);
    }
    true
}

} // verus!
