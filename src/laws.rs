//! Properties that hold across the operations of the library.
use crate::segment_index::{lemma_count_below_monotonic, lemma_split_point_is_count};
use crate::source::SourceModel;
use crate::span::SpanModel;
use crate::text::{grapheme_starts, text_of};
use vstd::prelude::*;
use vstd::utf8::*;

verus! {

broadcast use vstd::utf8::group_utf8_lib;

/// The bytes of the grapheme clusters from ordinal `a` up to `b`, one cluster
/// after another.
pub open spec fn joined_segments(s: SourceModel, a: int, b: int) -> Seq<u8>
    decreases b - a,
{
    if b <= a {
        Seq::empty()
    } else {
        joined_segments(s, a, b - 1) + s.segment_bytes(b - 1)
    }
}

/// Joining the clusters of a range one by one gives the bytes of the range.
pub proof fn lemma_joined_segments(s: SourceModel, a: int, b: int)
    requires
        s.wf(),
        0 <= a <= b <= s.len(),
    ensures
        joined_segments(s, a, b) == s.range_bytes(a, b),
    decreases b - a,
{
    if b > a {
        lemma_joined_segments(s, a, b - 1);
        assert(s.bounds[a] <= s.bounds[b - 1] < s.bounds[b]) by {
            if a < b - 1 {
                assert(s.bounds[a] < s.bounds[b - 1]);
            }
        }
        assert(s.range_bytes(a, b - 1) + s.segment_bytes(b - 1) =~= s.range_bytes(a, b));
    }
}

/// The clusters of a whole source, joined in order, give back its text.
pub proof fn lemma_segments_rebuild_text(s: SourceModel)
    requires
        s.wf(),
    ensures
        joined_segments(s, 0, s.len() as int) == s.bytes(),
        text_of(joined_segments(s, 0, s.len() as int)) == s.text,
{
    lemma_joined_segments(s, 0, s.len() as int);
    assert(s.range_bytes(0, s.len() as int) =~= s.bytes());
    encode_utf8_decode_utf8(s.text);
}

/// The part of a span between offsets `a` and `b` covers the clusters from
/// `start + a` up to `start + b`, joined in order.
pub proof fn lemma_slice_joins_segments(sp: SpanModel, a: int, b: int)
    requires
        sp.source.wf(),
        sp.end() <= sp.source.len(),
        0 <= a <= b <= sp.len,
    ensures
        (SpanModel {
            source: sp.source,
            start: (sp.start + a) as nat,
            len: (b - a) as nat,
        }).bytes() == joined_segments(sp.source, sp.start + a, sp.start + b),
{
    lemma_joined_segments(sp.source, sp.start + a, sp.start + b);
}

/// A source split at the starts of its extended grapheme clusters has as
/// many positions as it has clusters, whatever their bytes or code points.
pub proof fn lemma_len_counts_clusters(s: SourceModel)
    requires
        s.bounds == grapheme_starts(s.text).push(s.bytes().len() as usize),
    ensures
        s.len() == grapheme_starts(s.text).len(),
{
}

/// The line of a position never decreases as the position grows.
pub proof fn lemma_line_monotonic(s: SourceModel, p: int, q: int)
    requires
        p <= q,
    ensures
        s.line_of(p) <= s.line_of(q),
{
    lemma_count_below_monotonic(s.newlines, p, q);
}

/// The positions handed out when a span's clusters are taken from the front
/// (`true`) or from the back (`false`), one step per entry of `fronts`, until
/// none is left.
pub open spec fn drained(sp: SpanModel, fronts: Seq<bool>) -> Seq<int>
    decreases fronts.len(),
{
    if fronts.len() == 0 || sp.len == 0 {
        Seq::empty()
    } else if fronts[0] {
        seq![sp.start as int] + drained(sp.drop_front(), fronts.drop_first())
    } else {
        seq![sp.end() - 1] + drained(sp.drop_back(), fronts.drop_first())
    }
}

/// However the steps alternate between the two ends, as long as there are
/// enough of them, every position of the span comes out exactly once; taken
/// from the front only, they come out in order.
pub proof fn lemma_drain_both_ends(sp: SpanModel, fronts: Seq<bool>)
    requires
        fronts.len() >= sp.len,
    ensures
        drained(sp, fronts).len() == sp.len,
        drained(sp, fronts).no_duplicates(),
        forall|p: int| drained(sp, fronts).contains(p) <==> sp.start <= p < sp.end(),
        drained(sp, Seq::new(sp.len, |i: int| true)) == Seq::new(sp.len, |i: int| sp.start + i),
    decreases fronts.len(),
{
    lemma_drain_forward(sp);
    if fronts.len() > 0 && sp.len > 0 {
        let rest = fronts.drop_first();
        let next = if fronts[0] {
            sp.drop_front()
        } else {
            sp.drop_back()
        };
        lemma_drain_both_ends(next, rest);
        let head = if fronts[0] {
            sp.start as int
        } else {
            sp.end() - 1
        };
        let tail = drained(next, rest);
        assert(drained(sp, fronts) == seq![head] + tail);
        assert(!tail.contains(head));
        assert forall|p: int| drained(sp, fronts).contains(p) <==> sp.start <= p < sp.end() by {
            if drained(sp, fronts).contains(p) {
                let k = choose|k: int| 0 <= k < drained(sp, fronts).len() && drained(sp, fronts)[k] == p;
                if k > 0 {
                    assert(tail[k - 1] == p);
                    assert(tail.contains(p));
                } else {
                    assert(p == head);
                }
            }
            if sp.start <= p < sp.end() && p != head {
                assert(tail.contains(p));
                let k = choose|k: int| 0 <= k < tail.len() && tail[k] == p;
                assert(drained(sp, fronts)[k + 1] == p);
            }
            if p == head {
                assert(drained(sp, fronts)[0] == p);
            }
        }
        assert forall|i: int, j: int|
            0 <= i < j < drained(sp, fronts).len() implies drained(sp, fronts)[i] != drained(
                sp,
                fronts,
            )[j] by {
            if i == 0 {
                assert(tail[j - 1] == drained(sp, fronts)[j]);
            } else {
                assert(tail[i - 1] == drained(sp, fronts)[i]);
                assert(tail[j - 1] == drained(sp, fronts)[j]);
            }
        }
    }
}

/// Taking every cluster from the front hands out the positions in order.
proof fn lemma_drain_forward(sp: SpanModel)
    ensures
        drained(sp, Seq::new(sp.len, |i: int| true)) == Seq::new(sp.len, |i: int| sp.start + i),
    decreases sp.len,
{
    let all = Seq::new(sp.len, |i: int| true);
    if sp.len > 0 {
        lemma_drain_forward(sp.drop_front());
        assert(all.drop_first() =~= Seq::new(sp.drop_front().len, |i: int| true));
        assert(drained(sp, all) =~= Seq::new(sp.len, |i: int| sp.start + i));
    } else {
        assert(drained(sp, all) =~= Seq::new(sp.len, |i: int| sp.start + i));
    }
}

/// Growing a span whose grapheme clusters all lie on one line, the line feed
/// ending that line included, gives exactly that line: it starts at the
/// text's start or just after a line feed, ends at the text's end or just
/// after a line feed, holds no other line feed, and holds the span.
pub proof fn lemma_expand_single_line(sp: SpanModel)
    requires
        sp.source.wf(),
        sp.end() <= sp.source.len(),
        sp.source.line_of(sp.start as int) == sp.source.line_of(sp.last_position()),
    ensures
        ({
            let s = sp.source;
            let a = sp.first_line_start();
            let e = sp.after_last_line();
            &&& 0 <= a <= sp.start
            &&& sp.end() <= e <= s.len()
            &&& a == 0 || s.is_line_feed_at(a - 1)
            &&& e == s.len() || s.is_line_feed_at(e - 1)
            &&& forall|i: int| a <= i < e && #[trigger] s.is_line_feed_at(i) ==> i == e - 1
        }),
{
    let s = sp.source;
    let nl = s.newlines;
    let line = s.line_of(sp.start as int) as int;
    let a = sp.first_line_start();
    let e = sp.after_last_line();
    lemma_line_position(s, sp.start as int);
    lemma_line_position(s, sp.last_position());
    assert forall|i: int| a <= i < e && #[trigger] s.is_line_feed_at(i) implies i == e - 1 by {
        assert(nl.contains(i as usize));
        let k = choose|k: int| 0 <= k < nl.len() && nl[k] == i as usize;
        if k < line {
            if k < line - 1 {
                assert(nl[k] < nl[line - 1]);
            }
        } else if k > line {
            assert(nl[line] < nl[k]);
        }
    }
}

/// Where the line feeds stand around a position: those before its line's
/// count lie before it, the others at or after it.
proof fn lemma_line_position(s: SourceModel, p: int)
    requires
        s.wf(),
    ensures
        s.line_of(p) <= s.newlines.len(),
        forall|k: int| 0 <= k < s.line_of(p) ==> s.newlines[k] < p,
        forall|k: int| s.line_of(p) <= k < s.newlines.len() ==> s.newlines[k] >= p,
{
    let nl = s.newlines;
    let i = choose_split(nl, p);
    lemma_split_point_is_count(nl, p, i);
}

/// The first place in a strictly increasing sequence whose element is at
/// least `v`, or its length.
proof fn choose_split(s: Seq<usize>, v: int) -> (i: int)
    requires
        crate::segment_index::strictly_increasing(s),
    ensures
        0 <= i <= s.len(),
        forall|j: int| 0 <= j < i ==> s[j] < v,
        forall|j: int| i <= j < s.len() ==> s[j] >= v,
    decreases s.len(),
{
    if s.len() == 0 {
        0
    } else if s.last() < v {
        assert forall|j: int| 0 <= j < s.len() implies s[j] < v by {
            if j < s.len() - 1 {
                assert(s[j] < s[s.len() - 1]);
            }
        }
        s.len() as int
    } else {
        let t = s.drop_last();
        assert(crate::segment_index::strictly_increasing(t)) by {
            assert forall|x: int, y: int| 0 <= x < y < t.len() implies t[x] < t[y] by {
                assert(s[x] < s[y]);
            }
        }
        let i = choose_split(t, v);
        assert forall|j: int| 0 <= j < i implies s[j] < v by {
            assert(s[j] == t[j]);
        }
        assert forall|j: int| i <= j < s.len() implies s[j] >= v by {
            if j < s.len() - 1 {
                assert(s[j] == t[j]);
            }
        }
        i
    }
}

} // verus!
