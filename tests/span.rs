use nom_grapheme_clusters::parse::Tag;
use nom_grapheme_clusters::span::{Comparison, Endpoint, Spanned, Symbol};
use nom_grapheme_clusters::{Location, Source, Span};

fn src(name: &str, text: &str) -> Source {
    Source::new(name.to_string(), text.to_string())
}

#[test]
fn unitary_range_exclusive() {
    let source = src("foo.rs", "abcdef");
    let segments: Vec<_> = source.full_span().segments().collect();
    let span = Span::from_range(
        segments[1].location().clone(),
        segments[2].location().clone(),
    );
    assert_eq!(span.as_str(), "b");
}

#[test]
fn empty_range_exclusive() {
    let source = src("foo.rs", "abcdef");
    let segments: Vec<_> = source.full_span().segments().collect();
    let span = Span::from_range(
        segments[1].location().clone(),
        segments[1].location().clone(),
    );
    assert_eq!(span.as_str(), "");
}

#[test]
fn unitary_range_inclusive_inclusive() {
    let source = src("foo.rs", "abcdef");
    let segments: Vec<_> = source.full_span().segments().collect();
    let span = Span::from_range_inclusive(
        segments[2].location().clone(),
        segments[2].location().clone(),
    );
    assert_eq!(span.as_str(), "c");
}

#[test]
fn empty_range_inclusive_inclusive() {
    let source = src("foo.rs", "abcdef");
    let segments: Vec<_> = source.full_span().segments().collect();
    let span = Span::from_range_inclusive(
        segments[2].location().clone(),
        segments[1].location().clone(),
    );
    assert_eq!(span.as_str(), "");
}

#[test]
fn segments() {
    let source = src("complicated.rs", "av́e\nmař̋ia\ns̋ic̄");
    let span = source.full_span();
    let sliced_span = span.slice(1..8);
    let mut iterator = sliced_span.segments();

    let segment = iterator.next().unwrap();
    assert_eq!(&segment, "v́");
    assert_eq!(segment.location().position(), 1);
    assert_eq!(segment.location().line_column(), (0, 1));

    let segment = iterator.next().unwrap();
    assert_eq!(&segment, "e");
    assert_eq!(segment.location().position(), 2);
    assert_eq!(segment.location().line_column(), (0, 2));

    let segment = iterator.next().unwrap();
    assert_eq!(&segment, "\n");
    assert_eq!(segment.location().position(), 3);
    assert_eq!(segment.location().line_column(), (0, 3));

    let segment = iterator.next().unwrap();
    assert_eq!(&segment, "m");
    assert_eq!(segment.location().position(), 4);
    assert_eq!(segment.location().line_column(), (1, 0));

    let segment = iterator.next().unwrap();
    assert_eq!(&segment, "a");
    assert_eq!(segment.location().position(), 5);
    assert_eq!(segment.location().line_column(), (1, 1));

    let segment = iterator.next().unwrap();
    assert_eq!(&segment, "ř̋");
    assert_eq!(segment.location().position(), 6);
    assert_eq!(segment.location().line_column(), (1, 2));

    let segment = iterator.next().unwrap();
    assert_eq!(&segment, "i");
    assert_eq!(segment.location().position(), 7);
    assert_eq!(segment.location().line_column(), (1, 3));

    assert_eq!(iterator.next(), None);
}

#[test]
fn full_span_rebuilds_text() {
    for text in ["", "a", "av́e\nmař̋ia\ns̋ic̄", "a\r\nb🇷🇺🇸🇹\n", "e\u{301}\u{302}x"] {
        let source = src("text.rs", text);
        let mut joined = String::new();
        for segment in source.full_span().segments().collect() {
            joined.push_str(segment.as_str());
        }
        assert_eq!(joined, text);
        assert_eq!(source.full_span().as_str(), text);
    }
}

#[test]
fn try_slice_round_trip() {
    let source = src("slices.rs", "av́e\nmař̋ia");
    let span = source.full_span();
    let all: Vec<_> = span.segments().collect();
    for start in 0..=span.len() {
        for end in start..=span.len() {
            let slice = span.try_slice(start..end).unwrap();
            let mut joined = String::new();
            for segment in &all[start..end] {
                joined.push_str(segment.as_str());
            }
            assert_eq!(slice.as_str(), joined);
            assert_eq!(slice.start().position(), start);
            assert_eq!(slice.len(), end - start);
        }
    }
}

#[test]
fn try_slice_rejects_bad_ranges() {
    let source = src("slices.rs", "abcdef");
    let span = source.full_span().slice(1..5);
    assert!(span.try_slice(3..2).is_none());
    assert!(span.try_slice(0..5).is_none());
    assert!(span.try_slice(5..5).is_none());
    assert!(span.try_slice(usize::MAX..usize::MAX).is_none());
    assert!(span.try_slice(0..usize::MAX).is_none());
    assert_eq!(span.try_slice(4..4).unwrap().as_str(), "");
    assert_eq!(span.try_slice(1..3).unwrap().as_str(), "cd");
}

#[test]
fn try_slice_with_endpoints() {
    let source = src("slices.rs", "abcdef");
    let span = source.full_span();
    let piece = |a, b| span.try_slice_bounds(a, b).map(|s| s.as_str().to_string());
    assert_eq!(piece(Endpoint::Included(1), Endpoint::Included(2)), Some("bc".to_string()));
    assert_eq!(piece(Endpoint::Excluded(1), Endpoint::Excluded(4)), Some("cd".to_string()));
    assert_eq!(piece(Endpoint::Unbounded, Endpoint::Excluded(2)), Some("ab".to_string()));
    assert_eq!(piece(Endpoint::Included(4), Endpoint::Unbounded), Some("ef".to_string()));
    assert_eq!(piece(Endpoint::Unbounded, Endpoint::Unbounded), Some("abcdef".to_string()));
    assert_eq!(piece(Endpoint::Included(6), Endpoint::Unbounded), Some(String::new()));
    assert_eq!(piece(Endpoint::Excluded(6), Endpoint::Unbounded), None);
    assert_eq!(piece(Endpoint::Included(0), Endpoint::Included(6)), None);
    assert_eq!(piece(Endpoint::Excluded(usize::MAX), Endpoint::Unbounded), None);
    assert_eq!(piece(Endpoint::Unbounded, Endpoint::Included(usize::MAX)), None);
}

#[test]
fn double_ended_walk_hands_out_each_position_once() {
    let source = src("walk.rs", "av́e\nmař̋ia");
    let span = source.full_span().slice(1..9);
    for pattern in 0u32..256 {
        let mut walk = span.segments();
        let mut seen = Vec::new();
        let mut step = 0;
        loop {
            let from_front = pattern >> (step % 8) & 1 == 1;
            let next = if from_front { walk.next() } else { walk.next_back() };
            match next {
                Some(segment) => seen.push(segment.location().position()),
                None => break,
            }
            step += 1;
        }
        assert_eq!(walk.len(), 0);
        seen.sort();
        assert_eq!(seen, (1..9).collect::<Vec<_>>());
    }
}

#[test]
fn walk_from_the_back() {
    let source = src("walk.rs", "av́e");
    let mut walk = source.full_span().segments();
    let last = walk.next_back().unwrap();
    assert_eq!(&last, "e");
    assert_eq!(last.location().position(), 2);
    assert_eq!(walk.len(), 2);
    let first = walk.next().unwrap();
    assert_eq!(&first, "a");
    let middle = walk.next_back().unwrap();
    assert_eq!(&middle, "v́");
    assert_eq!(walk.next(), None);
    assert_eq!(walk.next_back(), None);
}

#[test]
fn indexed_walk() {
    let source = src("walk.rs", "av́e");
    let mut walk = source.full_span().indexed_segments();
    let (position, segment) = walk.next().unwrap();
    assert_eq!(position, 0);
    assert_eq!(&segment, "a");
    let (position, segment) = walk.next_back().unwrap();
    assert_eq!(position, 2);
    assert_eq!(&segment, "e");
    assert_eq!(walk.len(), 1);
    let (position, _) = walk.next().unwrap();
    assert_eq!(position, 1);
    assert!(walk.next().is_none());
    assert!(walk.next_back().is_none());
}

#[test]
fn start_end_and_lines() {
    let source = src("file.txt", "atn̩̊smtha");
    let span = source.full_span().slice(0..3);
    assert_eq!(span.as_str(), "atn̩̊");
    assert_eq!(span.start().position(), 0);
    assert_eq!(span.end().position(), 3);
    assert_eq!(span.end().line(), 0);
    assert_eq!(span.end().column(), 3);
    assert_eq!(span.source().name(), "file.txt");
}

#[test]
fn expand_lines_inside_one_line() {
    let source = src("lines.rs", "first\nsecond line\nlast");
    let span = source.full_span().slice(8..12);
    assert_eq!(span.as_str(), "cond");
    assert_eq!(span.expand_lines().as_str(), "second line\n");
    let tail = source.full_span().slice(19..21);
    assert_eq!(tail.as_str(), "as");
    assert_eq!(tail.expand_lines().as_str(), "last");
    let head = source.full_span().slice(0..1);
    assert_eq!(head.expand_lines().as_str(), "first\n");
    let whole_first = source.full_span().slice(0..6);
    assert_eq!(whole_first.as_str(), "first\n");
    assert_eq!(whole_first.expand_lines().as_str(), "first\n");
    let with_feed = source.full_span().slice(8..18);
    assert_eq!(with_feed.expand_lines().as_str(), "second line\n");
    let short = src("short.rs", "a\nb\nc");
    assert_eq!(short.full_span().slice(0..2).expand_lines().as_str(), "a\n");
}

#[test]
fn expand_lines_across_lines() {
    let source = src("lines.rs", "first\nsecond line\nlast");
    let span = source.full_span().slice(3..8);
    assert_eq!(span.expand_lines().as_str(), "first\nsecond line\n");
    let empty = source.full_span().slice(6..6);
    assert_eq!(empty.expand_lines().as_str(), "second line\n");
}

#[test]
fn line_span_of_a_location() {
    let source = src("lines.rs", "ab\ncd\nef");
    let location = Location::new(source.clone(), 4);
    assert_eq!(location.line_span().as_str(), "cd\n");
    let end = Location::new(source.clone(), source.len());
    assert_eq!(end.line_span().as_str(), "ef");
    assert_eq!(end.line_column(), (2, 2));
}

#[test]
fn location_text() {
    let source = src("loc.rs", "av́e");
    let location = Location::new(source, 1);
    assert_eq!(location.as_str(), "v́");
    assert_eq!(location.segment().as_str(), "v́");
    assert_eq!(location.span().as_str(), "v́");
}

#[test]
fn content_compares_by_text() {
    let source = src("content.rs", "abab");
    let first = source.full_span().slice(0..2).content();
    let second = source.full_span().slice(2..4).content();
    assert!(first == second);
    assert_eq!(first.as_str(), "ab");
    assert!(first == *"ab");
    let other = source.full_span().slice(1..3).content();
    assert!(first != other);
    assert_eq!(first.try_slice(1..2).unwrap().as_str(), "b");
    assert!(first.try_slice(1..3).is_none());
    assert_eq!(first.segments().len(), 2);
    assert_eq!(first.indexed_segments().next().unwrap().0, 0);
    assert_eq!(second.span().start().position(), 2);
    let spans_equal = source.full_span().slice(0..2) == source.full_span().slice(2..4);
    assert!(!spans_equal);
}

#[test]
fn compare_with_tag() {
    let source = src("tag.rs", "atn̩̊smtha");
    let span = source.full_span();
    assert_eq!(span.compare_tag(Tag(&["a", "t", "n̩̊"])), Comparison::Matched);
    assert_eq!(span.compare_tag(Tag(&["a", "t", "n"])), Comparison::Mismatched);
    assert_eq!(span.slice(7..8).compare_tag(Tag(&["a", "b"])), Comparison::Incomplete);
    assert_eq!(span.slice(7..8).compare_tag(Tag(&["b", "b"])), Comparison::Mismatched);
    assert_eq!(span.compare_tag(Tag(&[])), Comparison::Matched);
    assert_eq!(span.compare_tag_no_case(Tag(&["A", "T"])), Comparison::Matched);
    assert_eq!(span.compare_tag(Tag(&["A", "T"])), Comparison::Mismatched);
    assert_eq!(span.compare_tag_no_case(Tag(&["A", "X"])), Comparison::Mismatched);
}

#[test]
fn find_a_segment() {
    let source = src("find.rs", "atn̩̊s");
    let span = source.full_span();
    assert!(span.find_segment("n̩̊"));
    assert!(!span.find_segment("n"));
    assert!(span.find_segment("s"));
    assert!(!span.slice(0..3).find_segment("s"));
}

#[test]
fn tag_segments() {
    let tag = Tag(&["a", "b̂", "c"]);
    assert_eq!(tag.len(), 3);
    let mut walk = tag.segments();
    assert_eq!(walk.len(), 3);
    assert_eq!(walk.next(), Some("a"));
    assert_eq!(walk.next(), Some("b̂"));
    assert_eq!(walk.next(), Some("c"));
    assert_eq!(walk.next(), None);
}

#[test]
fn symbols_keep_their_span() {
    let source = src("sym.rs", "42");
    let span = source.full_span();
    let symbol = Symbol { span: span.clone(), data: 42u32 };
    let doubled = symbol.clone().map(|n| n * 2);
    assert_eq!(doubled.data, 84);
    assert_eq!(doubled.span.as_str(), "42");
    let borrowed = symbol.as_ref();
    assert_eq!(*borrowed.data, 42);
    assert_eq!(symbol.span().as_str(), "42");
}

#[test]
fn descriptions_for_messages() {
    let source = src("lines.rs", "ab\ncd\nef");
    assert_eq!(Location::new(source.clone(), 4).describe(), "in lines.rs (2, 2)");
    assert_eq!(Location::new(source.clone(), 0).describe(), "in lines.rs (1, 1)");
    let span = source.full_span().slice(1..4);
    assert_eq!(span.describe(), "in lines.rs from (1, 2) to (2, 2)");
    let long = src("long.rs", &"x".repeat(12));
    assert_eq!(Location::new(long, 11).describe(), "in long.rs (1, 12)");
}

#[test]
fn contents_order_and_hash_by_text() {
    let source = src("content.rs", "abcab");
    let ab = source.full_span().slice(0..2).content();
    let abc = source.full_span().slice(0..3).content();
    let again = source.full_span().slice(3..5).content();
    let b = source.full_span().slice(1..2).content();
    assert!(ab < abc);
    assert!(abc < b);
    assert_eq!(ab.partial_cmp(&again), Some(std::cmp::Ordering::Equal));
    let set: std::collections::HashSet<_> = vec![ab, abc, again, b].into_iter().collect();
    assert_eq!(set.len(), 3);
}

#[test]
fn symbols_compare_by_data() {
    let source = src("sym.rs", "1 1 2");
    let one = Symbol { span: source.full_span().slice(0..1), data: 1u32 };
    let other_one = Symbol { span: source.full_span().slice(2..3), data: 1u32 };
    let two = Symbol { span: source.full_span().slice(4..5), data: 2u32 };
    assert!(one == other_one);
    assert!(one != two);
    assert!(one < two);
    let set: std::collections::HashSet<_> = vec![one, other_one, two].into_iter().collect();
    assert_eq!(set.len(), 2);
}

#[test]
fn symbol_data_through_a_mutable_reference() {
    let source = src("sym.rs", "x");
    let mut symbol = Symbol { span: source.full_span(), data: 1u32 };
    {
        let view = symbol.as_mut();
        *view.data = 5;
        assert_eq!(view.span.as_str(), "x");
    }
    assert_eq!(symbol.data, 5);
}
