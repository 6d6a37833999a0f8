use nom_grapheme_clusters::segment_index::SegmentIndex;
use std::collections::HashSet;
use nom_grapheme_clusters::{LocatedSegment, Source};

fn clusters(text: &str) -> Vec<LocatedSegment> {
    Source::new("seg.rs".to_string(), text.to_string()).full_span().segments().collect()
}

#[test]
fn alphabetic_clusters() {
    let c = clusters("aé\u{301}1 Ж");
    assert!(c[0].is_alphabetic());
    assert!(c[0].is_ascii_alphabetic());
    assert!(c[1].is_alphabetic());
    assert!(!c[1].is_ascii_alphabetic());
    assert!(!c[1].is_single_char());
    assert!(c[0].is_single_char());
    assert!(!c[2].is_alphabetic());
    assert!(c[4].is_alphabetic());
    assert!(c[4].is_single_char());
    assert!(!c[4].is_ascii_alphabetic());
}

#[test]
fn numeric_clusters() {
    let c = clusters("7٣x9\u{301}");
    assert!(c[0].is_numeric());
    assert!(c[0].is_ascii_numeric());
    assert!(c[1].is_numeric());
    assert!(!c[1].is_ascii_numeric());
    assert!(!c[2].is_numeric());
    assert!(c[3].is_numeric());
    assert!(!c[3].is_ascii_numeric());
    assert!(c[2].is_alphanumeric());
    assert!(c[2].is_ascii_alphanumeric());
    assert!(c[1].is_alphanumeric());
    assert!(!c[1].is_ascii_alphanumeric());
}

#[test]
fn digits_of_a_base() {
    let c = clusters("7fZg9\u{301}");
    assert_eq!(c[0].to_digit(10), Some(7));
    assert_eq!(c[0].to_digit(2), None);
    assert!(c[0].is_digit(8));
    assert!(!c[0].is_digit(7));
    assert_eq!(c[1].to_digit(16), Some(15));
    assert_eq!(c[1].to_digit(10), None);
    assert_eq!(c[2].to_digit(36), Some(35));
    assert_eq!(c[3].to_digit(16), None);
    assert!(!c[4].is_digit(10));
    assert_eq!(c[4].to_digit(10), None);
}

#[test]
fn space_and_line_feed_clusters() {
    let c = clusters(" \n\t\u{3000}a\r\n");
    assert!(c[0].is_space());
    assert!(c[0].is_whitespace());
    assert!(!c[0].is_newline());
    assert!(c[1].is_newline());
    assert!(c[1].is_whitespace());
    assert!(!c[2].is_space());
    assert!(c[2].is_whitespace());
    assert!(c[3].is_whitespace());
    assert!(!c[4].is_whitespace());
    assert!(!c[5].is_newline());
    assert!(c[5].is_whitespace());
}

#[test]
fn located_segments_compare_by_text() {
    let c = clusters("abab");
    assert!(c[0] == c[2]);
    assert!(c[0] != c[1]);
    assert!(c[0] == *"a");
    assert_eq!(c[3].location().position(), 3);
}

#[test]
fn segment_index_search() {
    let mut index = SegmentIndex::new();
    for offset in [2, 5, 9] {
        index.push(offset);
    }
    assert_eq!(index.len(), 3);
    assert_eq!(index.get(1), Some(5));
    assert_eq!(index.get(3), None);
    assert_eq!(index.index(2), 9);
    assert_eq!(index.binary_search(5), Ok(1));
    assert_eq!(index.binary_search(1), Err(0));
    assert_eq!(index.binary_search(6), Err(2));
    assert_eq!(index.binary_search(10), Err(3));
    let mut walk = index.iter();
    assert_eq!(walk.next_back(), Some(9));
    assert_eq!(walk.next(), Some(2));
    assert_eq!(walk.len(), 1);
}

#[test]
fn line_ending_clusters() {
    let c = clusters("a\n\r\n\r");
    assert!(!c[0].is_line_ending());
    assert!(c[1].is_line_ending());
    assert!(c[2].is_line_ending());
    assert!(!c[3].is_line_ending());
}

#[test]
fn first_line_ending_of_a_span() {
    let source = Source::new("le.rs".to_string(), "ab\r\ncd\nef".to_string());
    let span = source.full_span();
    assert_eq!(span.line_ending_position(), Some(2));
    assert_eq!(span.slice(3..8).line_ending_position(), Some(2));
    assert_eq!(span.slice(6..8).line_ending_position(), None);
    assert_eq!(span.slice(0..0).line_ending_position(), None);
}

#[test]
fn located_segments_order_and_hash_by_text() {

    let c = clusters("baéb");
    assert!(c[1] < c[0]);
    assert!(c[0] > c[1]);
    assert!(c[0] <= c[3]);
    assert!(c[0] < c[2]);
    assert_eq!(c[0].partial_cmp(&c[3]), Some(std::cmp::Ordering::Equal));
    let distinct: HashSet<LocatedSegment> = c.into_iter().collect();
    assert_eq!(distinct.len(), 3);
}
