use nom_grapheme_clusters::source::{index_clusters, Source};
use nom_grapheme_clusters::text::count_grapheme_clusters;

fn src(name: &str, text: &str) -> Source {
    Source::new(name.to_string(), text.to_string())
}

#[test]
fn index_segments() {
    let source = src("complicated.rs", "av́e\nmař̋ia\ns̋ic̄");

    let mut index = 0;
    assert_eq!(source.get(index), Some("a"));
    index += 1;
    assert_eq!(source.get(index), Some("v́"));
    index += 1;
    assert_eq!(source.get(index), Some("e"));
    index += 1;
    assert_eq!(source.get(index), Some("\n"));
    index += 1;
    assert_eq!(source.get(index), Some("m"));
    index += 1;
    assert_eq!(source.get(index), Some("a"));
    index += 1;
    assert_eq!(source.get(index), Some("ř̋"));
    index += 1;
    assert_eq!(source.get(index), Some("i"));
    index += 1;
    assert_eq!(source.get(index), Some("a"));
    index += 1;
    assert_eq!(source.get(index), Some("\n"));
    index += 1;
    assert_eq!(source.get(index), Some("s̋"));
    index += 1;
    assert_eq!(source.get(index), Some("i"));
    index += 1;
    assert_eq!(source.get(index), Some("c̄"));
    index += 1;
    assert_eq!(source.get(index), None);
}

#[test]
fn length_counts_clusters_not_code_points() {
    let source = src("accent.rs", "e\u{301}");
    assert_eq!(source.len(), 1);
    assert_eq!(source.contents().len(), 3);
    assert_eq!(source.get(0), Some("e\u{301}"));
    assert_eq!(count_grapheme_clusters("e\u{301}"), 1);
    assert_eq!(count_grapheme_clusters("a\r\nb🇷🇺🇸🇹"), 5);
    assert_eq!(count_grapheme_clusters(""), 0);
}

#[test]
fn empty_source() {
    let source = src("empty.rs", "");
    assert_eq!(source.len(), 0);
    assert_eq!(source.get(0), None);
    assert_eq!(source.line(0), 0);
    assert_eq!(source.try_line_start(0), Some(0));
    assert_eq!(source.try_line_start(1), None);
    assert_eq!(source.full_span().as_str(), "");
    let mut bounds = source.seg_byte_indices();
    assert_eq!(bounds.len(), 1);
    assert_eq!(bounds.next(), Some(0));
    assert_eq!(bounds.next(), None);
}

#[test]
fn name_and_contents() {
    let source = src("file.txt", "ab\ncd");
    assert_eq!(source.name(), "file.txt");
    assert_eq!(source.contents(), "ab\ncd");
}

#[test]
fn line_numbers_and_starts() {
    let source = src("lines.rs", "a\nb");
    assert_eq!(source.line(0), 0);
    assert_eq!(source.line(1), 0);
    assert_eq!(source.line(2), 1);
    assert_eq!(source.line(3), 1);
    assert_eq!(source.line_start(0), 0);
    assert_eq!(source.line_start(1), 2);
    assert_eq!(source.try_line_start(1), Some(2));
    assert_eq!(source.try_line_start(2), None);
}

#[test]
fn line_is_non_decreasing() {
    let source = src("lines.rs", "ab\n\ncd\ne\n");
    let mut previous = 0;
    for position in 0..=source.len() {
        let line = source.line(position);
        assert!(line >= previous);
        previous = line;
    }
    assert_eq!(source.line(source.len()), 4);
}

#[test]
fn segment_byte_offsets_from_both_ends() {
    let source = src("bytes.rs", "av́e");
    let mut bounds = source.seg_byte_indices();
    assert_eq!(bounds.len(), 4);
    assert_eq!(bounds.next(), Some(0));
    assert_eq!(bounds.next_back(), Some(5));
    assert_eq!(bounds.next(), Some(1));
    assert_eq!(bounds.next_back(), Some(4));
    assert_eq!(bounds.len(), 0);
    assert_eq!(bounds.next(), None);
    assert_eq!(bounds.next_back(), None);
}

#[test]
fn newline_ordinals() {
    let source = src("lines.rs", "av́e\nmař̋ia\ns̋ic̄");
    let mut lines = source.newline_indices();
    assert_eq!(lines.len(), 2);
    assert_eq!(lines.next(), Some(3));
    assert_eq!(lines.next(), Some(9));
    assert_eq!(lines.next(), None);
    let mut lines = source.newline_indices();
    assert_eq!(lines.next_back(), Some(9));
    assert_eq!(lines.next_back(), Some(3));
    assert_eq!(lines.next_back(), None);
}

#[test]
fn carriage_return_line_feed_is_one_cluster_and_no_line_feed() {
    let source = src("crlf.rs", "a\r\nb\nc");
    assert_eq!(source.len(), 5);
    assert_eq!(source.get(1), Some("\r\n"));
    let mut lines = source.newline_indices();
    assert_eq!(lines.next(), Some(3));
    assert_eq!(lines.next(), None);
}

#[test]
fn ranges_of_clusters() {
    let source = src("range.rs", "av́e\nm");
    assert_eq!(source.get_range(1, 3), Some("v́e"));
    assert_eq!(source.get_range(2, 2), Some(""));
    assert_eq!(source.get_range(3, 2), None);
    assert_eq!(source.get_range(0, 6), None);
    assert_eq!(source.get_range(0, 5), Some("av́e\nm"));
    assert_eq!(source.index(1), "v́");
    assert_eq!(source.index_range(0, 2), "av́");
}

#[test]
fn sources_compare_by_identity() {
    let first = src("same.rs", "text");
    let second = src("same.rs", "text");
    assert!(first != second);
    let handle = first.clone();
    assert!(first == handle);
    assert!(first == first);
}

#[test]
fn cluster_tables_from_given_starts() {
    let (segments, newlines) = index_clusters("a\nb", &vec![0, 1, 2]);
    assert_eq!(segments.len(), 4);
    assert_eq!(segments.get(3), Some(3));
    assert_eq!(newlines.len(), 1);
    assert_eq!(newlines.get(0), Some(1));

    let (segments, newlines) = index_clusters("é\n\n", &vec![0, 2, 3]);
    assert_eq!(segments.index(1), 2);
    assert_eq!(segments.index(3), 4);
    assert_eq!(newlines.len(), 2);
    assert_eq!(newlines.index(0), 1);
    assert_eq!(newlines.index(1), 2);

    let (segments, newlines) = index_clusters("\r\n", &vec![0]);
    assert_eq!(segments.len(), 2);
    assert_eq!(newlines.len(), 0);
}
