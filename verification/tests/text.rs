use minigrep::boundary::slice;
use minigrep::lines::find_newline;
use minigrep::lines::take_line;
use minigrep::matcher::match_line;
use minigrep::spans::find_spans;
use minigrep::text::find_from;
use minigrep::text::matches_at;
use minigrep::text::same_bytes;

#[test]
fn an_occurrence_is_compared_byte_by_byte() {
    assert!(matches_at(b"abcabc", b"bc", 1));
    assert!(matches_at(b"abcabc", b"bc", 4));
    assert!(!matches_at(b"abcabc", b"bc", 0));
    assert!(!matches_at(b"abcabc", b"bc", 5));
    assert!(!matches_at(b"abcabc", b"bc", 6));
    assert!(!matches_at(b"abcabc", b"bc", 7));
    assert!(matches_at(b"abc", b"", 0));
    assert!(matches_at(b"abc", b"", 3));
    assert!(!matches_at(b"abc", b"", 4));
    assert!(matches_at(b"", b"", 0));
}

#[test]
fn byte_strings_are_the_same_or_not() {
    assert!(same_bytes(b"", b""));
    assert!(same_bytes(b"auto", b"auto"));
    assert!(!same_bytes(b"auto", b"autos"));
    assert!(!same_bytes(b"autos", b"auto"));
    assert!(!same_bytes(b"auto", b"aut0"));
}

#[test]
fn the_leftmost_occurrence_from_an_offset_is_found() {
    assert_eq!(find_from(b"abcabc", b"bc", 0), Some(1));
    assert_eq!(find_from(b"abcabc", b"bc", 1), Some(1));
    assert_eq!(find_from(b"abcabc", b"bc", 2), Some(4));
    assert_eq!(find_from(b"abcabc", b"bc", 5), None);
    assert_eq!(find_from(b"abcabc", b"bc", 100), None);
    assert_eq!(find_from(b"abcabc", b"abcabcd", 0), None);
    assert_eq!(find_from(b"abcabc", b"", 2), Some(2));
    assert_eq!(find_from(b"abcabc", b"", 6), Some(6));
    assert_eq!(find_from(b"abcabc", b"", 7), None);
    assert_eq!(find_from(b"", b"a", 0), None);
}

#[test]
fn the_search_agrees_with_the_standard_library() {
    let hay = "abracadabra, abracadabra";
    for needle in ["a", "ab", "abra", "cad", "ra,", "xyz", "abracadabra, abracadabra!"] {
        for from in 0..=hay.len() {
            let expected = hay[from..].find(needle).map(|at| at + from);
            assert_eq!(find_from(hay.as_bytes(), needle.as_bytes(), from), expected);
        }
    }
}

#[test]
fn spans_are_found_from_left_to_right() {
    assert_eq!(find_spans(b"aaaa", b"aa"), vec![(0, 2), (2, 4)]);
    assert_eq!(find_spans(b"aaa", b"aa"), vec![(0, 2)]);
    assert_eq!(find_spans(b"abababa", b"aba"), vec![(0, 3), (4, 7)]);
    assert_eq!(find_spans(b"abc", b"abc"), vec![(0, 3)]);
    assert_eq!(find_spans(b"abc", b"abcd"), vec![]);
    assert_eq!(find_spans(b"abc", b""), vec![]);
    assert_eq!(find_spans(b"", b"a"), vec![]);
}

#[test]
fn a_line_is_matched_or_inverted() {
    assert_eq!(match_line(b"trust me", b"rust", false), (true, vec![(1, 5)]));
    assert_eq!(match_line(b"trust me", b"rust", true), (false, vec![]));
    assert_eq!(match_line(b"pick three", b"rust", false), (false, vec![]));
    assert_eq!(match_line(b"pick three", b"rust", true), (true, vec![]));
    assert_eq!(match_line(b"pick three", b"", false), (true, vec![]));
    assert_eq!(match_line(b"pick three", b"", true), (false, vec![]));
}

#[test]
fn the_next_line_feed_is_found() {
    assert_eq!(find_newline(b"ab\ncd\n", 0), 2);
    assert_eq!(find_newline(b"ab\ncd\n", 2), 2);
    assert_eq!(find_newline(b"ab\ncd\n", 3), 5);
    assert_eq!(find_newline(b"ab\ncd", 3), 5);
    assert_eq!(find_newline(b"ab\ncd", 5), 5);
    assert_eq!(find_newline(b"", 0), 0);
}

#[test]
fn a_line_is_taken_without_its_ending() {
    let text = "one\r\ntwo\n\nlast\r";
    assert_eq!(take_line(text, 0), ("one", 5));
    assert_eq!(take_line(text, 5), ("two", 9));
    assert_eq!(take_line(text, 9), ("", 10));
    assert_eq!(take_line(text, 10), ("last\r", 15));
    assert_eq!(take_line("\r\n", 0), ("", 2));
    assert_eq!(take_line("a\r\r\n", 0), ("a\r", 4));
}

#[test]
fn a_slice_is_cut_at_byte_offsets() {
    let text = "aé€z";
    assert_eq!(slice(text, 0, 0), "");
    assert_eq!(slice(text, 0, 1), "a");
    assert_eq!(slice(text, 1, 3), "é");
    assert_eq!(slice(text, 3, 6), "€");
    assert_eq!(slice(text, 1, 7), "é€z");
    assert_eq!(slice(text, 7, 7), "");
}
