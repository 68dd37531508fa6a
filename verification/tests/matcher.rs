use minigrep::search;
use minigrep::search_case_insensitive;
use minigrep::search_count;
use minigrep::search_invert;

#[test]
fn test_search() {
    let query = "duct";
    let contents = "\
Rust:
safe, fast, productive.
Pick three.
Duct tape.";

    let results = search(query, contents);
    assert_eq!(results.len(), 1);
    assert_eq!(results[0].0, 2);
    assert_eq!(results[0].1, "safe, fast, productive.");
    assert_eq!(results[0].2, vec![(15, 19)]);
    assert_eq!(&results[0].1[15..19], "duct");
}

#[test]
fn test_search_case_insensitive() {
    let query = "RuSt";
    let contents = "\
Rust:
safe, fast, productive.
Pick three.
Trust me.";

    let results = search_case_insensitive(query, contents);
    assert_eq!(results.len(), 2);
    assert_eq!(results[0].1, "Rust:");
    assert_eq!(results[1].1, "Trust me.");
}

#[test]
fn test_search_invert() {
    let query = "rust";
    let contents = "\
Rust:
safe, fast, productive.
Pick three.
Trust me.";

    let results = search_invert(query, contents, true);
    assert_eq!(results.len(), 2);
    assert_eq!(results[0].1, "safe, fast, productive.");
    assert_eq!(results[1].1, "Pick three.");
}

#[test]
fn case_insensitive_search_numbers_lines_and_reports_spans() {
    let contents = "Rust:\nsafe, fast, productive.\nPick three.\nTrust me.";
    let results = search_case_insensitive("RuSt", contents);
    assert_eq!(results[0].0, 1);
    assert_eq!(results[0].2, vec![(0, 4)]);
    assert_eq!(results[1].0, 4);
    assert_eq!(results[1].2, vec![(1, 5)]);
}

#[test]
fn inverted_search_numbers_lines_and_reports_no_spans() {
    let contents = "Rust:\nsafe, fast, productive.\nPick three.\nTrust me.";
    let results = search_invert("rust", contents, true);
    assert_eq!(results[0].0, 2);
    assert_eq!(results[1].0, 3);
    assert!(results[0].2.is_empty());
    assert!(results[1].2.is_empty());
    let sensitive = search_invert("rust", contents, false);
    assert_eq!(sensitive.len(), 3);
    assert_eq!(sensitive[0].1, "Rust:");
    assert_eq!(sensitive[0].0, 1);
    assert_eq!(sensitive[2].0, 3);
}

#[test]
fn count_follows_the_search() {
    let contents = "Rust:\nsafe, fast, productive.\nPick three.\nTrust me.";
    assert_eq!(search_count("rust", contents, false, false), 1);
    assert_eq!(search_count("rust", contents, true, false), 2);
    assert_eq!(search_count("rust", contents, false, true), 3);
    assert_eq!(search_count("rust", contents, true, true), 2);
    assert_eq!(search_count("rust", contents, false, false), search("rust", contents).len());
    assert_eq!(
        search_count("rust", contents, true, false),
        search_case_insensitive("rust", contents).len()
    );
}

#[test]
fn every_line_is_found_or_inverted_but_not_both() {
    let contents = "one\ntwo one\n\nthree\none one\r\nlast";
    for query in ["one", "t", "", "zzz", "three\n"] {
        let found = search(query, contents);
        let others = search_invert(query, contents, false);
        assert_eq!(found.len() + others.len(), contents.lines().count());
        for number in 1..=contents.lines().count() {
            let here = found.iter().filter(|hit| hit.0 == number).count();
            let there = others.iter().filter(|hit| hit.0 == number).count();
            assert_eq!(here + there, 1);
        }
    }
}

#[test]
fn folding_case_finds_no_fewer_lines_in_ascii_text() {
    let contents = "Alpha\nalpha beta\nBETA\ngamma\n";
    for query in ["alpha", "Alpha", "BETA", "a", "", "delta"] {
        let folded = search_case_insensitive(query, contents).len();
        let exact = search(query, contents).len();
        assert!(folded >= exact);
    }
    assert_eq!(search_case_insensitive("beta", contents).len(), 2);
    assert_eq!(search("beta", contents).len(), 1);
}

#[test]
fn spans_come_left_to_right_without_overlap() {
    let results = search("aa", "aaaaa\nbaab aa\n");
    assert_eq!(results.len(), 2);
    assert_eq!(results[0].2, vec![(0, 2), (2, 4)]);
    assert_eq!(results[1].2, vec![(1, 3), (5, 7)]);
    for hit in &results {
        for pair in hit.2.windows(2) {
            assert!(pair[0].1 <= pair[1].0);
        }
        for span in &hit.2 {
            assert_eq!(&hit.1[span.0..span.1], "aa");
        }
    }
}

#[test]
fn spans_split_no_character() {
    let contents = "naïve café\nçç\n";
    let results = search("é", contents);
    assert_eq!(results.len(), 1);
    assert_eq!(results[0].2, vec![(10, 12)]);
    let doubled = search("ç", contents);
    assert_eq!(doubled[0].0, 2);
    assert_eq!(doubled[0].2, vec![(0, 2), (2, 4)]);
    for span in &doubled[0].2 {
        assert!(doubled[0].1.is_char_boundary(span.0));
        assert!(doubled[0].1.is_char_boundary(span.1));
    }
}

#[test]
fn lines_are_those_of_the_standard_library() {
    for contents in [
        "",
        "\n",
        "a",
        "a\n",
        "a\n\n",
        "a\r\nb",
        "a\r\n",
        "a\r",
        "\r\n\r\n",
        "\n\r\n",
        "a\rb\nc",
        "x\r\r\ny",
        "last line\nwithout end",
        "é\nü\r\n",
    ] {
        let all = search("", contents);
        let expected: Vec<&str> = contents.lines().collect();
        let lines: Vec<&str> = all.iter().map(|hit| hit.1).collect();
        assert_eq!(lines, expected);
        let numbers: Vec<usize> = all.iter().map(|hit| hit.0).collect();
        let counted: Vec<usize> = (1..=expected.len()).collect();
        assert_eq!(numbers, counted);
    }
}

#[test]
fn empty_query_selects_every_line_without_spans() {
    let contents = "one\n\ntwo";
    let found = search("", contents);
    assert_eq!(found.len(), 3);
    assert!(found.iter().all(|hit| hit.2.is_empty()));
    assert_eq!(search_case_insensitive("", contents).len(), 3);
    assert!(search_invert("", contents, false).is_empty());
    assert!(search_invert("", contents, true).is_empty());
    assert_eq!(search_count("", contents, false, false), 3);
    assert_eq!(search_count("", contents, true, true), 0);
}

#[test]
fn empty_content_has_no_lines() {
    assert!(search("a", "").is_empty());
    assert!(search_case_insensitive("a", "").is_empty());
    assert!(search_invert("a", "", false).is_empty());
    assert_eq!(search_count("a", "", false, false), 0);
    assert_eq!(search_count("a", "", false, true), 0);
}

#[test]
fn query_longer_than_line_matches_nothing() {
    let found = search("longer than any line", "short\nlines\n");
    assert!(found.is_empty());
    assert_eq!(search_invert("longer than any line", "short\nlines\n", false).len(), 2);
}

#[test]
fn query_never_matches_across_lines() {
    assert!(search("a\nb", "a\nb").is_empty());
    assert_eq!(search_count("a\nb", "a\nb", false, true), 2);
}

#[test]
fn case_is_folded_beyond_ascii_by_the_standard_library() {
    let contents = "CAFÉ au lait\nthé\n";
    let found = search_case_insensitive("café", contents);
    assert_eq!(found.len(), 1);
    assert_eq!(found[0].0, 1);
    assert_eq!(found[0].2, vec![(0, 5)]);
    assert!(search("café", contents).is_empty());
    assert_eq!(search_count("THÉ", contents, true, false), 1);
}

#[test]
fn spans_of_a_fold_that_changes_length_are_offsets_into_the_fold() {
    let line = "\u{130}x";
    assert_eq!(line.len(), 3);
    let found = search_case_insensitive("x", line);
    assert_eq!(found.len(), 1);
    assert_eq!(found[0].1, line);
    assert_eq!(found[0].2, vec![(3, 4)]);
}

#[test]
fn folding_can_lose_a_match_beyond_ascii() {
    assert_eq!(search("Σ", "ΑΣ").len(), 1);
    assert_eq!(search_case_insensitive("Σ", "ΑΣ").len(), 0);
}

struct Dice(u64);

impl Dice {
    fn roll(&mut self, sides: usize) -> usize {
        self.0 = self.0.wrapping_mul(6364136223846793005).wrapping_add(1442695040888963407);
        ((self.0 >> 33) as usize) % sides
    }

    fn text(&mut self, alphabet: &[&str], longest: usize) -> String {
        let length = self.roll(longest + 1);
        let mut text = String::new();
        for _ in 0..length {
            text.push_str(alphabet[self.roll(alphabet.len())]);
        }
        text
    }
}

fn scan_with_std<'a>(
    query: &str,
    contents: &'a str,
    fold_case: bool,
    invert: bool,
) -> Vec<(usize, &'a str, Vec<(usize, usize)>)> {
    let needle = if fold_case { query.to_lowercase() } else { query.to_string() };
    let mut found = Vec::new();
    for (index, line) in contents.lines().enumerate() {
        let hay = if fold_case { line.to_lowercase() } else { line.to_string() };
        let held = hay.contains(&needle);
        let mut spans = Vec::new();
        if !invert && !needle.is_empty() {
            let mut start = 0;
            while let Some(at) = hay[start..].find(&needle) {
                spans.push((start + at, start + at + needle.len()));
                start += at + needle.len();
            }
        }
        if held != invert {
            found.push((index + 1, line, spans));
        }
    }
    found
}

#[test]
fn searches_agree_with_a_scan_by_the_standard_library() {
    let mut dice = Dice(2024);
    let letters = ["a", "b", "A", "B", "ab", " ", "\n", "\n", "\r", "\r\n", "é", "É", "ß", "Σ", "σ"];
    let wanted = ["a", "b", "A", "B", "é", "É", "Σ", " "];
    for _ in 0..3000 {
        let contents = dice.text(&letters, 24);
        let query = dice.text(&wanted, 3);
        assert_eq!(search(&query, &contents), scan_with_std(&query, &contents, false, false));
        assert_eq!(
            search_case_insensitive(&query, &contents),
            scan_with_std(&query, &contents, true, false)
        );
        for fold_case in [false, true] {
            let inverted = scan_with_std(&query, &contents, fold_case, true);
            assert_eq!(search_invert(&query, &contents, fold_case), inverted);
            for invert in [false, true] {
                assert_eq!(
                    search_count(&query, &contents, fold_case, invert),
                    scan_with_std(&query, &contents, fold_case, invert).len()
                );
            }
        }
    }
}
