use minigrep::banner;
use minigrep::report;
use minigrep::report::count_line;
use minigrep::report::decimal_string;
use minigrep::report::entry_line;
use minigrep::ColorMode;
use minigrep::Config;
use minigrep::HighlightColor;

fn config(query: &str, case_sensitive: bool, invert: bool, count_only: bool) -> Config {
    Config {
        case_sensitive,
        invert,
        count_only,
        query: query.to_string(),
        filename: "poem.txt".to_string(),
        color_mode: ColorMode::Auto,
        highlight_color: HighlightColor::Green,
    }
}

const POEM: &str = "Rust:\nsafe, fast, productive.\nPick three.\nTrust me.";

#[test]
fn numbers_are_written_in_decimal() {
    assert_eq!(decimal_string(0), "0");
    assert_eq!(decimal_string(7), "7");
    assert_eq!(decimal_string(10), "10");
    assert_eq!(decimal_string(1234567890), "1234567890");
    assert_eq!(decimal_string(usize::MAX), usize::MAX.to_string());
}

#[test]
fn the_banner_names_query_and_file() {
    assert_eq!(
        banner(&config("rust", true, false, false)),
        "Searching for 'rust' in file 'poem.txt'"
    );
}

#[test]
fn a_count_is_one_line() {
    assert_eq!(count_line(12, "rust", None), "Found 12 occurrences of 'rust'");
    assert_eq!(
        count_line(3, "rust", Some("\x1b[32m")),
        "Found \x1b[32m3\x1b[0m occurrences of 'rust'"
    );
    let lines = report(&config("rust", false, false, true), POEM, false).unwrap();
    assert_eq!(lines, vec!["Found 2 occurrences of 'rust'".to_string()]);
    let lines = report(&config("rust", true, true, true), POEM, true).unwrap();
    assert_eq!(lines, vec!["Found \x1b[32m3\x1b[0m occurrences of 'rust'".to_string()]);
}

#[test]
fn a_selected_line_is_written_with_its_number() {
    assert_eq!(entry_line(4, "Trust me.", &vec![(1, 5)], None), "4: Trust me.");
    assert_eq!(
        entry_line(4, "Trust me.", &vec![(1, 5)], Some("\x1b[31m")),
        "\x1b[31m4\x1b[0m: T\x1b[31mrust\x1b[0m me."
    );
}

#[test]
fn plain_lines_follow_the_search() {
    let lines = report(&config("rust", false, false, false), POEM, false).unwrap();
    assert_eq!(lines, vec!["1: Rust:".to_string(), "4: Trust me.".to_string()]);
    let lines = report(&config("rust", true, false, false), POEM, false).unwrap();
    assert_eq!(lines, vec!["4: Trust me.".to_string()]);
    let lines = report(&config("rust", false, true, false), POEM, false).unwrap();
    assert_eq!(lines, vec!["2: safe, fast, productive.".to_string(), "3: Pick three.".to_string()]);
}

#[test]
fn coloured_lines_wrap_number_and_spans() {
    let lines = report(&config("rust", false, false, false), POEM, true).unwrap();
    assert_eq!(
        lines,
        vec![
            "\x1b[32m1\x1b[0m: \x1b[32mRust\x1b[0m:".to_string(),
            "\x1b[32m4\x1b[0m: T\x1b[32mrust\x1b[0m me.".to_string(),
        ]
    );
    let lines = report(&config("three", true, true, false), "one\nthree", true).unwrap();
    assert_eq!(lines, vec!["\x1b[32m1\x1b[0m: one".to_string()]);
}

#[test]
fn spans_that_miss_the_line_are_not_coloured() {
    let contents = "plain\n\u{130}x\n";
    assert_eq!(report(&config("x", false, false, false), contents, true), None);
    let plain = report(&config("x", false, false, false), contents, false).unwrap();
    assert_eq!(plain, vec!["2: \u{130}x".to_string()]);
    let counted = report(&config("x", false, false, true), contents, true).unwrap();
    assert_eq!(counted, vec!["Found \x1b[32m1\x1b[0m occurrences of 'x'".to_string()]);
}
