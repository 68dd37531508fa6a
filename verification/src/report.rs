//! What a run prints: the line that announces the search, and the lines that
//! give its result, plain or coloured.

use crate::color::color_code;
use crate::color::RESET;
use crate::config::Config;
use crate::config::ConfigView;
use crate::matcher::hit_of;
use crate::matcher::hits;
use crate::matcher::hits_view;
use crate::matcher::search;
use crate::matcher::search_case_insensitive;
use crate::matcher::search_count;
use crate::matcher::search_invert;
use crate::matcher::selected_count;
use crate::matcher::LineMatch;
use crate::render::highlight;
use crate::render::highlighted;
use crate::spans::span_view;
use crate::spans::spans_fit;
use crate::spans::spans_fit_line;
use crate::lines::lines;
use vstd::prelude::*;
use vstd::string::*;
use vstd::utf8::*;

verus! {

/// The character of a decimal digit.
pub open spec fn digit(d: nat) -> char {
    if d == 0 {
        '0'
    } else if d == 1 {
        '1'
    } else if d == 2 {
        '2'
    } else if d == 3 {
        '3'
    } else if d == 4 {
        '4'
    } else if d == 5 {
        '5'
    } else if d == 6 {
        '6'
    } else if d == 7 {
        '7'
    } else if d == 8 {
        '8'
    } else {
        '9'
    }
}

/// A number in decimal digits, without leading zeros.
pub open spec fn decimal(n: nat) -> Seq<char>
    decreases n,
{
    if n < 10 {
        seq![digit(n)]
    } else {
        decimal(n / 10).push(digit(n % 10))
    }
}

/// The line that announces a search.
pub open spec fn banner_text(query: Seq<char>, filename: Seq<char>) -> Seq<char> {
    "Searching for '"@ + query + "' in file '"@ + filename + "'"@
}

/// The line that reports a count, the number wrapped in `color` and the
/// reset sequence where a colour is given.
pub open spec fn count_text(count: nat, query: Seq<char>, color: Option<Seq<char>>) -> Seq<char> {
    match color {
        Some(code) => "Found "@ + code + decimal(count) + RESET@ + " occurrences of '"@ + query
            + "'"@,
        None => "Found "@ + decimal(count) + " occurrences of '"@ + query + "'"@,
    }
}

/// The line that reports a selected line: its number, a colon and a blank,
/// and its content. Where a colour is given, the number and every span of
/// the content are wrapped in it and the reset sequence.
pub open spec fn entry_text(hit: LineMatch, color: Option<Seq<char>>) -> Seq<char> {
    match color {
        Some(code) => code + decimal(hit.number) + RESET@ + ": "@ + decode_utf8(
            highlighted(hit.line, hit.spans, encode_utf8(code), encode_utf8(RESET@)),
        ),
        None => decimal(hit.number) + ": "@ + decode_utf8(hit.line),
    }
}

/// The colour in which a run writes, if it writes in colour.
pub open spec fn chosen_color(config: ConfigView, use_color: bool) -> Option<Seq<char>> {
    if use_color {
        Some(color_code(config.switches.highlight_color))
    } else {
        None
    }
}

/// The lines that the search of a run selects in `text`.
pub open spec fn run_hits(config: ConfigView, text: Seq<u8>) -> Seq<LineMatch> {
    hits(text, config.query, !config.switches.case_sensitive, config.switches.invert)
}

/// Whether the result of a run can be written: a count always can, and so
/// can plain lines; for coloured lines the spans of every selected line have
/// to fit that line.
pub open spec fn can_report(config: ConfigView, text: Seq<u8>, use_color: bool) -> bool {
    config.switches.count_only || !use_color || forall|j: int|
        0 <= j < run_hits(config, text).len() ==> spans_fit(
            (#[trigger] run_hits(config, text)[j]).line,
            run_hits(config, text)[j].spans,
        )
}

/// The lines that give the result of a run over `text`: one line with the
/// count where only the count is asked for, else one line for each selected
/// line.
pub open spec fn report_text(
    config: ConfigView,
    text: Seq<u8>,
    use_color: bool,
) -> Seq<Seq<char>> {
    let color = chosen_color(config, use_color);
    if config.switches.count_only {
        seq![
            count_text(
                selected_count(
                    text,
                    config.query,
                    !config.switches.case_sensitive,
                    config.switches.invert,
                ),
                decode_utf8(config.query),
                color,
            ),
        ]
    } else {
        run_hits(config, text).map_values(|hit: LineMatch| entry_text(hit, color))
    }
}

/// The characters of each string of a list.
pub open spec fn texts(lines: Seq<String>) -> Seq<Seq<char>> {
    lines.map_values(|line: String| line@)
}

/// The text of one decimal digit.
fn digit_text(d: usize) -> (text: &'static str)
    requires
        d < 10,
    ensures
        text@ == seq![digit(d as nat)],
{
    proof {
        reveal_strlit("0");
        reveal_strlit("1");
        reveal_strlit("2");
        reveal_strlit("3");
        reveal_strlit("4");
        reveal_strlit("5");
        reveal_strlit("6");
        reveal_strlit("7");
        reveal_strlit("8");
        reveal_strlit("9");
    }
    let text = if d == 0 {
        "0"
    } else if d == 1 {
        "1"
    } else if d == 2 {
        "2"
    } else if d == 3 {
        "3"
    } else if d == 4 {
        "4"
    } else if d == 5 {
        "5"
    } else if d == 6 {
        "6"
    } else if d == 7 {
        "7"
    } else if d == 8 {
        "8"
    } else {
        "9"
    };
    text
}

/// `n` in decimal digits.
pub fn decimal_string(n: usize) -> (text: String)
    ensures
        text@ == decimal(n as nat),
    decreases n,
{
    if n < 10 {
        String::from_str(digit_text(n))
    } else {
        let mut text = decimal_string(n / 10);
        text.append(digit_text(n % 10));
        text
    }
}

/// The line that announces the search of a run.
pub fn banner(config: &Config) -> (line: String)
    ensures
        line@ == banner_text(config.query@, config.filename@),
{
    let mut line = String::from_str("Searching for '");
    line.append(config.query.as_str());
    line.append("' in file '");
    line.append(config.filename.as_str());
    line.append("'");
    line
}

/// The line that reports `count` lines for `query`.
pub fn count_line(count: usize, query: &str, color: Option<&str>) -> (line: String)
    ensures
        line@ == count_text(
            count as nat,
            query@,
            match color {
                Some(code) => Some(code@),
                None => None,
            },
        ),
{
    let mut line = String::from_str("Found ");
    let number = decimal_string(count);
    match color {
        Some(code) => {
            line.append(code);
            line.append(number.as_str());
            line.append(RESET);
        },
        None => {
            line.append(number.as_str());
        },
    }
    line.append(" occurrences of '");
    line.append(query);
    line.append("'");
    line
}

/// The line that reports one selected line. With a colour, the spans have to
/// fit the line.
pub fn entry_line(
    number: usize,
    line: &str,
    spans: &Vec<(usize, usize)>,
    color: Option<&str>,
) -> (out: String)
    requires
        color is Some ==> spans_fit(line.spec_bytes(), span_view(spans@)),
    ensures
        out@ == entry_text(
            LineMatch { number: number as nat, line: line.spec_bytes(), spans: span_view(spans@) },
            match color {
                Some(code) => Some(code@),
                None => None,
            },
        ),
{
    let digits = decimal_string(number);
    proof {
        encode_utf8_decode_utf8(line@);
    }
    match color {
        Some(code) => {
            let mut out = String::from_str(code);
            out.append(digits.as_str());
            out.append(RESET);
            out.append(": ");
            let painted = highlight(line, spans, code, RESET);
            proof {
                encode_utf8_decode_utf8(painted@);
            }
            out.append(painted.as_str());
            out
        },
        None => {
            let mut out = digits;
            out.append(": ");
            out.append(line);
            out
        },
    }
}

/// The lines that give the result of a run over `contents`, or `None` where
/// they cannot be written: where they are to be coloured and the spans of a
/// selected line do not fit it. That can happen in a case-insensitive search
/// alone, on a line whose case fold moves a character boundary.
pub fn report(config: &Config, contents: &str, use_color: bool) -> (out: Option<Vec<String>>)
    ensures
        match out {
            Some(written) => {
                &&& can_report(config@, contents.spec_bytes(), use_color)
                &&& texts(written@) == report_text(config@, contents.spec_bytes(), use_color)
            },
            None => !can_report(config@, contents.spec_bytes(), use_color),
        },
        config.case_sensitive || config.invert ==> out is Some,
{
    let ghost view = config@;
    let ghost text = contents.spec_bytes();
    let ghost color_text = chosen_color(view, use_color);
    let code = config.highlight_color.code();
    let color: Option<&str> = if use_color {
        Some(code)
    } else {
        None
    };
    let query = config.query.as_str();
    let fold_case = !config.case_sensitive;
    let mut written: Vec<String> = Vec::new();
    proof {
        encode_utf8_decode_utf8(query@);
        encode_utf8_valid_utf8(query@);
        encode_utf8_valid_utf8(contents@);
    }
    if config.count_only {
        let count: usize = search_count(query, contents, fold_case, config.invert);
        written.push(count_line(count, query, color));
        return Some(written);
    }
    let found = if config.invert {
        search_invert(query, contents, fold_case)
    } else if fold_case {
        search_case_insensitive(query, contents)
    } else {
        search(query, contents)
    };
    let ghost wanted = run_hits(view, text);
    let mut at: usize = 0;
    while at < found.len()
        invariant
            view == config@,
            text == contents.spec_bytes(),
            wanted == run_hits(view, text),
            hits_view(found@) == wanted,
            color_text == chosen_color(view, use_color),
            color_text == match color {
                Some(code) => Some(code@),
                None => None::<Seq<char>>,
            },
            (color is Some) == use_color,
            !view.switches.count_only,
            at <= found@.len(),
            written@.len() == at,
            forall|j: int|
                0 <= j < at ==> (#[trigger] written@[j])@ == entry_text(wanted[j], color_text),
            use_color ==> forall|j: int|
                0 <= j < at ==> spans_fit((#[trigger] wanted[j]).line, wanted[j].spans),
            config.case_sensitive || config.invert ==> forall|j: int|
                0 <= j < wanted.len() ==> spans_fit((#[trigger] wanted[j]).line, wanted[j].spans),
        decreases found@.len() - at,
    {
        let entry = &found[at];
        assert(wanted[at as int] == hit_of(found@[at as int]));
        if use_color && !spans_fit_line(entry.1, &entry.2) {
            return None;
        }
        written.push(entry_line(entry.0, entry.1, &entry.2, color));
        at += 1;
    }
    Some(written)
}

} // verus!
