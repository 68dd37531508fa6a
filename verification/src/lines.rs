//! The lines of a text, as byte ranges of the text.
//!
//! A line ends at a line feed, or at a carriage return right before a line
//! feed; neither belongs to the line. The last line need not have a line
//! ending, and a carriage return at its end without a line feed belongs to
//! it.

use crate::boundary::lemma_ascii_byte_boundaries;
use crate::boundary::lemma_part_is_utf8;
use crate::boundary::slice;
use vstd::prelude::*;
use vstd::string::*;
use vstd::utf8::*;

verus! {

/// The line feed byte.
pub const LINE_FEED: u8 = 0x0a;

/// The carriage return byte.
pub const CARRIAGE_RETURN: u8 = 0x0d;

/// The offset of the first line feed of `text` at or after `from`; the length
/// of `text` when there is none.
pub open spec fn newline_from(text: Seq<u8>, from: int) -> int
    decreases text.len() - from,
{
    if from >= text.len() {
        text.len() as int
    } else if text[from] == LINE_FEED {
        from
    } else {
        newline_from(text, from + 1)
    }
}

/// Where the content of the line that starts at `from` ends: at its line
/// feed, or one byte earlier when a carriage return stands right before that
/// line feed. A last line without a line feed runs to the end of the text.
pub open spec fn line_end(text: Seq<u8>, from: int) -> int {
    let stop = newline_from(text, from);
    if from < stop < text.len() && text[stop - 1] == CARRIAGE_RETURN {
        stop - 1
    } else {
        stop
    }
}

/// Where the line after the one that starts at `from` starts: right after the
/// line feed, or at the end of the text when the line has none.
pub open spec fn next_line_start(text: Seq<u8>, from: int) -> int {
    let stop = newline_from(text, from);
    if stop < text.len() {
        stop + 1
    } else {
        text.len() as int
    }
}

/// The byte ranges `(start, end)` of the lines of `text` that start at or
/// after `from`, in order, line endings left out. A text that ends in a line
/// ending has no further, empty line after it.
pub open spec fn lines_from(text: Seq<u8>, from: int) -> Seq<(int, int)>
    decreases text.len() - from,
{
    if 0 <= from < text.len() {
        let stop = newline_from(text, from);
        let first = seq![(from, line_end(text, from))];
        if from <= stop < text.len() {
            first + lines_from(text, stop + 1)
        } else {
            first
        }
    } else {
        Seq::empty()
    }
}

/// The byte ranges of all lines of `text`.
pub open spec fn lines(text: Seq<u8>) -> Seq<(int, int)> {
    lines_from(text, 0)
}

/// The content of line `k` of `text`, counted from 0.
pub open spec fn line_text(text: Seq<u8>, k: int) -> Seq<u8> {
    text.subrange(lines(text)[k].0, lines(text)[k].1)
}

/// A line feed search never goes backwards and never leaves the text.
pub proof fn lemma_newline_from_bounds(text: Seq<u8>, from: int)
    requires
        0 <= from <= text.len(),
    ensures
        from <= newline_from(text, from) <= text.len(),
        newline_from(text, from) < text.len() ==> text[newline_from(text, from)] == LINE_FEED,
        forall|k: int| from <= k < newline_from(text, from) ==> text[k] != LINE_FEED,
    decreases text.len() - from,
{
    if from < text.len() && text[from] != LINE_FEED {
        lemma_newline_from_bounds(text, from + 1);
    }
}

/// The lines from a line start on are that line, then the lines from the
/// next line start on.
pub proof fn lemma_lines_from_step(text: Seq<u8>, from: int)
    requires
        0 <= from < text.len(),
    ensures
        lines_from(text, from) == seq![(from, line_end(text, from))] + lines_from(
            text,
            next_line_start(text, from),
        ),
        from <= line_end(text, from) <= text.len(),
        from < next_line_start(text, from) <= text.len(),
{
    lemma_newline_from_bounds(text, from);
}

/// Every line from a line start on lies in the text, at or after that start,
/// and holds no line feed.
pub proof fn lemma_lines_from_ranges(text: Seq<u8>, from: int)
    requires
        0 <= from <= text.len(),
    ensures
        forall|k: int|
            0 <= k < lines_from(text, from).len() ==> {
                let line = #[trigger] lines_from(text, from)[k];
                &&& from <= line.0 <= line.1 <= text.len()
                &&& forall|at: int| line.0 <= at < line.1 ==> text[at] != LINE_FEED
            },
    decreases text.len() - from,
{
    if from < text.len() {
        lemma_lines_from_step(text, from);
        lemma_newline_from_bounds(text, from);
        let next = next_line_start(text, from);
        lemma_lines_from_ranges(text, next);
    }
}

/// No line of a text holds a line feed.
pub proof fn lemma_line_holds_no_line_feed(text: Seq<u8>, k: int)
    requires
        0 <= k < lines(text).len(),
    ensures
        forall|at: int| 0 <= at < line_text(text, k).len() ==> line_text(text, k)[at] != LINE_FEED,
{
    lemma_lines_from_ranges(text, 0);
    let line = lines(text)[k];
}

/// In valid UTF-8 text, a line ends on a character boundary, and so does its
/// line ending.
pub proof fn lemma_line_on_boundaries(text: Seq<u8>, from: int)
    requires
        valid_utf8(text),
        0 <= from < text.len(),
    ensures
        is_char_boundary(text, line_end(text, from)),
        is_char_boundary(text, next_line_start(text, from)),
{
    lemma_newline_from_bounds(text, from);
    is_char_boundary_start_end_of_seq(text);
    let stop = newline_from(text, from);
    if stop < text.len() {
        lemma_ascii_byte_boundaries(text, stop);
    }
    if line_end(text, from) < stop {
        lemma_ascii_byte_boundaries(text, stop - 1);
    }
}

/// In valid UTF-8 text, every line from a line start on lies in the text, at
/// or after that start, and starts and ends on character boundaries.
pub proof fn lemma_lines_from_shape(text: Seq<u8>, from: int)
    requires
        valid_utf8(text),
        0 <= from <= text.len(),
        is_char_boundary(text, from),
    ensures
        forall|k: int|
            0 <= k < lines_from(text, from).len() ==> {
                let line = #[trigger] lines_from(text, from)[k];
                &&& from <= line.0 <= line.1 <= text.len()
                &&& is_char_boundary(text, line.0)
                &&& is_char_boundary(text, line.1)
            },
    decreases text.len() - from,
{
    if from < text.len() {
        lemma_lines_from_step(text, from);
        lemma_line_on_boundaries(text, from);
        let next = next_line_start(text, from);
        lemma_lines_from_shape(text, next);
    }
}

/// Every line of valid UTF-8 text is valid UTF-8.
pub proof fn lemma_line_is_utf8(text: Seq<u8>, k: int)
    requires
        valid_utf8(text),
        0 <= k < lines(text).len(),
    ensures
        valid_utf8(line_text(text, k)),
        0 <= lines(text)[k].0 <= lines(text)[k].1 <= text.len(),
{
    lemma_lines_from_shape(text, 0);
    let line = lines(text)[k];
    lemma_part_is_utf8(text, line.0, line.1);
}

/// The offset of the first line feed of `text` at or after `from`.
pub fn find_newline(text: &[u8], from: usize) -> (stop: usize)
    requires
        from <= text@.len(),
    ensures
        stop == newline_from(text@, from as int),
        from <= stop <= text@.len(),
        stop < text@.len() ==> text@[stop as int] == LINE_FEED,
{
    let mut at: usize = from;
    while at < text.len() && text[at] != LINE_FEED
        invariant
            from <= at <= text@.len(),
            newline_from(text@, from as int) == newline_from(text@, at as int),
        decreases text@.len() - at,
    {
        at += 1;
    }
    at
}

/// The line of `text` that starts at byte offset `from`, borrowed from
/// `text`, and the offset at which the next line starts.
pub fn take_line<'a>(text: &'a str, from: usize) -> (r: (&'a str, usize))
    requires
        from < text.spec_bytes().len(),
        is_char_boundary(text.spec_bytes(), from as int),
    ensures
        r.0.spec_bytes() == text.spec_bytes().subrange(
            from as int,
            line_end(text.spec_bytes(), from as int),
        ),
        r.1 == next_line_start(text.spec_bytes(), from as int),
        from < r.1 <= text.spec_bytes().len(),
        is_char_boundary(text.spec_bytes(), r.1 as int),
{
    let bytes = text.as_bytes();
    let stop: usize = find_newline(bytes, from);
    let end: usize = if from < stop && stop < bytes.len() && bytes[stop - 1] == CARRIAGE_RETURN {
        stop - 1
    } else {
        stop
    };
    let next: usize = if stop < bytes.len() {
        stop + 1
    } else {
        stop
    };
    proof {
        encode_utf8_valid_utf8(text@);
        lemma_line_on_boundaries(bytes@, from as int);
    }
    (slice(text, from, end), next)
}

} // verus!
