//! The renderer: a line with each of its spans wrapped in a pair of markers.

use crate::boundary::lemma_encode_concat;
use crate::boundary::slice;
use crate::color::RESET;
use crate::spans::span_view;
use crate::spans::spans_fit;
use crate::spans::spans_in_order;
use vstd::prelude::*;
use vstd::string::*;
use vstd::utf8::*;

verus! {

/// Where the text behind the first `k` spans starts: at the end of span
/// `k - 1`, or at the start of the line when `k` is 0.
pub open spec fn cursor_after(spans: Seq<(int, int)>, k: int) -> int {
    if k <= 0 {
        0
    } else {
        spans[k - 1].1
    }
}

/// The rendering of `line` up to the end of its span `k - 1`: for each of the
/// first `k` spans in turn the text between the span before it and the span,
/// the opening marker, the text of the span, and the closing marker.
pub open spec fn painted_upto(
    line: Seq<u8>,
    spans: Seq<(int, int)>,
    open: Seq<u8>,
    close: Seq<u8>,
    k: nat,
) -> Seq<u8>
    decreases k,
{
    if k == 0 {
        Seq::empty()
    } else {
        let span = spans[k - 1];
        painted_upto(line, spans, open, close, (k - 1) as nat) + line.subrange(
            cursor_after(spans, k - 1),
            span.0,
        ) + open + line.subrange(span.0, span.1) + close
    }
}

/// The rendering of `line`: the line with `open` put in before each span and
/// `close` after it, and nothing else changed.
pub open spec fn highlighted(
    line: Seq<u8>,
    spans: Seq<(int, int)>,
    open: Seq<u8>,
    close: Seq<u8>,
) -> Seq<u8> {
    painted_upto(line, spans, open, close, spans.len()) + line.subrange(
        cursor_after(spans, spans.len() as int),
        line.len() as int,
    )
}

/// The length of the rendering up to the end of span `k - 1`, with markers of
/// `open_len` and `close_len` bytes.
pub open spec fn painted_len(spans: Seq<(int, int)>, open_len: int, close_len: int, k: nat) -> int
    decreases k,
{
    if k == 0 {
        0
    } else {
        painted_len(spans, open_len, close_len, (k - 1) as nat) + (spans[k - 1].1 - cursor_after(
            spans,
            k - 1,
        )) + open_len + close_len
    }
}

/// What is left of the first part of a rendering `out`, up to the end of span
/// `k - 1`, when the markers are taken out: for each of the first `k` spans,
/// the text before the opening marker and the text between the two markers.
pub open spec fn stripped_upto(
    out: Seq<u8>,
    spans: Seq<(int, int)>,
    open_len: int,
    close_len: int,
    k: nat,
) -> Seq<u8>
    decreases k,
{
    if k == 0 {
        Seq::empty()
    } else {
        let base = painted_len(spans, open_len, close_len, (k - 1) as nat);
        let gap = spans[k - 1].0 - cursor_after(spans, k - 1);
        let width = spans[k - 1].1 - spans[k - 1].0;
        stripped_upto(out, spans, open_len, close_len, (k - 1) as nat) + out.subrange(
            base,
            base + gap,
        ) + out.subrange(base + gap + open_len, base + gap + open_len + width)
    }
}

/// What is left of a rendering `out` when the markers are taken out at the
/// places where rendering with these spans puts them.
pub open spec fn stripped(
    out: Seq<u8>,
    spans: Seq<(int, int)>,
    open_len: int,
    close_len: int,
) -> Seq<u8> {
    stripped_upto(out, spans, open_len, close_len, spans.len()) + out.subrange(
        painted_len(spans, open_len, close_len, spans.len()),
        out.len() as int,
    )
}

/// The rendering up to the end of span `k - 1` is as long as `painted_len`
/// says.
proof fn lemma_painted_len(
    line: Seq<u8>,
    spans: Seq<(int, int)>,
    open: Seq<u8>,
    close: Seq<u8>,
    k: nat,
)
    requires
        spans_in_order(spans, line.len() as int),
        k <= spans.len(),
    ensures
        painted_upto(line, spans, open, close, k).len() == painted_len(
            spans,
            open.len() as int,
            close.len() as int,
            k,
        ),
        0 <= cursor_after(spans, k as int) <= line.len(),
    decreases k,
{
    if k > 0 {
        lemma_painted_len(line, spans, open, close, (k - 1) as nat);
    }
}

/// Taking the markers out of any string that starts with the rendering up to
/// the end of span `k - 1` gives the line up to the end of that span.
proof fn lemma_stripped_upto(
    out: Seq<u8>,
    line: Seq<u8>,
    spans: Seq<(int, int)>,
    open: Seq<u8>,
    close: Seq<u8>,
    k: nat,
)
    requires
        spans_in_order(spans, line.len() as int),
        k <= spans.len(),
        painted_len(spans, open.len() as int, close.len() as int, k) <= out.len(),
        out.subrange(0, painted_len(spans, open.len() as int, close.len() as int, k))
            == painted_upto(line, spans, open, close, k),
    ensures
        stripped_upto(out, spans, open.len() as int, close.len() as int, k) == line.subrange(
            0,
            cursor_after(spans, k as int),
        ),
    decreases k,
{
    let open_len = open.len() as int;
    let close_len = close.len() as int;
    if k > 0 {
        let j = (k - 1) as nat;
        lemma_painted_len(line, spans, open, close, j);
        let base = painted_len(spans, open_len, close_len, j);
        let cursor = cursor_after(spans, k - 1);
        let span = spans[k - 1];
        let gap = span.0 - cursor;
        let width = span.1 - span.0;
        let whole = painted_upto(line, spans, open, close, k);
        let head = painted_upto(line, spans, open, close, j);
        assert(out.subrange(0, base) =~= head);
        lemma_stripped_upto(out, line, spans, open, close, j);
        assert(out.subrange(base, base + gap) =~= line.subrange(cursor, span.0)) by {
            assert(out.subrange(base, base + gap) =~= whole.subrange(base, base + gap));
        }
        assert(out.subrange(base + gap + open_len, base + gap + open_len + width)
            =~= line.subrange(span.0, span.1)) by {
            assert(out.subrange(base + gap + open_len, base + gap + open_len + width)
                =~= whole.subrange(base + gap + open_len, base + gap + open_len + width));
        }
    }
}

/// Rendering only puts markers in: with the markers taken out again, what is
/// left is the line, byte for byte.
pub proof fn lemma_strip_undoes_highlight(
    line: Seq<u8>,
    spans: Seq<(int, int)>,
    open: Seq<u8>,
    close: Seq<u8>,
)
    requires
        spans_in_order(spans, line.len() as int),
    ensures
        stripped(
            highlighted(line, spans, open, close),
            spans,
            open.len() as int,
            close.len() as int,
        ) == line,
{
    let out = highlighted(line, spans, open, close);
    let n = spans.len();
    let painted = painted_upto(line, spans, open, close, n);
    lemma_painted_len(line, spans, open, close, n);
    assert(out.subrange(0, painted.len() as int) =~= painted);
    lemma_stripped_upto(out, line, spans, open, close, n);
}

/// A line without spans is rendered as it is.
pub proof fn lemma_no_spans_no_markers(line: Seq<u8>, open: Seq<u8>, close: Seq<u8>)
    ensures
        highlighted(line, Seq::empty(), open, close) == line,
{
}

/// `line` with `color_start` put in before each span and `color_reset` after
/// it. The spans have to fit the line.
pub fn highlight(
    line: &str,
    spans: &Vec<(usize, usize)>,
    color_start: &str,
    color_reset: &str,
) -> (out: String)
    requires
        spans_fit(line.spec_bytes(), span_view(spans@)),
    ensures
        encode_utf8(out@) == highlighted(
            line.spec_bytes(),
            span_view(spans@),
            color_start.spec_bytes(),
            color_reset.spec_bytes(),
        ),
{
    let len: usize = line.as_bytes().len();
    let ghost bytes = line.spec_bytes();
    let ghost marks = span_view(spans@);
    let ghost open = color_start.spec_bytes();
    let ghost close = color_reset.spec_bytes();
    let mut out = String::new();
    let mut last_end: usize = 0;
    let mut k: usize = 0;
    proof {
        encode_utf8_valid_utf8(line@);
        is_char_boundary_start_end_of_seq(bytes);
    }
    while k < spans.len()
        invariant
            bytes == line.spec_bytes(),
            marks == span_view(spans@),
            open == color_start.spec_bytes(),
            close == color_reset.spec_bytes(),
            len == bytes.len(),
            valid_utf8(bytes),
            spans_fit(bytes, marks),
            k <= spans.len(),
            last_end == cursor_after(marks, k as int),
            last_end <= len,
            is_char_boundary(bytes, last_end as int),
            encode_utf8(out@) == painted_upto(bytes, marks, open, close, k as nat),
        decreases spans.len() - k,
    {
        let (start, end) = spans[k];
        assert(marks[k as int] == (start as int, end as int));
        let before = slice(line, last_end, start);
        let inside = slice(line, start, end);
        proof {
            lemma_encode_concat(out@, before@);
            lemma_encode_concat(out@ + before@, color_start@);
            lemma_encode_concat(out@ + before@ + color_start@, inside@);
            lemma_encode_concat(out@ + before@ + color_start@ + inside@, color_reset@);
        }
        out.append(before);
        out.append(color_start);
        out.append(inside);
        out.append(color_reset);
        last_end = end;
        k += 1;
    }
    let rest = slice(line, last_end, len);
    proof {
        lemma_encode_concat(out@, rest@);
    }
    out.append(rest);
    out
}

/// `line` with `color_code` put in before each of `matches` and the reset
/// sequence after it. The spans have to fit the line.
pub fn highlight_matches(line: &str, matches: Vec<(usize, usize)>, color_code: &str) -> (out: String)
    requires
        spans_fit(line.spec_bytes(), span_view(matches@)),
    ensures
        encode_utf8(out@) == highlighted(
            line.spec_bytes(),
            span_view(matches@),
            color_code.spec_bytes(),
            RESET.spec_bytes(),
        ),
{
    highlight(line, &matches, color_code, RESET)
}

} // verus!
