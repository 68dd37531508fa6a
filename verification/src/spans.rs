//! Match spans: the byte ranges at which a needle stands in a string, found
//! from left to right without overlap.

use crate::boundary::lemma_occurrence_on_boundaries;
use crate::text::contains;
use crate::text::find_from;
use crate::text::none_after;
use crate::text::none_between;
use crate::text::occurs_at;
use vstd::prelude::*;
use vstd::string::*;
use vstd::utf8::*;

verus! {

/// Spans of machine offsets, as spans of integers.
pub open spec fn span_view(spans: Seq<(usize, usize)>) -> Seq<(int, int)> {
    spans.map_values(|s: (usize, usize)| (s.0 as int, s.1 as int))
}

/// The spans of the occurrences of `needle` in `hay` that a scan from offset
/// `from` reports: the leftmost occurrence at or after `from`, then the
/// leftmost one that starts at or after the end of that one, and so on. An
/// empty needle has no spans.
pub open spec fn spans_from(hay: Seq<u8>, needle: Seq<u8>, from: int) -> Seq<(int, int)>
    decreases hay.len() - from,
{
    if needle.len() == 0 || from < 0 || from + needle.len() > hay.len() {
        Seq::empty()
    } else if occurs_at(hay, needle, from) {
        seq![(from, from + needle.len())] + spans_from(hay, needle, from + needle.len())
    } else {
        spans_from(hay, needle, from + 1)
    }
}

/// The spans of the leftmost non-overlapping occurrences of `needle` in `hay`.
pub open spec fn match_spans(hay: Seq<u8>, needle: Seq<u8>) -> Seq<(int, int)> {
    spans_from(hay, needle, 0)
}

/// Spans that lie in a string of `len` bytes one after the other: each span
/// ends at or after its start, and at or before the start of every later one.
pub open spec fn spans_in_order(spans: Seq<(int, int)>, len: int) -> bool {
    &&& forall|j: int|
        0 <= j < spans.len() ==> 0 <= (#[trigger] spans[j]).0 <= spans[j].1 <= len
    &&& forall|i: int, j: int|
        0 <= i < j < spans.len() ==> (#[trigger] spans[i]).1 <= (#[trigger] spans[j]).0
}

/// Every span starts and ends on a character boundary of `line`.
pub open spec fn spans_on_boundaries(line: Seq<u8>, spans: Seq<(int, int)>) -> bool {
    forall|j: int|
        0 <= j < spans.len() ==> is_char_boundary(line, (#[trigger] spans[j]).0)
            && is_char_boundary(line, spans[j].1)
}

/// The spans can be cut out of `line`: they lie in it one after the other and
/// split no character.
pub open spec fn spans_fit(line: Seq<u8>, spans: Seq<(int, int)>) -> bool {
    &&& spans_in_order(spans, line.len() as int)
    &&& spans_on_boundaries(line, spans)
}

/// A scan that starts where no occurrence starts before `at` reports what a
/// scan from `at` reports.
pub proof fn lemma_scan_skips_gap(hay: Seq<u8>, needle: Seq<u8>, from: int, at: int)
    requires
        0 <= from <= at,
        none_between(hay, needle, from, at),
    ensures
        spans_from(hay, needle, from) == spans_from(hay, needle, at),
    decreases at - from,
{
    if from < at && needle.len() > 0 && from + needle.len() <= hay.len() {
        lemma_scan_skips_gap(hay, needle, from + 1, at);
    }
}

/// A scan that starts after the last occurrence reports nothing.
pub proof fn lemma_scan_past_last(hay: Seq<u8>, needle: Seq<u8>, from: int)
    requires
        none_after(hay, needle, from),
    ensures
        spans_from(hay, needle, from) == Seq::<(int, int)>::empty(),
    decreases hay.len() - from,
{
    if needle.len() > 0 && 0 <= from && from + needle.len() <= hay.len() {
        lemma_scan_past_last(hay, needle, from + 1);
    }
}

/// Every span that a scan reports is an occurrence of the needle, as long as
/// the needle and not empty; the spans come from left to right, and none
/// starts before an earlier one has ended.
pub proof fn lemma_scan_shape(hay: Seq<u8>, needle: Seq<u8>, from: int)
    requires
        0 <= from,
    ensures
        forall|j: int|
            0 <= j < spans_from(hay, needle, from).len() ==> {
                let span = #[trigger] spans_from(hay, needle, from)[j];
                &&& from <= span.0 < span.1
                &&& span.1 == span.0 + needle.len()
                &&& occurs_at(hay, needle, span.0)
            },
        forall|i: int, j: int|
            0 <= i < j < spans_from(hay, needle, from).len() ==> (#[trigger] spans_from(
                hay,
                needle,
                from,
            )[i]).1 <= (#[trigger] spans_from(hay, needle, from)[j]).0,
    decreases hay.len() - from,
{
    if needle.len() == 0 || from + needle.len() > hay.len() {
    } else if occurs_at(hay, needle, from) {
        let end = from + needle.len();
        lemma_scan_shape(hay, needle, end);
        let rest = spans_from(hay, needle, end);
    } else {
        lemma_scan_shape(hay, needle, from + 1);
        assert(spans_from(hay, needle, from) == spans_from(hay, needle, from + 1));
    }
}

/// A scan passes over no occurrence: none starts between the start of the
/// scan and the first span, between the end of a span and the start of the
/// next, or at or after the end of the last span.
pub proof fn lemma_scan_is_leftmost(hay: Seq<u8>, needle: Seq<u8>, from: int)
    requires
        0 <= from,
        needle.len() > 0,
    ensures
        spans_from(hay, needle, from).len() == 0 ==> none_after(hay, needle, from),
        spans_from(hay, needle, from).len() > 0 ==> {
            &&& none_between(hay, needle, from, spans_from(hay, needle, from)[0].0)
            &&& none_after(hay, needle, spans_from(hay, needle, from).last().1)
        },
        forall|j: int|
            0 <= j < spans_from(hay, needle, from).len() - 1 ==> none_between(
                hay,
                needle,
                (#[trigger] spans_from(hay, needle, from)[j]).1,
                spans_from(hay, needle, from)[j + 1].0,
            ),
    decreases hay.len() - from,
{
    if from + needle.len() > hay.len() {
    } else if occurs_at(hay, needle, from) {
        let end = from + needle.len();
        lemma_scan_is_leftmost(hay, needle, end);
        assert(spans_from(hay, needle, from) == seq![(from, end)] + spans_from(hay, needle, end));
    } else {
        lemma_scan_is_leftmost(hay, needle, from + 1);
    }
}

/// A string holds a non-empty needle exactly when the scan for it reports a
/// span.
pub proof fn lemma_spans_iff_contains(hay: Seq<u8>, needle: Seq<u8>)
    requires
        needle.len() > 0,
    ensures
        match_spans(hay, needle).len() > 0 <==> contains(hay, needle),
{
    lemma_scan_shape(hay, needle, 0);
    lemma_scan_is_leftmost(hay, needle, 0);
}

/// The spans of a valid UTF-8 needle in a valid UTF-8 string can be cut out
/// of that string: they are in order, do not overlap and split no character.
pub proof fn lemma_match_spans_fit(hay: Seq<u8>, needle: Seq<u8>)
    requires
        valid_utf8(hay),
        valid_utf8(needle),
    ensures
        spans_fit(hay, match_spans(hay, needle)),
{
    lemma_scan_shape(hay, needle, 0);
    let spans = match_spans(hay, needle);
    assert forall|j: int| 0 <= j < spans.len() implies is_char_boundary(
        hay,
        (#[trigger] spans[j]).0,
    ) && is_char_boundary(hay, spans[j].1) by {
        lemma_occurrence_on_boundaries(hay, needle, spans[j].0);
    }
}

/// The spans of the leftmost non-overlapping occurrences of `needle` in
/// `hay`, in order; none for an empty needle.
pub fn find_spans(hay: &[u8], needle: &[u8]) -> (spans: Vec<(usize, usize)>)
    ensures
        span_view(spans@) == match_spans(hay@, needle@),
{
    let mut spans: Vec<(usize, usize)> = Vec::new();
    let n: usize = needle.len();
    if n == 0 {
        return spans;
    }
    let mut start: usize = 0;
    let mut next = find_from(hay, needle, 0);
    while next.is_some()
        invariant
            n == needle.len(),
            n > 0,
            start <= hay.len(),
            match next {
                Some(at) => {
                    &&& start <= at
                    &&& occurs_at(hay@, needle@, at as int)
                    &&& none_between(hay@, needle@, start as int, at as int)
                },
                None => none_after(hay@, needle@, start as int),
            },
            match_spans(hay@, needle@) == span_view(spans@) + spans_from(
                hay@,
                needle@,
                start as int,
            ),
        decreases hay.len() - start,
    {
        let at: usize = next.unwrap();
        let end: usize = at + n;
        proof {
            lemma_scan_skips_gap(hay@, needle@, start as int, at as int);
        }
        spans.push((at, end));
        start = end;
        next = find_from(hay, needle, start);
    }
    proof {
        lemma_scan_past_last(hay@, needle@, start as int);
    }
    spans
}

/// Whether `spans` can be cut out of `line`: they lie in it one after the
/// other and split no character.
pub fn spans_fit_line(line: &str, spans: &Vec<(usize, usize)>) -> (fit: bool)
    ensures
        fit == spans_fit(line.spec_bytes(), span_view(spans@)),
{
    let len: usize = line.as_bytes().len();
    let ghost bytes = line.spec_bytes();
    let ghost marks = span_view(spans@);
    let mut last_end: usize = 0;
    let mut k: usize = 0;
    while k < spans.len()
        invariant
            bytes == line.spec_bytes(),
            marks == span_view(spans@),
            len == bytes.len(),
            k <= spans.len(),
            last_end == if k == 0 {
                0
            } else {
                marks[k - 1].1
            },
            forall|j: int| 0 <= j < k ==> 0 <= (#[trigger] marks[j]).0 <= marks[j].1 <= len,
            forall|j: int| 0 <= j < k ==> (#[trigger] marks[j]).1 <= last_end,
            forall|i: int, j: int|
                0 <= i < j < k ==> (#[trigger] marks[i]).1 <= (#[trigger] marks[j]).0,
            forall|j: int|
                0 <= j < k ==> is_char_boundary(bytes, (#[trigger] marks[j]).0)
                    && is_char_boundary(bytes, marks[j].1),
        decreases spans.len() - k,
    {
        let (start, end) = spans[k];
        assert(marks[k as int] == (start as int, end as int));
        if start < last_end {
            return false;
        }
        if start > end || end > len {
            return false;
        }
        if !line.is_char_boundary(start) || !line.is_char_boundary(end) {
            return false;
        }
        last_end = end;
        k += 1;
    }
    true
}

} // verus!
