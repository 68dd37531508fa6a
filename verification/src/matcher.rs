//! The matcher: which lines of a text a query selects, and at which byte
//! spans of each line the query stands.

use crate::fold::fold;
use crate::fold::fold_keeps_boundaries;
use crate::fold::fold_keeps_occurrences;
use crate::fold::folded;
use crate::fold::folded_if;
use crate::fold::is_ascii_bytes;
use crate::fold::lemma_ascii_fold_keeps_boundaries;
use crate::fold::lemma_ascii_fold_keeps_occurrences;
use crate::fold::lemma_ascii_is_utf8;
use crate::fold::lemma_folded_is_utf8;
use crate::lines::lemma_line_is_utf8;
use crate::lines::line_end;
use crate::lines::line_text;
use crate::lines::lines;
use crate::lines::lines_from;
use crate::lines::take_line;
use crate::spans::find_spans;
use crate::spans::lemma_match_spans_fit;
use crate::spans::lemma_scan_shape;
use crate::spans::lemma_spans_iff_contains;
use crate::spans::match_spans;
use crate::spans::span_view;
use crate::spans::spans_fit;
use crate::text::contains;
use crate::text::find_from;
use crate::text::occurs_at;
use vstd::prelude::*;
use vstd::string::*;
use vstd::utf8::*;

verus! {

/// One selected line: its number, counted from 1, its content, and the spans
/// `(start, end)` of the matches in it, as byte offsets into the content.
pub struct LineMatch {
    pub number: nat,
    pub line: Seq<u8>,
    pub spans: Seq<(int, int)>,
}

/// Whether a search for `query` selects `line`: the line holds the query,
/// both folded where `fold_case` is set; the other lines where `invert` is
/// set. The empty query is held by every line.
pub open spec fn qualifies(line: Seq<u8>, query: Seq<u8>, fold_case: bool, invert: bool) -> bool {
    contains(folded_if(line, fold_case), folded_if(query, fold_case)) != invert
}

/// The spans reported for a selected line: none where `invert` is set, else
/// those of the query in the line, both folded where `fold_case` is set.
pub open spec fn reported_spans(
    line: Seq<u8>,
    query: Seq<u8>,
    fold_case: bool,
    invert: bool,
) -> Seq<(int, int)> {
    if invert {
        Seq::empty()
    } else {
        match_spans(folded_if(line, fold_case), folded_if(query, fold_case))
    }
}

/// The selected lines among the first `k` lines of `text`, in order.
pub open spec fn hits_upto(
    text: Seq<u8>,
    query: Seq<u8>,
    fold_case: bool,
    invert: bool,
    k: nat,
) -> Seq<LineMatch>
    decreases k,
{
    if k == 0 {
        Seq::empty()
    } else {
        let before = hits_upto(text, query, fold_case, invert, (k - 1) as nat);
        let line = line_text(text, k - 1);
        if qualifies(line, query, fold_case, invert) {
            before.push(
                LineMatch {
                    number: k,
                    line,
                    spans: reported_spans(line, query, fold_case, invert),
                },
            )
        } else {
            before
        }
    }
}

/// The selected lines of `text`, in order.
pub open spec fn hits(
    text: Seq<u8>,
    query: Seq<u8>,
    fold_case: bool,
    invert: bool,
) -> Seq<LineMatch> {
    hits_upto(text, query, fold_case, invert, lines(text).len())
}

/// How many of the first `k` lines of `text` are selected.
pub open spec fn count_upto(
    text: Seq<u8>,
    query: Seq<u8>,
    fold_case: bool,
    invert: bool,
    k: nat,
) -> nat
    decreases k,
{
    if k == 0 {
        0
    } else {
        let before = count_upto(text, query, fold_case, invert, (k - 1) as nat);
        if qualifies(line_text(text, k - 1), query, fold_case, invert) {
            before + 1
        } else {
            before
        }
    }
}

/// How many lines of `text` are selected.
pub open spec fn selected_count(
    text: Seq<u8>,
    query: Seq<u8>,
    fold_case: bool,
    invert: bool,
) -> nat {
    count_upto(text, query, fold_case, invert, lines(text).len())
}

/// `found` holds an entry for the line with the given number.
pub open spec fn reports_line(found: Seq<LineMatch>, number: nat) -> bool {
    exists|j: int| 0 <= j < found.len() && #[trigger] found[j].number == number
}

/// What one entry of a search result stands for.
pub open spec fn hit_of(entry: (usize, &str, Vec<(usize, usize)>)) -> LineMatch {
    LineMatch { number: entry.0 as nat, line: entry.1.spec_bytes(), spans: span_view(entry.2@) }
}

/// What a search result stands for, entry by entry.
pub open spec fn hits_view(found: Seq<(usize, &str, Vec<(usize, usize)>)>) -> Seq<LineMatch> {
    found.map_values(|entry: (usize, &str, Vec<(usize, usize)>)| hit_of(entry))
}

/// Whether a search selects a line, and the spans it reports for it, given
/// the bytes `hay` and `needle` that stand for the line and the query in the
/// comparison: the two themselves, or their case folds.
pub fn match_line(hay: &[u8], needle: &[u8], invert: bool) -> (r: (bool, Vec<(usize, usize)>))
    ensures
        r.0 == (contains(hay@, needle@) != invert),
        span_view(r.1@) == if invert {
            Seq::<(int, int)>::empty()
        } else {
            match_spans(hay@, needle@)
        },
{
    let held = find_from(hay, needle, 0).is_some();
    if invert {
        let none: Vec<(usize, usize)> = Vec::new();
        (!held, none)
    } else {
        (held, find_spans(hay, needle))
    }
}

/// Whether `line` holds what `needle` holds, the line folded first where
/// `fold_case` is set.
fn holds(line: &str, needle: &[u8], fold_case: bool) -> (held: bool)
    ensures
        held == contains(folded_if(line.spec_bytes(), fold_case), needle@),
{
    if fold_case {
        let low = fold(line);
        find_from(low.as_slice(), needle, 0).is_some()
    } else {
        find_from(line.as_bytes(), needle, 0).is_some()
    }
}

/// The lines of `contents` that a search for `query` selects, each with its
/// number, its content and the spans reported for it.
fn select<'a>(
    query: &str,
    contents: &'a str,
    fold_case: bool,
    invert: bool,
) -> (found: Vec<(usize, &'a str, Vec<(usize, usize)>)>)
    ensures
        hits_view(found@) == hits(contents.spec_bytes(), query.spec_bytes(), fold_case, invert),
{
    let needle = if fold_case {
        fold(query)
    } else {
        query.as_bytes_vec()
    };
    let total: usize = contents.as_bytes().len();
    let ghost text = contents.spec_bytes();
    let ghost wanted = query.spec_bytes();
    let mut found: Vec<(usize, &'a str, Vec<(usize, usize)>)> = Vec::new();
    let mut pos: usize = 0;
    let mut number: usize = 0;
    proof {
        encode_utf8_valid_utf8(contents@);
    }
    while pos < total
        invariant
            text == contents.spec_bytes(),
            wanted == query.spec_bytes(),
            total == text.len(),
            valid_utf8(text),
            needle@ == folded_if(wanted, fold_case),
            number <= pos <= total,
            is_char_boundary(text, pos as int),
            number <= lines(text).len(),
            lines_from(text, pos as int) == lines(text).skip(number as int),
            hits_view(found@) == hits_upto(text, wanted, fold_case, invert, number as nat),
        decreases total - pos,
    {
        let (line, next) = take_line(contents, pos);
        let (chosen, spans) = if fold_case {
            let low = fold(line);
            match_line(low.as_slice(), needle.as_slice(), invert)
        } else {
            match_line(line.as_bytes(), needle.as_slice(), invert)
        };
        proof {
            let rest = lines(text).skip(number as int);
            assert(rest[0] == (pos as int, line_end(text, pos as int)));
            assert(lines(text).skip(number + 1) =~= rest.skip(1));
        }
        number += 1;
        if chosen {
            found.push((number, line, spans));
        }
        pos = next;
    }
    found
}

/// The lines of `contents` that hold `query`, compared byte for byte, each
/// with the spans at which the query stands in it, from left to right and
/// without overlap. Every line holds the empty query, at no span.
pub fn search<'a>(
    query: &str,
    contents: &'a str,
) -> (found: Vec<(usize, &'a str, Vec<(usize, usize)>)>)
    ensures
        hits_view(found@) == hits(contents.spec_bytes(), query.spec_bytes(), false, false),
        forall|j: int|
            0 <= j < found@.len() ==> spans_fit(
                (#[trigger] found@[j]).1.spec_bytes(),
                span_view(found@[j].2@),
            ),
{
    let found = select(query, contents, false, false);
    proof {
        encode_utf8_valid_utf8(query@);
        encode_utf8_valid_utf8(contents@);
        lemma_search_spans_fit(contents.spec_bytes(), query.spec_bytes());
        assert forall|j: int| 0 <= j < found@.len() implies spans_fit(
            (#[trigger] found@[j]).1.spec_bytes(),
            span_view(found@[j].2@),
        ) by {
            assert(hits_view(found@)[j] == hit_of(found@[j]));
        }
    }
    found
}

/// The lines of `contents` whose case fold holds the case fold of `query`,
/// each with the spans at which the folded query stands in the folded line.
/// The spans are offsets into the folded line: they fit the line itself
/// where folding it moves no character boundary.
pub fn search_case_insensitive<'a>(
    query: &str,
    contents: &'a str,
) -> (found: Vec<(usize, &'a str, Vec<(usize, usize)>)>)
    ensures
        hits_view(found@) == hits(contents.spec_bytes(), query.spec_bytes(), true, false),
        forall|j: int|
            0 <= j < found@.len() && fold_keeps_boundaries((#[trigger] found@[j]).1.spec_bytes())
                ==> spans_fit(found@[j].1.spec_bytes(), span_view(found@[j].2@)),
{
    let found = select(query, contents, true, false);
    proof {
        encode_utf8_valid_utf8(query@);
        encode_utf8_valid_utf8(contents@);
        lemma_folded_search_spans_fit(contents.spec_bytes(), query.spec_bytes());
        assert forall|j: int|
            0 <= j < found@.len() && fold_keeps_boundaries(
                (#[trigger] found@[j]).1.spec_bytes(),
            ) implies spans_fit(found@[j].1.spec_bytes(), span_view(found@[j].2@)) by {
            assert(hits_view(found@)[j] == hit_of(found@[j]));
        }
    }
    found
}

/// The lines of `contents` that do not hold `query`, each without spans.
/// Where `case_insensitive` is set, line and query are compared by their
/// case folds.
pub fn search_invert<'a>(
    query: &str,
    contents: &'a str,
    case_insensitive: bool,
) -> (found: Vec<(usize, &'a str, Vec<(usize, usize)>)>)
    ensures
        hits_view(found@) == hits(
            contents.spec_bytes(),
            query.spec_bytes(),
            case_insensitive,
            true,
        ),
        forall|j: int| 0 <= j < found@.len() ==> (#[trigger] found@[j]).2@.len() == 0,
{
    let found = select(query, contents, case_insensitive, true);
    proof {
        lemma_hits_upto_shape(
            contents.spec_bytes(),
            query.spec_bytes(),
            case_insensitive,
            true,
            lines(contents.spec_bytes()).len(),
        );
        assert forall|j: int| 0 <= j < found@.len() implies (#[trigger] found@[j]).2@.len()
            == 0 by {
            assert(hits_view(found@)[j] == hit_of(found@[j]));
        }
    }
    found
}

/// The number of lines of `contents` that a search for `query` selects:
/// those that hold the query, or those that do not where `invert` is set;
/// compared by their case folds where `case_insensitive` is set.
pub fn search_count(
    query: &str,
    contents: &str,
    case_insensitive: bool,
    invert: bool,
) -> (count: usize)
    ensures
        count == selected_count(
            contents.spec_bytes(),
            query.spec_bytes(),
            case_insensitive,
            invert,
        ),
{
    let needle = if case_insensitive {
        fold(query)
    } else {
        query.as_bytes_vec()
    };
    let total: usize = contents.as_bytes().len();
    let ghost text = contents.spec_bytes();
    let ghost wanted = query.spec_bytes();
    let mut count: usize = 0;
    let mut pos: usize = 0;
    let ghost mut number: nat = 0;
    proof {
        encode_utf8_valid_utf8(contents@);
    }
    while pos < total
        invariant
            text == contents.spec_bytes(),
            wanted == query.spec_bytes(),
            total == text.len(),
            valid_utf8(text),
            needle@ == folded_if(wanted, case_insensitive),
            count <= number <= pos <= total,
            is_char_boundary(text, pos as int),
            number <= lines(text).len(),
            lines_from(text, pos as int) == lines(text).skip(number as int),
            count == count_upto(text, wanted, case_insensitive, invert, number),
        decreases total - pos,
    {
        let (line, next) = take_line(contents, pos);
        let held = holds(line, needle.as_slice(), case_insensitive);
        proof {
            let rest = lines(text).skip(number as int);
            assert(rest[0] == (pos as int, line_end(text, pos as int)));
            assert(lines(text).skip(number as int + 1) =~= rest.skip(1));
            number = number + 1;
        }
        if held != invert {
            count += 1;
        }
        pos = next;
    }
    count
}

/// What the selected lines among the first `k` lines look like: there are as
/// many as are counted; each is a selected line of the text, under its own
/// number, with the spans reported for it; they stand in the order of the
/// text, so none stands twice; and every selected line is among them.
pub proof fn lemma_hits_upto_shape(
    text: Seq<u8>,
    query: Seq<u8>,
    fold_case: bool,
    invert: bool,
    k: nat,
)
    ensures
        hits_upto(text, query, fold_case, invert, k).len() == count_upto(
            text,
            query,
            fold_case,
            invert,
            k,
        ),
        count_upto(text, query, fold_case, invert, k) <= k,
        forall|j: int|
            0 <= j < hits_upto(text, query, fold_case, invert, k).len() ==> {
                let hit = #[trigger] hits_upto(text, query, fold_case, invert, k)[j];
                &&& 1 <= hit.number <= k
                &&& hit.line == line_text(text, hit.number - 1)
                &&& qualifies(hit.line, query, fold_case, invert)
                &&& hit.spans == reported_spans(hit.line, query, fold_case, invert)
            },
        forall|i: int, j: int|
            0 <= i < j < hits_upto(text, query, fold_case, invert, k).len() ==> (
            #[trigger] hits_upto(text, query, fold_case, invert, k)[i]).number < (
            #[trigger] hits_upto(text, query, fold_case, invert, k)[j]).number,
        forall|number: nat|
            1 <= number <= k ==> (#[trigger] reports_line(
                hits_upto(text, query, fold_case, invert, k),
                number,
            ) <==> qualifies(line_text(text, number - 1), query, fold_case, invert)),
    decreases k,
{
    if k > 0 {
        let before = hits_upto(text, query, fold_case, invert, (k - 1) as nat);
        let now = hits_upto(text, query, fold_case, invert, k);
        lemma_hits_upto_shape(text, query, fold_case, invert, (k - 1) as nat);
        assert forall|number: nat| 1 <= number <= k implies (#[trigger] reports_line(now, number)
            <==> qualifies(line_text(text, number - 1), query, fold_case, invert)) by {
            if reports_line(now, number) {
                let j = choose|j: int| 0 <= j < now.len() && #[trigger] now[j].number == number;
            }
            if qualifies(line_text(text, number - 1), query, fold_case, invert) {
                if number < k {
                    assert(reports_line(before, number));
                    let j = choose|j: int|
                        0 <= j < before.len() && #[trigger] before[j].number == number;
                    assert(now[j].number == number);
                } else {
                    assert(now[now.len() - 1].number == number);
                }
            }
        }
    }
}

/// A count of selected lines is the number of lines that the search with the
/// same settings reports, and each of those is a selected line: its entry
/// carries the number and the content of a line that the count counted.
pub proof fn lemma_count_agrees_with_search(
    text: Seq<u8>,
    query: Seq<u8>,
    fold_case: bool,
    invert: bool,
)
    ensures
        selected_count(text, query, fold_case, invert) == hits(
            text,
            query,
            fold_case,
            invert,
        ).len(),
        forall|number: nat|
            1 <= number <= lines(text).len() ==> (#[trigger] reports_line(
                hits(text, query, fold_case, invert),
                number,
            ) <==> qualifies(line_text(text, number - 1), query, fold_case, invert)),
{
    lemma_hits_upto_shape(text, query, fold_case, invert, lines(text).len());
}

/// Among the first `k` lines, those that a search counts and those that the
/// inverted search counts are `k` together.
proof fn lemma_counts_partition(text: Seq<u8>, query: Seq<u8>, fold_case: bool, k: nat)
    ensures
        count_upto(text, query, fold_case, false, k) + count_upto(text, query, fold_case, true, k)
            == k,
    decreases k,
{
    if k > 0 {
        lemma_counts_partition(text, query, fold_case, (k - 1) as nat);
    }
}

/// A search and the inverted search with the same settings split the lines
/// of the text between them: every line is reported by exactly one of the
/// two, and by that one once.
pub proof fn lemma_search_and_invert_partition(text: Seq<u8>, query: Seq<u8>, fold_case: bool)
    ensures
        hits(text, query, fold_case, false).len() + hits(text, query, fold_case, true).len()
            == lines(text).len(),
        forall|number: nat|
            1 <= number <= lines(text).len() ==> (#[trigger] reports_line(
                hits(text, query, fold_case, false),
                number,
            ) != reports_line(hits(text, query, fold_case, true), number)),
        forall|i: int, j: int|
            0 <= i < j < hits(text, query, fold_case, false).len() ==> (#[trigger] hits(
                text,
                query,
                fold_case,
                false,
            )[i]).number != (#[trigger] hits(text, query, fold_case, false)[j]).number,
        forall|i: int, j: int|
            0 <= i < j < hits(text, query, fold_case, true).len() ==> (#[trigger] hits(
                text,
                query,
                fold_case,
                true,
            )[i]).number != (#[trigger] hits(text, query, fold_case, true)[j]).number,
        forall|j: int|
            0 <= j < hits(text, query, fold_case, false).len() ==> 1 <= (#[trigger] hits(
                text,
                query,
                fold_case,
                false,
            )[j]).number <= lines(text).len(),
        forall|j: int|
            0 <= j < hits(text, query, fold_case, true).len() ==> 1 <= (#[trigger] hits(
                text,
                query,
                fold_case,
                true,
            )[j]).number <= lines(text).len(),
{
    let n = lines(text).len();
    lemma_hits_upto_shape(text, query, fold_case, false, n);
    lemma_hits_upto_shape(text, query, fold_case, true, n);
    lemma_counts_partition(text, query, fold_case, n);
}

/// In the result of a search that is not inverted, every span of a line is
/// an occurrence of the query in that line, as long as the query, both folded
/// where `fold_case` is set; and every line has a span, unless the query is
/// empty.
pub proof fn lemma_spans_are_occurrences(text: Seq<u8>, query: Seq<u8>, fold_case: bool)
    ensures
        forall|j: int|
            0 <= j < hits(text, query, fold_case, false).len() ==> {
                let hit = #[trigger] hits(text, query, fold_case, false)[j];
                let hay = folded_if(hit.line, fold_case);
                let needle = folded_if(query, fold_case);
                &&& needle.len() > 0 ==> hit.spans.len() > 0
                &&& forall|i: int|
                    0 <= i < hit.spans.len() ==> {
                        &&& occurs_at(hay, needle, (#[trigger] hit.spans[i]).0)
                        &&& hit.spans[i].1 == hit.spans[i].0 + needle.len()
                    }
            },
{
    let found = hits(text, query, fold_case, false);
    let needle = folded_if(query, fold_case);
    lemma_hits_upto_shape(text, query, fold_case, false, lines(text).len());
    assert forall|j: int| 0 <= j < found.len() implies {
        let hit = #[trigger] found[j];
        let hay = folded_if(hit.line, fold_case);
        &&& needle.len() > 0 ==> hit.spans.len() > 0
        &&& forall|i: int|
            0 <= i < hit.spans.len() ==> {
                &&& occurs_at(hay, needle, (#[trigger] hit.spans[i]).0)
                &&& hit.spans[i].1 == hit.spans[i].0 + needle.len()
            }
    } by {
        let hay = folded_if(found[j].line, fold_case);
        lemma_scan_shape(hay, needle, 0);
        if needle.len() > 0 {
            lemma_spans_iff_contains(hay, needle);
        }
    }
}

/// In the result of a case-sensitive search of valid UTF-8 text, the spans of
/// every line can be cut out of that line: they are in order, do not overlap
/// and split no character.
pub proof fn lemma_search_spans_fit(text: Seq<u8>, query: Seq<u8>)
    requires
        valid_utf8(text),
        valid_utf8(query),
    ensures
        forall|j: int|
            0 <= j < hits(text, query, false, false).len() ==> spans_fit(
                (#[trigger] hits(text, query, false, false)[j]).line,
                hits(text, query, false, false)[j].spans,
            ),
{
    let found = hits(text, query, false, false);
    lemma_hits_upto_shape(text, query, false, false, lines(text).len());
    assert forall|j: int| 0 <= j < found.len() implies spans_fit(
        (#[trigger] found[j]).line,
        found[j].spans,
    ) by {
        lemma_line_is_utf8(text, found[j].number - 1);
        lemma_match_spans_fit(found[j].line, query);
    }
}

/// In the result of a case-insensitive search of valid UTF-8 text, the spans
/// of every line are in order, do not overlap and split no character of the
/// folded line. Where folding the line moves no character boundary, which is
/// so for every line of ASCII bytes, the same holds of the line itself.
pub proof fn lemma_folded_search_spans_fit(text: Seq<u8>, query: Seq<u8>)
    requires
        valid_utf8(text),
        valid_utf8(query),
    ensures
        forall|j: int|
            0 <= j < hits(text, query, true, false).len() ==> {
                let hit = #[trigger] hits(text, query, true, false)[j];
                &&& spans_fit(folded(hit.line), hit.spans)
                &&& fold_keeps_boundaries(hit.line) ==> spans_fit(hit.line, hit.spans)
                &&& is_ascii_bytes(hit.line) ==> spans_fit(hit.line, hit.spans)
            },
{
    let found = hits(text, query, true, false);
    lemma_hits_upto_shape(text, query, true, false, lines(text).len());
    assert forall|j: int| 0 <= j < found.len() implies {
        let hit = #[trigger] found[j];
        &&& spans_fit(folded(hit.line), hit.spans)
        &&& fold_keeps_boundaries(hit.line) ==> spans_fit(hit.line, hit.spans)
        &&& is_ascii_bytes(hit.line) ==> spans_fit(hit.line, hit.spans)
    } by {
        let hit = found[j];
        lemma_line_is_utf8(text, hit.number - 1);
        lemma_folded_is_utf8(hit.line);
        lemma_folded_is_utf8(query);
        lemma_match_spans_fit(folded(hit.line), folded(query));
        if is_ascii_bytes(hit.line) {
            lemma_ascii_fold_keeps_boundaries(hit.line);
        }
    }
}

/// Among the first `k` lines, a case-insensitive search counts at least as
/// many as the case-sensitive one, where folding keeps the occurrences of the
/// query in each of them.
proof fn lemma_folded_count_is_no_less(text: Seq<u8>, query: Seq<u8>, k: nat)
    requires
        k <= lines(text).len(),
        forall|i: int|
            0 <= i < lines(text).len() ==> fold_keeps_occurrences(
                #[trigger] line_text(text, i),
                query,
            ),
    ensures
        count_upto(text, query, true, false, k) >= count_upto(text, query, false, false, k),
    decreases k,
{
    if k > 0 {
        lemma_folded_count_is_no_less(text, query, (k - 1) as nat);
    }
}

/// Where folding keeps the occurrences of the query in every line of the
/// text, a case-insensitive search reports at least as many lines as the
/// case-sensitive search for the same query.
pub proof fn lemma_folded_search_finds_no_fewer(text: Seq<u8>, query: Seq<u8>)
    requires
        forall|k: int|
            0 <= k < lines(text).len() ==> fold_keeps_occurrences(
                #[trigger] line_text(text, k),
                query,
            ),
    ensures
        hits(text, query, true, false).len() >= hits(text, query, false, false).len(),
{
    let n = lines(text).len();
    lemma_hits_upto_shape(text, query, true, false, n);
    lemma_hits_upto_shape(text, query, false, false, n);
    lemma_folded_count_is_no_less(text, query, n);
}

/// In text of ASCII bytes, a case-insensitive search reports at least as many
/// lines as the case-sensitive search for the same query, whatever the query.
pub proof fn lemma_folded_search_finds_no_fewer_in_ascii(text: Seq<u8>, query: Seq<u8>)
    requires
        is_ascii_bytes(text),
    ensures
        hits(text, query, true, false).len() >= hits(text, query, false, false).len(),
{
    lemma_ascii_is_utf8(text);
    assert forall|k: int| 0 <= k < lines(text).len() implies fold_keeps_occurrences(
        #[trigger] line_text(text, k),
        query,
    ) by {
        lemma_line_is_utf8(text, k);
        lemma_ascii_fold_keeps_occurrences(line_text(text, k), query);
    }
    lemma_folded_search_finds_no_fewer(text, query);
}

} // verus!
