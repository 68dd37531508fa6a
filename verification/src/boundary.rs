//! Character boundaries of UTF-8 text: where a string may be cut so that both
//! parts are strings again.

use crate::text::occurs_at;
use vstd::prelude::*;
use vstd::string::*;
use vstd::utf8::*;

verus! {

/// In valid UTF-8 a byte below 0x80 is a character of its own: a character
/// starts at it and the next one starts right after it.
pub proof fn lemma_ascii_byte_boundaries(bytes: Seq<u8>, at: int)
    requires
        valid_utf8(bytes),
        0 <= at < bytes.len(),
        bytes[at] < 0x80,
    ensures
        is_char_boundary(bytes, at),
        is_char_boundary(bytes, at + 1),
{
    reveal_with_fuel(valid_utf8, 2);
    is_char_boundary_iff_not_is_continuation_byte(bytes, at);
    valid_utf8_split(bytes, at);
    if at + 1 == bytes.len() {
        is_char_boundary_start_end_of_seq(bytes);
    } else {
        is_char_boundary_iff_not_is_continuation_byte(bytes, at + 1);
    }
}

/// A valid UTF-8 string that is a prefix of another one ends on a character
/// boundary of the longer one.
pub proof fn lemma_prefix_ends_on_boundary(hay: Seq<u8>, prefix: Seq<u8>)
    requires
        valid_utf8(hay),
        valid_utf8(prefix),
        occurs_at(hay, prefix, 0),
    ensures
        is_char_boundary(hay, prefix.len() as int),
    decreases prefix.len(),
{
    if prefix.len() > 0 {
        let n = prefix.len() as int;
        let width = length_of_first_scalar(prefix);
        let hay_rest = pop_first_scalar(hay);
        let prefix_rest = pop_first_scalar(prefix);
        assert(hay_rest.subrange(0, n - width) =~= prefix_rest);
        lemma_prefix_ends_on_boundary(hay_rest, prefix_rest);
    }
}

/// An occurrence of a non-empty valid UTF-8 string in a valid UTF-8 string
/// starts and ends on character boundaries.
pub proof fn lemma_occurrence_on_boundaries(hay: Seq<u8>, needle: Seq<u8>, at: int)
    requires
        valid_utf8(hay),
        valid_utf8(needle),
        needle.len() > 0,
        occurs_at(hay, needle, at),
    ensures
        is_char_boundary(hay, at),
        is_char_boundary(hay, at + needle.len()),
{
    let n = needle.len() as int;
    let end = at + n;
    is_char_boundary_iff_not_is_continuation_byte(hay, at);
    valid_utf8_split(hay, at);
    let tail = hay.subrange(at, hay.len() as int);
    assert(tail.subrange(0, n) =~= hay.subrange(at, end));
    lemma_prefix_ends_on_boundary(tail, needle);
    if end == hay.len() {
        is_char_boundary_start_end_of_seq(hay);
    } else {
        is_char_boundary_iff_not_is_continuation_byte(tail, n);
        is_char_boundary_iff_not_is_continuation_byte(hay, end);
    }
}

/// A character boundary of a string is also one of each prefix of the string
/// that reaches it and ends on a character boundary.
pub proof fn lemma_boundary_in_prefix(bytes: Seq<u8>, at: int, end: int)
    requires
        valid_utf8(bytes),
        0 <= at <= end <= bytes.len(),
        is_char_boundary(bytes, at),
        is_char_boundary(bytes, end),
    ensures
        valid_utf8(bytes.subrange(0, end)),
        is_char_boundary(bytes.subrange(0, end), at),
{
    valid_utf8_split(bytes, end);
    let head = bytes.subrange(0, end);
    if at == end {
        is_char_boundary_start_end_of_seq(head);
    } else {
        is_char_boundary_iff_not_is_continuation_byte(bytes, at);
        is_char_boundary_iff_not_is_continuation_byte(head, at);
    }
}

/// The part of valid UTF-8 between two character boundaries is valid UTF-8.
pub proof fn lemma_part_is_utf8(bytes: Seq<u8>, start: int, end: int)
    requires
        valid_utf8(bytes),
        0 <= start <= end <= bytes.len(),
        is_char_boundary(bytes, start),
        is_char_boundary(bytes, end),
    ensures
        valid_utf8(bytes.subrange(start, end)),
{
    lemma_boundary_in_prefix(bytes, start, end);
    let head = bytes.subrange(0, end);
    valid_utf8_split(head, start);
    assert(head.subrange(start, head.len() as int) =~= bytes.subrange(start, end));
}

/// The encoding of two strings, one after the other, is the encoding of the
/// first followed by the encoding of the second.
pub proof fn lemma_encode_concat(a: Seq<char>, b: Seq<char>)
    ensures
        encode_utf8(a + b) == encode_utf8(a) + encode_utf8(b),
    decreases a.len(),
{
    if a.len() > 0 {
        lemma_encode_concat(a.drop_first(), b);
        assert((a + b).drop_first() =~= a.drop_first() + b);
    }
}

/// The part of `s` between the byte offsets `start` and `end`, borrowed from
/// `s`. Both offsets have to be character boundaries of `s`.
pub fn slice<'a>(s: &'a str, start: usize, end: usize) -> (part: &'a str)
    requires
        start <= end <= s.spec_bytes().len(),
        is_char_boundary(s.spec_bytes(), start as int),
        is_char_boundary(s.spec_bytes(), end as int),
    ensures
        part.spec_bytes() == s.spec_bytes().subrange(start as int, end as int),
{
    proof {
        encode_utf8_valid_utf8(s@);
        lemma_boundary_in_prefix(s.spec_bytes(), start as int, end as int);
    }
    let (head, _) = s.split_at(end);
    let (_, part) = head.split_at(start);
    part
}

} // verus!
