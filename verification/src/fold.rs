//! Case folding: the lowercase form under which case-insensitive search
//! compares text.
//!
//! A string of ASCII bytes alone is folded byte by byte, so its fold has the
//! same length and the same character boundaries. Any other string is handed
//! to the standard library's Unicode lowercasing, which may change the byte
//! length of a character: an offset into such a fold need not be a character
//! boundary of the string that was folded, nor lie in it at all.

use crate::boundary::lemma_ascii_byte_boundaries;
use crate::text::contains;
use crate::text::occurs_at;
use vstd::prelude::*;
use vstd::string::*;
use vstd::utf8::*;

verus! {

/// The lowercase form that `str::to_lowercase` gives a string of characters.
pub uninterp spec fn lowercase_of(s: Seq<char>) -> Seq<char>;

/// Calls `str::to_lowercase`. Taken on trust: the characters of the result
/// depend on the characters of `s` alone, so that they can be given the name
/// `lowercase_of`. What the lowercase form of a string is, is not said.
#[verifier::external_body]
fn unicode_lowercase(s: &str) -> (low: String)
    ensures
        low@ == lowercase_of(s@),
{
    s.to_lowercase()
}

/// The lowercase form of an ASCII byte: `A` to `Z` become `a` to `z`.
pub open spec fn lower_byte(b: u8) -> u8 {
    if 0x41 <= b <= 0x5a {
        (b + 0x20) as u8
    } else {
        b
    }
}

/// Every byte of `s` is below 0x80.
pub open spec fn is_ascii_bytes(s: Seq<u8>) -> bool {
    forall|i: int| 0 <= i < s.len() ==> s[i] < 0x80
}

/// The case fold of the UTF-8 string `s`, as UTF-8.
pub open spec fn folded(s: Seq<u8>) -> Seq<u8> {
    if is_ascii_bytes(s) {
        s.map_values(|b: u8| lower_byte(b))
    } else {
        encode_utf8(lowercase_of(decode_utf8(s)))
    }
}

/// `s` itself, or its case fold where `fold_case` is set.
pub open spec fn folded_if(s: Seq<u8>, fold_case: bool) -> Seq<u8> {
    if fold_case {
        folded(s)
    } else {
        s
    }
}

/// Folding `line` moves no character boundary: every character boundary of
/// the fold is a character boundary of the line.
pub open spec fn fold_keeps_boundaries(line: Seq<u8>) -> bool {
    forall|at: int| #[trigger] is_char_boundary(folded(line), at) ==> is_char_boundary(line, at)
}

/// Folding keeps the occurrences of `query` in `line`: where the line holds
/// the query, the folded line holds the folded query.
pub open spec fn fold_keeps_occurrences(line: Seq<u8>, query: Seq<u8>) -> bool {
    contains(line, query) ==> contains(folded(line), folded(query))
}

/// A character whose scalar value is below 0x80 is an ASCII character.
proof fn lemma_low_scalar_is_ascii(c: char)
    requires
        c as u32 <= 0x7f,
    ensures
        '\0' <= c <= '\u{7f}',
{
}

/// Characters whose UTF-8 encoding holds ASCII bytes alone are ASCII
/// characters.
pub proof fn lemma_ascii_bytes_are_ascii_chars(chars: Seq<char>)
    requires
        is_ascii_bytes(encode_utf8(chars)),
    ensures
        is_ascii_chars(chars),
    decreases chars.len(),
{
    if chars.len() > 0 {
        let bytes = encode_utf8(chars);
        let rest = encode_utf8(chars.drop_first());
        encode_utf8_first_scalar(chars);
        let b = bytes[0];
        assert((b & 0x7f) <= 0x7f) by (bit_vector);
        assert forall|i: int| 0 <= i < rest.len() implies rest[i] < 0x80 by {
            assert(bytes[i + 1] == rest[i]);
        }
        lemma_ascii_bytes_are_ascii_chars(chars.drop_first());
        assert forall|i: int| 0 <= i < chars.len() implies '\0' <= #[trigger] chars[i]
            <= '\u{7f}' by {
            if i > 0 {
                assert(chars[i] == chars.drop_first()[i - 1]);
            } else {
                lemma_low_scalar_is_ascii(chars[0]);
            }
        }
    }
}

/// A string is ASCII by its characters exactly when it is by its bytes.
pub proof fn lemma_ascii_chars_iff_ascii_bytes(chars: Seq<char>)
    ensures
        is_ascii_chars(chars) <==> is_ascii_bytes(encode_utf8(chars)),
{
    if is_ascii_chars(chars) {
        is_ascii_chars_encode_utf8(chars);
    }
    if is_ascii_bytes(encode_utf8(chars)) {
        lemma_ascii_bytes_are_ascii_chars(chars);
    }
}

/// A string of ASCII bytes is valid UTF-8.
pub proof fn lemma_ascii_is_utf8(s: Seq<u8>)
    requires
        is_ascii_bytes(s),
    ensures
        valid_utf8(s),
{
    partial_valid_utf8_extend_ascii_block(s, 0, s.len() as int);
    assert(s.subrange(0, s.len() as int) =~= s);
}

/// The fold of a string of ASCII bytes is a string of ASCII bytes of the
/// same length.
pub proof fn lemma_ascii_fold_is_ascii(s: Seq<u8>)
    requires
        is_ascii_bytes(s),
    ensures
        is_ascii_bytes(folded(s)),
        folded(s).len() == s.len(),
{
}

/// The fold of a valid UTF-8 string is valid UTF-8.
pub proof fn lemma_folded_is_utf8(s: Seq<u8>)
    requires
        valid_utf8(s),
    ensures
        valid_utf8(folded(s)),
{
    if is_ascii_bytes(s) {
        lemma_ascii_is_utf8(folded(s));
    } else {
        encode_utf8_valid_utf8(lowercase_of(decode_utf8(s)));
    }
}

/// Folding a line of ASCII bytes moves no character boundary.
pub proof fn lemma_ascii_fold_keeps_boundaries(line: Seq<u8>)
    requires
        is_ascii_bytes(line),
    ensures
        fold_keeps_boundaries(line),
{
    lemma_ascii_is_utf8(line);
    lemma_ascii_is_utf8(folded(line));
    is_char_boundary_start_end_of_seq(line);
    assert forall|at: int| #[trigger] is_char_boundary(folded(line), at) implies is_char_boundary(
        line,
        at,
    ) by {
        if 0 <= at < line.len() {
            lemma_ascii_byte_boundaries(line, at);
        }
    }
}

/// Folding keeps every occurrence of any query in a line of ASCII bytes.
pub proof fn lemma_ascii_fold_keeps_occurrences(line: Seq<u8>, query: Seq<u8>)
    requires
        is_ascii_bytes(line),
    ensures
        fold_keeps_occurrences(line, query),
{
    if contains(line, query) {
        let at = choose|at: int| occurs_at(line, query, at);
        let n = query.len() as int;
        assert(folded(line).subrange(at, at + n) =~= folded(query));
        assert(occurs_at(folded(line), folded(query), at));
    }
}

/// The case fold of `s`, as bytes.
pub fn fold(s: &str) -> (low: Vec<u8>)
    ensures
        low@ == folded(s.spec_bytes()),
{
    proof {
        lemma_ascii_chars_iff_ascii_bytes(s@);
        encode_utf8_decode_utf8(s@);
    }
    if s.is_ascii() {
        let bytes = s.as_bytes();
        let mut low: Vec<u8> = Vec::new();
        let mut i: usize = 0;
        while i < bytes.len()
            invariant
                i <= bytes@.len(),
                low@.len() == i,
                is_ascii_bytes(bytes@),
                forall|k: int| 0 <= k < i ==> low@[k] == lower_byte(bytes@[k]),
            decreases bytes@.len() - i,
        {
            let b = bytes[i];
            if 0x41 <= b && b <= 0x5a {
                low.push(b + 0x20);
            } else {
                low.push(b);
            }
            i += 1;
        }
        low
    } else {
        let low = unicode_lowercase(s);
        low.as_str().as_bytes_vec()
    }
}

} // verus!
