//! Byte strings: where one stands in another, and the executable search for
//! it.

use vstd::prelude::*;

verus! {

/// `needle` stands in `hay` at byte offset `at`.
pub open spec fn occurs_at(hay: Seq<u8>, needle: Seq<u8>, at: int) -> bool {
    &&& 0 <= at
    &&& at + needle.len() <= hay.len()
    &&& hay.subrange(at, at + needle.len()) == needle
}

/// `needle` stands somewhere in `hay`. The empty string stands in every string.
pub open spec fn contains(hay: Seq<u8>, needle: Seq<u8>) -> bool {
    exists|at: int| occurs_at(hay, needle, at)
}

/// No occurrence of `needle` in `hay` starts at an offset in `[from, to)`.
pub open spec fn none_between(hay: Seq<u8>, needle: Seq<u8>, from: int, to: int) -> bool {
    forall|at: int| from <= at < to ==> !occurs_at(hay, needle, at)
}

/// No occurrence of `needle` in `hay` starts at or after `from`.
pub open spec fn none_after(hay: Seq<u8>, needle: Seq<u8>, from: int) -> bool {
    forall|at: int| from <= at ==> !occurs_at(hay, needle, at)
}

/// Whether `needle` stands in `hay` at offset `at`, compared byte by byte.
pub fn matches_at(hay: &[u8], needle: &[u8], at: usize) -> (r: bool)
    ensures
        r == occurs_at(hay@, needle@, at as int),
{
    let n: usize = needle.len();
    if at > hay.len() || n > hay.len() - at {
        return false;
    }
    let mut j: usize = 0;
    while j < n
        invariant
            j <= n,
            n == needle.len(),
            at + n <= hay.len(),
            forall|k: int| 0 <= k < j ==> hay@[at + k] == needle@[k],
        decreases n - j,
    {
        if hay[at + j] != needle[j] {
            return false;
        }
        j += 1;
    }
    assert(hay@.subrange(at as int, at + n) =~= needle@);
    true
}

/// Whether `a` and `b` hold the same bytes.
pub fn same_bytes(a: &[u8], b: &[u8]) -> (same: bool)
    ensures
        same == (a@ == b@),
{
    if a.len() != b.len() {
        return false;
    }
    assert(a@.subrange(0, a@.len() as int) =~= a@);
    matches_at(a, b, 0)
}

/// The offset of the leftmost occurrence of `needle` in `hay` that starts at
/// or after `from`, or `None` when there is none.
pub fn find_from(hay: &[u8], needle: &[u8], from: usize) -> (r: Option<usize>)
    ensures
        match r {
            Some(at) => {
                &&& from <= at
                &&& occurs_at(hay@, needle@, at as int)
                &&& none_between(hay@, needle@, from as int, at as int)
            },
            None => none_after(hay@, needle@, from as int),
        },
{
    let n: usize = needle.len();
    let h: usize = hay.len();
    if n > h || from > h - n {
        return None;
    }
    let last: usize = h - n;
    let mut at: usize = from;
    while at <= last
        invariant
            from <= at <= last + 1,
            last == hay.len() - needle.len(),
            none_between(hay@, needle@, from as int, at as int),
        decreases last + 1 - at,
    {
        if matches_at(hay, needle, at) {
            return Some(at);
        }
        assert(needle@.len() > 0) by {
            if needle@.len() == 0 {
                assert(hay@.subrange(at as int, at as int) =~= needle@);
            }
        }
        at += 1;
    }
    None
}

} // verus!
