//! Exact substring search over bytes.

use vstd::prelude::*;

verus! {

/// `needle` occurs in `haystack` starting at position `i`.
pub open spec fn occurs_at(haystack: Seq<u8>, needle: Seq<u8>, i: int) -> bool {
    0 <= i && i + needle.len() <= haystack.len() && haystack.subrange(i, i + needle.len()) == needle
}

/// `needle` occurs somewhere in `haystack` as a contiguous run of bytes.
pub open spec fn occurs_in(haystack: Seq<u8>, needle: Seq<u8>) -> bool {
    exists|i: int| occurs_at(haystack, needle, i)
}

/// Relies on memchr::memmem::find: the position of the first occurrence of
/// `needle` in `haystack`, or `None` where it does not occur.
#[verifier::external_body]
fn find_first(haystack: &[u8], needle: &[u8]) -> (r: Option<usize>)
    ensures
        match r {
            Some(i) => occurs_at(haystack@, needle@, i as int) && forall|j: int|
                0 <= j < i ==> !occurs_at(haystack@, needle@, j),
            None => !occurs_in(haystack@, needle@),
        },
{
    memchr::memmem::find(haystack, needle)
}

/// Whether `pattern` occurs in `seq`.
pub fn contains_pattern(seq: &[u8], pattern: &[u8]) -> (r: bool)
    ensures
        r == occurs_in(seq@, pattern@),
{
    find_first(seq, pattern).is_some()
}

} // verus!
