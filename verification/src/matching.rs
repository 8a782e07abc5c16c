//! What it means for a pattern to match a buffer at an offset.
//!
//! A pattern is modelled as a sequence of slots, `Some(b)` for a byte that
//! must be `b` and `None` for a wildcard.

use vstd::prelude::*;

verus! {

/// Whether a pattern slot accepts a buffer byte.
pub open spec fn slot_accepts(slot: Option<u8>, byte: u8) -> bool {
    match slot {
        Some(b) => b == byte,
        None => true,
    }
}

/// The window of `buf` that starts at `at` lies inside `buf` and every slot
/// of `pat` accepts the byte under it.
pub open spec fn matches_at(pat: Seq<Option<u8>>, buf: Seq<u8>, at: int) -> bool {
    &&& 0 <= at
    &&& at + pat.len() <= buf.len()
    &&& forall|j: int| 0 <= j < pat.len() ==> slot_accepts(#[trigger] pat[j], buf[at + j])
}

/// `found` is the answer of a search that reports the smallest matching
/// offset: the leftmost match if there is one, `None` if there is none.
pub open spec fn is_leftmost_match(pat: Seq<Option<u8>>, buf: Seq<u8>, found: Option<usize>) -> bool {
    match found {
        Some(at) => matches_at(pat, buf, at as int) && forall|k: int|
            0 <= k < at ==> !matches_at(pat, buf, k),
        None => forall|k: int| !matches_at(pat, buf, k),
    }
}

/// `found` is the answer of a search that may report any matching offset:
/// some match if there is one, `None` if there is none.
pub open spec fn is_some_match(pat: Seq<Option<u8>>, buf: Seq<u8>, found: Option<usize>) -> bool {
    match found {
        Some(at) => matches_at(pat, buf, at as int),
        None => forall|k: int| !matches_at(pat, buf, k),
    }
}

/// No slot of `pat` is a wildcard.
pub open spec fn is_exact(pat: Seq<Option<u8>>) -> bool {
    forall|j: int| 0 <= j < pat.len() ==> (#[trigger] pat[j]) is Some
}

/// The byte that is stored for a slot: its own, or zero for a wildcard.
pub open spec fn byte_of(slot: Option<u8>) -> u8 {
    match slot {
        Some(b) => b,
        None => 0u8,
    }
}

/// The bytes that are stored for a pattern, slot by slot.
pub open spec fn stored_bytes(pat: Seq<Option<u8>>) -> Seq<u8> {
    Seq::new(pat.len(), |j: int| byte_of(pat[j]))
}

/// `needle` occurs in `haystack` at `at`, byte for byte.
pub open spec fn occurs_at(needle: Seq<u8>, haystack: Seq<u8>, at: int) -> bool {
    &&& 0 <= at
    &&& at + needle.len() <= haystack.len()
    &&& haystack.subrange(at, at + needle.len()) == needle
}

/// `found` is the offset of the first occurrence of `needle` in `haystack`,
/// or `None` if it does not occur.
pub open spec fn is_first_occurrence(needle: Seq<u8>, haystack: Seq<u8>, found: Option<usize>) -> bool {
    match found {
        Some(at) => occurs_at(needle, haystack, at as int) && forall|k: int|
            0 <= k < at ==> !occurs_at(needle, haystack, k),
        None => forall|k: int| !occurs_at(needle, haystack, k),
    }
}

} // verus!
