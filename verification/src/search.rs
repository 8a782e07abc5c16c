//! The linear search and the comparison of one window.

use vstd::prelude::*;
use vstd::slice::slice_subrange;
use crate::laws::{lemma_exact_search_is_substring_search, lemma_match_is_local};
use crate::matching::{
    byte_of, is_first_occurrence, is_leftmost_match, matches_at, slot_accepts, stored_bytes,
};
use crate::pattern::{mask_of, Pattern, WILDCARD};

verus! {

/// `memchr::memmem::find` returns the offset of the first occurrence of
/// `needle` in `haystack`, or `None` where it does not occur. The empty
/// needle occurs at every offset, so it is found at zero.
pub assume_specification[ memchr::memmem::find ](haystack: &[u8], needle: &[u8]) -> (found:
    Option<usize>)
    ensures
        is_first_occurrence(needle@, haystack@, found),
;

impl<const SIZE: usize> Pattern<SIZE> {
    /// Compares the positions of the pattern from `from` on with the bytes
    /// of `window` under them, one by one: a wildcard position is skipped,
    /// and the first exact position that differs ends the comparison.
    pub(crate) fn positions_match(&self, window: &[u8], from: usize) -> (accepted: bool)
        requires
            from <= self@.len() <= window@.len(),
        ensures
            accepted == forall|j: int|
                from <= j < self@.len() ==> slot_accepts(#[trigger] self@[j], window@[j]),
    {
        let n = self.len();
        let data = self.data();
        let mask = self.mask();
        let mut index: usize = from;
        while index < n
            invariant
                from <= index <= n,
                n == self@.len(),
                n <= SIZE,
                n <= window@.len(),
                forall|j: int| 0 <= j < n ==> #[trigger] data[j] == byte_of(self@[j]),
                forall|j: int| 0 <= j < n ==> #[trigger] mask[j] == mask_of(self@[j]),
                forall|j: int| from <= j < index ==> slot_accepts(#[trigger] self@[j], window@[j]),
            decreases n - index,
        {
            if mask[index] != WILDCARD {
                if data[index] != window[index] {
                    return false;
                }
            }
            index += 1;
        }
        true
    }

    /// Compares one window with the pattern, position by position. A
    /// window shorter than the pattern is rejected; of a longer one only
    /// the front is compared.
    pub fn matches_window(&self, window: &[u8]) -> (accepted: bool)
        ensures
            accepted == matches_at(self@, window@, 0),
    {
        window.len() >= self.len() && self.positions_match(window, 0)
    }

    /// The bytes of the pattern as a needle for a substring search.
    pub(crate) fn needle(&self) -> (needle: &[u8])
        ensures
            needle@ == stored_bytes(self@),
    {
        let needle = slice_subrange(self.data().as_slice(), 0, self.len());
        proof {
            assert(needle@ =~= stored_bytes(self@));
        }
        needle
    }

    /// Finds the leftmost offset at which the pattern matches `bytes`.
    ///
    /// A pattern without wildcards is handed to the substring search of
    /// `memchr`; any other is slid over `bytes` from offset zero upward.
    pub fn search(&self, bytes: &[u8]) -> (found: Option<usize>)
        ensures
            is_leftmost_match(self@, bytes@, found),
            bytes@.len() < self@.len() ==> found is None,
    {
        if self.has_no_wildcards() {
            let found = memchr::memmem::find(bytes, self.needle());
            proof {
                lemma_exact_search_is_substring_search(self@, bytes@, found);
            }
            return found;
        }
        let n = self.len();
        let total = bytes.len();
        if total < n {
            return None;
        }
        let last = total - n;
        let mut i: usize = 0;
        while i <= last
            invariant
                n == self@.len(),
                1 <= n <= total,
                total == bytes@.len(),
                last == total - n,
                i <= last + 1,
                forall|k: int| 0 <= k < i ==> !matches_at(self@, bytes@, k),
            decreases last + 1 - i,
        {
            let window = slice_subrange(bytes, i, i + n);
            proof {
                lemma_match_is_local(self@, bytes@, i as int);
            }
            if self.matches_window(window) {
                return Some(i);
            }
            i += 1;
        }
        None
    }
}

} // verus!
