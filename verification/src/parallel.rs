//! The search spread over worker threads, on the parallel iterators of
//! `rayon`.

use rayon::iter::{IndexedParallelIterator, ParallelIterator};
use rayon::slice::ParallelSlice;
use vstd::prelude::*;
use crate::laws::{lemma_exact_search_is_substring_search, lemma_match_is_local};
use crate::matching::{is_exact, is_leftmost_match, is_some_match, matches_at};
use crate::pattern::Pattern;

verus! {

/// What the worker that takes the window at `offset` reports: the offset if
/// the window matches, nothing if it does not.
pub open spec fn report_at(pat: Seq<Option<u8>>, buf: Seq<u8>, offset: int) -> Option<usize> {
    if matches_at(pat, buf.subrange(offset, offset + pat.len()), 0) {
        Some(offset as usize)
    } else {
        None
    }
}

impl<const SIZE: usize> Pattern<SIZE> {
    /// Probes one window for the worker that took it.
    fn probe_window(&self, offset: usize, window: &[u8]) -> (report: Option<usize>)
        ensures
            report == (if matches_at(self@, window@, 0) {
                Some(offset)
            } else {
                None
            }),
    {
        if self.matches_window(window) {
            Some(offset)
        } else {
            None
        }
    }

    /// Whether a worker's report is a match.
    fn is_hit(report: &Option<usize>) -> (hit: bool)
        ensures
            hit == (report is Some),
    {
        report.is_some()
    }

    /// `par_windows`, `enumerate`, `map` and `find_any` of `rayon`: every
    /// window of `width` bytes is paired with its offset and probed by
    /// [`Pattern::probe_window`], on whatever thread takes it. What comes
    /// back is the report of some window whose report is a hit; which one,
    /// where several hit, is not fixed. `None` comes back only if every
    /// window was probed and none hit. A width of zero makes `rayon` panic.
    #[verifier::external_body]
    fn find_any_window(&self, bytes: &[u8], width: usize) -> (found: Option<Option<usize>>)
        requires
            width == self@.len(),
            width >= 1,
        ensures
            match found {
                Some(report) => report is Some && exists|k: int|
                    0 <= k <= bytes@.len() - width && report == #[trigger] report_at(
                        self@,
                        bytes@,
                        k,
                    ),
                None => forall|k: int|
                    0 <= k <= bytes@.len() - width ==> #[trigger] report_at(self@, bytes@, k)
                        is None,
            },
    {
        bytes.par_windows(width).enumerate().map(
            |(offset, window)| self.probe_window(offset, window),
        ).find_any(|report| Self::is_hit(report))
    }

    /// Finds an offset at which the pattern matches `bytes`, probing the
    /// windows on several threads at once. Where the pattern matches at
    /// more than one offset, any of them may be reported.
    ///
    /// A pattern without wildcards is handed to the substring search of
    /// `memchr`, which reports the leftmost match.
    pub fn par_search(&self, bytes: &[u8]) -> (found: Option<usize>)
        ensures
            is_some_match(self@, bytes@, found),
            is_exact(self@) ==> is_leftmost_match(self@, bytes@, found),
            bytes@.len() < self@.len() ==> found is None,
    {
        if self.has_no_wildcards() {
            let found = memchr::memmem::find(bytes, self.needle());
            proof {
                lemma_exact_search_is_substring_search(self@, bytes@, found);
            }
            return found;
        }
        let reported = self.find_any_window(bytes, self.len());
        proof {
            assert(bytes@.len() == bytes.len());
            assert forall|k: int|
                #![trigger report_at(self@, bytes@, k)]
                #![trigger matches_at(self@, bytes@, k)]
                0 <= k <= bytes@.len() - self@.len() implies (report_at(self@, bytes@, k) is Some
                <==> matches_at(self@, bytes@, k)) by {
                lemma_match_is_local(self@, bytes@, k);
            }
        }
        match reported {
            Some(report) => report,
            None => None,
        }
    }
}

} // verus!
