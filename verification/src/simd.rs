//! The search in 16-byte chunks, on the vectors of `wide`.

use vstd::prelude::*;
use vstd::slice::slice_subrange;
use crate::laws::{lemma_exact_search_is_substring_search, lemma_match_is_local};
use crate::matching::{byte_of, is_leftmost_match, matches_at, slot_accepts};
use crate::pattern::{mask_of, Pattern};

verus! {

/// Number of bytes that one vector holds.
pub const LANES: usize = 16;

/// `wide::u8x16`: sixteen bytes that are combined and compared at once.
#[verifier::external_type_specification]
#[verifier::external_body]
pub struct ExU8x16(wide::u8x16);

/// The sixteen bytes that a vector holds, in the order of the array that it
/// was made from.
pub uninterp spec fn lanes(v: wide::u8x16) -> Seq<u8>;

/// `wide::u8x16::new` reinterprets the array as a vector: lane `l` holds
/// the array's element `l`.
pub assume_specification[ wide::u8x16::new ](array: [u8; 16]) -> (v: wide::u8x16)
    ensures
        lanes(v) == array@,
;

/// `&` on `wide::u8x16` (its `BitAnd`): each lane of the result is the
/// bitwise and of the two lanes under it.
#[verifier::external_body]
fn lanes_and(a: wide::u8x16, b: wide::u8x16) -> (both: wide::u8x16)
    ensures
        lanes(both).len() == LANES,
        forall|l: int| 0 <= l < LANES ==> #[trigger] lanes(both)[l] == lanes(a)[l] & lanes(b)[l],
{
    a & b
}

/// `!=` on `wide::u8x16` (its `PartialEq`): two vectors differ exactly if
/// some lane differs.
#[verifier::external_body]
fn lanes_differ(a: wide::u8x16, b: wide::u8x16) -> (differ: bool)
    ensures
        differ == (lanes(a) != lanes(b)),
{
    a != b
}

/// Copies the sixteen bytes of `src` that start at `start`.
fn load_chunk(src: &[u8], start: usize) -> (chunk: [u8; 16])
    requires
        start + LANES <= src@.len(),
    ensures
        chunk@ == src@.subrange(start as int, start + LANES),
{
    let mut chunk = [0u8; 16];
    let mut l: usize = 0;
    while l < LANES
        invariant
            l <= LANES,
            start + LANES <= src.len(),
            forall|k: int| 0 <= k < l ==> chunk[k] == src@[start + k],
        decreases LANES - l,
    {
        chunk[l] = src[start + l];
        l += 1;
    }
    proof {
        assert(chunk@ =~= src@.subrange(start as int, start + LANES));
    }
    chunk
}

/// A masked byte equals the stored byte of a slot exactly if the slot
/// accepts the byte: an exact slot keeps the byte as it is, and a wildcard
/// turns it into the zero that is stored for it.
proof fn lemma_masked_byte(slot: Option<u8>, byte: u8)
    ensures
        (byte & mask_of(slot) == byte_of(slot)) <==> slot_accepts(slot, byte),
{
    assert(byte & 0xFF == byte) by (bit_vector);
    assert(byte & 0x00 == 0) by (bit_vector);
}

impl<const SIZE: usize> Pattern<SIZE> {
    /// Compares one window with the pattern, sixteen positions at a time:
    /// each full chunk of the window is masked and compared as a whole with
    /// the pattern's chunk, which holds zero under a wildcard as the masked
    /// window does. The positions that are left over are compared one by
    /// one. Accepts exactly the windows that [`Pattern::matches_window`]
    /// accepts.
    pub fn matches_window_chunked(&self, window: &[u8]) -> (accepted: bool)
        ensures
            accepted == matches_at(self@, window@, 0),
    {
        let n = self.len();
        if window.len() < n {
            return false;
        }
        let data = self.data();
        let mask = self.mask();
        let full = n / LANES;
        let mut chunk_index: usize = 0;
        while chunk_index < full
            invariant
                chunk_index <= full,
                full == n / LANES,
                n == self@.len(),
                n <= SIZE,
                n <= window@.len(),
                forall|j: int| 0 <= j < n ==> #[trigger] data[j] == byte_of(self@[j]),
                forall|j: int| 0 <= j < n ==> #[trigger] mask[j] == mask_of(self@[j]),
                forall|j: int|
                    0 <= j < chunk_index * LANES ==> slot_accepts(#[trigger] self@[j], window@[j]),
            decreases full - chunk_index,
        {
            let start = chunk_index * LANES;
            let chunk = wide::u8x16::new(load_chunk(window, start));
            let pattern_chunk = wide::u8x16::new(load_chunk(data.as_slice(), start));
            let mask_chunk = wide::u8x16::new(load_chunk(mask.as_slice(), start));
            let masked = lanes_and(chunk, mask_chunk);
            if lanes_differ(masked, pattern_chunk) {
                proof {
                    if forall|l: int| 0 <= l < LANES ==> lanes(masked)[l] == lanes(pattern_chunk)[l] {
                        assert(lanes(masked) =~= lanes(pattern_chunk));
                    }
                    let l = choose|l: int|
                        0 <= l < LANES && lanes(masked)[l] != lanes(pattern_chunk)[l];
                    let j = start + l;
                    lemma_masked_byte(self@[j], window@[j]);
                    assert(data[j] == byte_of(self@[j]) && mask[j] == mask_of(self@[j]));
                }
                return false;
            }
            proof {
                assert forall|j: int| start <= j < start + LANES implies slot_accepts(
                    #[trigger] self@[j],
                    window@[j],
                ) by {
                    assert(lanes(masked)[j - start] == lanes(pattern_chunk)[j - start]);
                    assert(data[j] == byte_of(self@[j]) && mask[j] == mask_of(self@[j]));
                    lemma_masked_byte(self@[j], window@[j]);
                }
            }
            chunk_index += 1;
        }
        self.positions_match(window, full * LANES)
    }

    /// Finds the leftmost offset at which the pattern matches `bytes`,
    /// comparing each window in 16-byte chunks.
    ///
    /// A pattern without wildcards is handed to the substring search of
    /// `memchr`. A pattern shorter than one chunk is compared position by
    /// position.
    pub fn simd_search(&self, bytes: &[u8]) -> (found: Option<usize>)
        ensures
            is_leftmost_match(self@, bytes@, found),
            bytes@.len() < self@.len() ==> found is None,
    {
        if self.has_no_wildcards() {
            let found = memchr::memmem::find(bytes, self.needle());
            proof {
                lemma_exact_search_is_substring_search(self@, bytes@, found);
            }
            return found;
        }
        let n = self.len();
        let total = bytes.len();
        if total < n {
            return None;
        }
        let last = total - n;
        let mut i: usize = 0;
        while i <= last
            invariant
                n == self@.len(),
                1 <= n <= total,
                total == bytes@.len(),
                last == total - n,
                i <= last + 1,
                forall|k: int| 0 <= k < i ==> !matches_at(self@, bytes@, k),
            decreases last + 1 - i,
        {
            let window = slice_subrange(bytes, i, i + n);
            proof {
                lemma_match_is_local(self@, bytes@, i as int);
            }
            if self.matches_window_chunked(window) {
                return Some(i);
            }
            i += 1;
        }
        None
    }
}

} // verus!
