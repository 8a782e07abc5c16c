//! Laws of matching: facts that hold of every pattern and every buffer.

use vstd::prelude::*;
use crate::matching::{
    is_exact, is_first_occurrence, is_leftmost_match, is_some_match, matches_at, occurs_at,
    slot_accepts, stored_bytes,
};
use crate::signature::{
    compiled, hex_rendering, separated, token_count, upper_hex, valid_token, well_formed,
};

verus! {

/// Compiling loses nothing but the case of the hex letters: a signature
/// without wildcards, compiled and written out again as hex with spaces,
/// is the signature itself in upper case.
pub proof fn lemma_compile_then_render(sig: Seq<u8>)
    requires
        well_formed(sig),
        is_exact(compiled(sig)),
    ensures
        hex_rendering(stored_bytes(compiled(sig))) == sig.map_values(|c: u8| upper_hex(c)),
{
    let bytes = stored_bytes(compiled(sig));
    let rendered = hex_rendering(bytes);
    let upper = sig.map_values(|c: u8| upper_hex(c));
    assert(bytes.len() == token_count(sig));
    assert(rendered.len() == sig.len());
    assert forall|k: int| 0 <= k < sig.len() implies rendered[k] == upper[k] by {
        let t = k / 3;
        assert(valid_token(sig, t));
        assert(compiled(sig)[t] is Some);
        if k % 3 == 2 {
            assert(separated(sig, t));
        }
    }
    assert(rendered =~= upper);
}

/// Whether a window matches depends on the window alone: the pattern matches
/// `buf` at `at` exactly if it matches, at offset zero, the window cut out
/// of `buf` there.
pub proof fn lemma_match_is_local(pat: Seq<Option<u8>>, buf: Seq<u8>, at: int)
    requires
        0 <= at,
        at + pat.len() <= buf.len(),
    ensures
        matches_at(pat, buf, at) <==> matches_at(pat, buf.subrange(at, at + pat.len()), 0),
{
    let window = buf.subrange(at, at + pat.len());
    assert forall|j: int| 0 <= j < pat.len() implies #[trigger] window[j] == buf[at + j] by {}
}

/// A wildcard is transparent: changing the buffer byte that lies under a
/// wildcard slot never changes whether the pattern matches at that offset.
pub proof fn lemma_wildcard_transparent(
    pat: Seq<Option<u8>>,
    buf: Seq<u8>,
    at: int,
    slot: int,
    byte: u8,
)
    requires
        0 <= slot < pat.len(),
        pat[slot] is None,
        0 <= at + slot < buf.len(),
    ensures
        matches_at(pat, buf.update(at + slot, byte), at) == matches_at(pat, buf, at),
{
    let changed = buf.update(at + slot, byte);
    if 0 <= at && at + pat.len() <= buf.len() {
        assert forall|j: int| 0 <= j < pat.len() implies slot_accepts(
            #[trigger] pat[j],
            changed[at + j],
        ) == slot_accepts(pat[j], buf[at + j]) by {
            if j != slot {
                assert(changed[at + j] == buf[at + j]);
            }
        }
    }
}

/// The leftmost match is unique: two searches that both report the leftmost
/// match of one pattern in one buffer report the same thing. The linear and
/// the chunked search therefore agree on every input.
pub proof fn lemma_leftmost_match_unique(
    pat: Seq<Option<u8>>,
    buf: Seq<u8>,
    first: Option<usize>,
    second: Option<usize>,
)
    requires
        is_leftmost_match(pat, buf, first),
        is_leftmost_match(pat, buf, second),
    ensures
        first == second,
{
}

/// The leftmost match is a match: what a search for the leftmost match may
/// report, a search for any match may report too.
pub proof fn lemma_leftmost_is_some_match(
    pat: Seq<Option<u8>>,
    buf: Seq<u8>,
    found: Option<usize>,
)
    requires
        is_leftmost_match(pat, buf, found),
    ensures
        is_some_match(pat, buf, found),
{
}

/// A search for any match finds something exactly if a search for the
/// leftmost match does, and never anything to the left of it.
pub proof fn lemma_some_match_not_before_leftmost(
    pat: Seq<Option<u8>>,
    buf: Seq<u8>,
    leftmost: Option<usize>,
    any: Option<usize>,
)
    requires
        is_leftmost_match(pat, buf, leftmost),
        is_some_match(pat, buf, any),
    ensures
        leftmost is Some <==> any is Some,
        leftmost is Some ==> leftmost->0 <= any->0,
{
}

/// A buffer shorter than the pattern holds no match, so a search of
/// either kind reports `None` on it.
pub proof fn lemma_short_buffer_has_no_match(
    pat: Seq<Option<u8>>,
    buf: Seq<u8>,
    found: Option<usize>,
)
    requires
        buf.len() < pat.len(),
        is_some_match(pat, buf, found),
    ensures
        forall|k: int| !matches_at(pat, buf, k),
        found is None,
{
}

/// For a pattern without wildcards, matching at an offset is the same as
/// the stored bytes occurring there.
pub proof fn lemma_exact_match_is_occurrence(pat: Seq<Option<u8>>, buf: Seq<u8>, at: int)
    requires
        is_exact(pat),
    ensures
        matches_at(pat, buf, at) <==> occurs_at(stored_bytes(pat), buf, at),
{
    let needle = stored_bytes(pat);
    if 0 <= at && at + pat.len() <= buf.len() {
        let window = buf.subrange(at, at + pat.len());
        assert forall|j: int| 0 <= j < pat.len() implies (slot_accepts(#[trigger] pat[j], buf[at + j])
            <==> window[j] == needle[j]) by {}
        if matches_at(pat, buf, at) {
            assert(window =~= needle);
        }
    }
}

/// For a pattern without wildcards, the leftmost match is the first
/// occurrence of its stored bytes: searching for the pattern and searching
/// for the bytes as a substring give the same answer.
pub proof fn lemma_exact_search_is_substring_search(
    pat: Seq<Option<u8>>,
    buf: Seq<u8>,
    found: Option<usize>,
)
    requires
        is_exact(pat),
    ensures
        is_leftmost_match(pat, buf, found) <==> is_first_occurrence(stored_bytes(pat), buf, found),
{
    assert forall|k: int|
        #![trigger matches_at(pat, buf, k)]
        #![trigger occurs_at(stored_bytes(pat), buf, k)]
        matches_at(pat, buf, k) <==> occurs_at(stored_bytes(pat), buf, k) by {
        lemma_exact_match_is_occurrence(pat, buf, k);
    }
}

} // verus!
