//! The compiled pattern and its construction from a signature.

use vstd::prelude::*;
use vstd::string::StringSliceAdditionalSpecFns;
use crate::matching::{byte_of, is_exact};
use crate::signature::{
    compile_outcome, compiled, get_pattern_size, group_count, hex_digit, hex_value, is_hex_digit,
    lemma_invalid_token, lemma_missing_separator, lemma_space_runs_monotonic, separated,
    space_runs, token, valid_token, CompileError, QUESTION, SPACE,
};

verus! {

/// Mask value of a position whose byte must match exactly.
pub const EXACT: u8 = 0xFF;

/// Mask value of a position that matches any byte.
pub const WILDCARD: u8 = 0x00;

/// A byte pattern of at most `SIZE` positions.
///
/// `data` holds the byte expected at each position and `mask` says whether
/// the position is exact (`EXACT`, all bits set) or a wildcard (`WILDCARD`,
/// zero). Only the first `len` positions mean anything. A pattern has at
/// least one position, and `data` is zero wherever `mask` is: a window
/// masked by `mask` can so be compared with `data` as it stands.
///
/// A pattern is never changed once it is made, and any number of searches
/// may read it at the same time.
#[derive(Debug)]
pub struct Pattern<const SIZE: usize> {
    data: [u8; SIZE],
    mask: [u8; SIZE],
    len: usize,
    no_wildcards: bool,
}

/// The mask entry that stands for a slot.
pub open spec fn mask_of(slot: Option<u8>) -> u8 {
    if slot is Some {
        EXACT
    } else {
        WILDCARD
    }
}

/// What the scanner holds after it has read `read` bytes of `sig` and
/// found nothing wrong with them. `done` tokens lie behind it, each with
/// the space that follows it.
///
/// A wildcard is written when its first mark is read, a byte when its token
/// ends; so inside a wildcard token one more position is written than
/// tokens are done, and the two digit values wait in `nibbles`.
spec fn scanned(
    sig: Seq<u8>,
    read: int,
    filled: int,
    marks: int,
    written: int,
    nibbles: Seq<u8>,
) -> bool {
    let done = read / 3;
    let first = sig[3 * done];
    let second = sig[3 * done + 1];
    &&& forall|k: int| 0 <= k < done ==> #[trigger] valid_token(sig, k)
    &&& forall|k: int| 0 <= k < done ==> #[trigger] separated(sig, k)
    &&& space_runs(sig, read) == done
    &&& if read % 3 == 0 {
        filled == 0 && marks == 0 && written == done
    } else if first == QUESTION {
        &&& filled == 0 && marks == read % 3 && written == done + 1
        &&& read % 3 == 2 ==> second == QUESTION
    } else {
        &&& marks == 0 && filled == read % 3 && written == done
        &&& is_hex_digit(first) && nibbles[0] == hex_value(first)
        &&& read % 3 == 2 ==> is_hex_digit(second) && nibbles[1] == hex_value(second)
    }
}

impl<const SIZE: usize> View for Pattern<SIZE> {
    type V = Seq<Option<u8>>;

    /// The pattern as a sequence of slots: `Some(b)` where the byte must be
    /// `b`, `None` where any byte will do.
    closed spec fn view(&self) -> Seq<Option<u8>> {
        Seq::new(
            self.len as nat,
            |j: int| if self.mask[j] == WILDCARD { None } else { Some(self.data[j]) },
        )
    }
}

impl<const SIZE: usize> Pattern<SIZE> {
    #[verifier::type_invariant]
    closed spec fn inv(&self) -> bool {
        &&& 1 <= self.len <= SIZE
        &&& forall|j: int|
            0 <= j < self.len ==> (#[trigger] self.mask[j] == EXACT || self.mask[j] == WILDCARD)
        &&& forall|j: int| 0 <= j < self.len && #[trigger] self.mask[j] == WILDCARD ==> self.data[j] == 0
        &&& self.no_wildcards == forall|j: int| 0 <= j < self.len ==> #[trigger] self.mask[j] == EXACT
    }

    /// Compiles a signature such as `FF D8 ?? 03`: two hex digits for a byte
    /// that must match, `??` for a byte that may be anything, one space
    /// between tokens.
    ///
    /// The capacity `SIZE` must exceed the signature's group count, which
    /// [`get_pattern_size`] computes; this is checked before the grammar.
    /// The signature is read byte by byte into the arrays; nothing is
    /// allocated.
    pub fn try_from_str(sus: &str) -> (r: Result<Self, CompileError>)
        ensures
            compile_outcome(sus.spec_bytes(), SIZE as nat) == (match r {
                Ok(p) => Ok(p@),
                Err(e) => Err(e),
            }),
    {
        if SIZE <= get_pattern_size(sus) {
            return Err(CompileError::Capacity);
        }
        let text = sus.as_bytes();
        let mut data = [0u8; SIZE];
        let mut mask = [EXACT; SIZE];
        let mut i: usize = 0;
        let mut written: usize = 0;
        // Values of the hex digits read of the current token, and how many.
        let mut nibbles = [0u8; 2];
        let mut filled: usize = 0;
        // Question marks read of the current token.
        let mut marks: usize = 0;
        let mut no_wildcards = true;
        // Where a wildcard was written, once there is one.
        let ghost mut wild: int = 0;
        while i < text.len()
            invariant
                i <= text.len(),
                text@ == sus.spec_bytes(),
                group_count(text@) < SIZE,
                scanned(text@, i as int, filled as int, marks as int, written as int, nibbles@),
                i / 3 + 1 < SIZE,
                forall|k: int|
                    0 <= k < written ==> #[trigger] mask[k] == mask_of(token(text@, k)),
                forall|k: int| written <= k < SIZE ==> #[trigger] mask[k] == EXACT,
                forall|k: int| 0 <= k < i / 3 ==> #[trigger] data[k] == byte_of(token(text@, k)),
                forall|k: int| i / 3 <= k < SIZE ==> #[trigger] data[k] == 0,
                no_wildcards ==> forall|k: int| 0 <= k < written ==> #[trigger] mask[k] == EXACT,
                !no_wildcards ==> 0 <= wild < written && mask[wild] == WILDCARD,
            decreases text.len() - i,
        {
            let c = text[i];
            if c == SPACE {
                if marks > 0 {
                    if marks != 2 {
                        proof {
                            lemma_invalid_token(text@, i as int / 3);
                        }
                        return Err(CompileError::MalformedSignature);
                    }
                    marks = 0;
                } else {
                    if filled != 2 {
                        proof {
                            lemma_invalid_token(text@, i as int / 3);
                        }
                        return Err(CompileError::MalformedSignature);
                    }
                    data[written] = nibbles[0] * 16 + nibbles[1];
                    written += 1;
                    filled = 0;
                }
            } else if c == QUESTION {
                if filled != 0 || marks >= 2 {
                    proof {
                        if i % 3 == 2 {
                            lemma_missing_separator(text@, i as int / 3);
                        } else {
                            lemma_invalid_token(text@, i as int / 3);
                        }
                    }
                    return Err(CompileError::MalformedSignature);
                }
                if marks == 0 {
                    proof {
                        wild = written as int;
                    }
                    mask[written] = WILDCARD;
                    written += 1;
                    no_wildcards = false;
                }
                marks += 1;
            } else {
                if marks != 0 || filled >= 2 {
                    proof {
                        if i % 3 == 2 {
                            lemma_missing_separator(text@, i as int / 3);
                        } else {
                            lemma_invalid_token(text@, i as int / 3);
                        }
                    }
                    return Err(CompileError::MalformedSignature);
                }
                match hex_digit(c) {
                    Some(v) => {
                        nibbles[filled] = v;
                        filled += 1;
                    },
                    None => {
                        proof {
                            lemma_invalid_token(text@, i as int / 3);
                        }
                        return Err(CompileError::MalformedSignature);
                    },
                }
            }
            i += 1;
            proof {
                lemma_space_runs_monotonic(text@, i as int, text@.len() as int);
            }
        }
        // The end of the signature ends the last token.
        if marks > 0 {
            if marks != 2 {
                return Err(CompileError::MalformedSignature);
            }
        } else {
            if filled != 2 {
                return Err(CompileError::MalformedSignature);
            }
            data[written] = nibbles[0] * 16 + nibbles[1];
            written += 1;
        }
        proof {
            let q = Pattern::<SIZE> { data, mask, len: written, no_wildcards };
            assert(!no_wildcards ==> q.mask[wild] == WILDCARD);
        }
        let p = Pattern { data, mask, len: written, no_wildcards };
        proof {
            assert(p@ =~= compiled(text@));
        }
        Ok(p)
    }

    /// Compiles a signature that is known to compile: one that
    /// [`Pattern::try_from_str`] accepts for this capacity.
    pub fn from_str(sus: &str) -> (p: Self)
        requires
            compile_outcome(sus.spec_bytes(), SIZE as nat) is Ok,
        ensures
            p@ == compiled(sus.spec_bytes()),
    {
        match Self::try_from_str(sus) {
            Ok(p) => p,
            Err(_) => vstd::pervasive::unreached(),
        }
    }

    /// Number of positions of the pattern: its logical length.
    pub fn len(&self) -> (n: usize)
        ensures
            n == self@.len(),
            1 <= n <= SIZE,
    {
        proof {
            use_type_invariant(self);
        }
        self.len
    }

    /// Whether every position is exact.
    pub fn has_no_wildcards(&self) -> (b: bool)
        ensures
            b == is_exact(self@),
    {
        proof {
            use_type_invariant(self);
            if self.no_wildcards {
                assert(is_exact(self@));
            } else {
                let j = choose|j: int| 0 <= j < self.len && self.mask[j] != EXACT;
                assert(self@[j] is None);
            }
        }
        self.no_wildcards
    }

    /// The expected bytes. Below the logical length a wildcard position
    /// holds zero; positions at or above it are unused.
    pub fn data(&self) -> (d: &[u8; SIZE])
        ensures
            forall|j: int| 0 <= j < self@.len() ==> #[trigger] d[j] == byte_of(self@[j]),
    {
        proof {
            use_type_invariant(self);
        }
        &self.data
    }

    /// The mask. Below the logical length each entry is `EXACT` or
    /// `WILDCARD`; positions at or above it are unused.
    pub fn mask(&self) -> (m: &[u8; SIZE])
        ensures
            forall|j: int| 0 <= j < self@.len() ==> #[trigger] m[j] == mask_of(self@[j]),
    {
        proof {
            use_type_invariant(self);
        }
        &self.mask
    }
}

} // verus!
