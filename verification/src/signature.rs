//! The textual form of a pattern: its grammar and what it compiles to.

use vstd::prelude::*;
use vstd::string::StringSliceAdditionalSpecFns;

verus! {

/// The byte that separates two tokens.
pub const SPACE: u8 = 0x20;

/// The byte that a wildcard token is made of.
pub const QUESTION: u8 = 0x3F;

/// Whether `c` is one of `0`-`9`, `A`-`F`, `a`-`f`.
pub open spec fn is_hex_digit(c: u8) -> bool {
    (0x30 <= c <= 0x39) || (0x41 <= c <= 0x46) || (0x61 <= c <= 0x66)
}

/// The number that the hex digit `c` stands for.
pub open spec fn hex_value(c: u8) -> int
    recommends
        is_hex_digit(c),
{
    if c <= 0x39 {
        c - 0x30
    } else if c <= 0x46 {
        c - 0x41 + 10
    } else {
        c - 0x61 + 10
    }
}

/// Number of tokens in a signature of this length: each token takes two
/// bytes, and one space stands between two tokens.
pub open spec fn token_count(sig: Seq<u8>) -> nat {
    (sig.len() + 1) / 3
}

/// The two bytes at the place of token `t` are `??` or two hex digits.
pub open spec fn valid_token(sig: Seq<u8>, t: int) -> bool {
    let first = sig[3 * t];
    let second = sig[3 * t + 1];
    (first == QUESTION && second == QUESTION) || (is_hex_digit(first) && is_hex_digit(second))
}

/// The byte after token `t` is a space.
pub open spec fn separated(sig: Seq<u8>, t: int) -> bool {
    sig[3 * t + 2] == SPACE
}

/// The grammar of signatures: one or more tokens, each `??` or two hex
/// digits, with exactly one space between neighbours and nothing else.
pub open spec fn well_formed(sig: Seq<u8>) -> bool {
    &&& sig.len() % 3 == 2
    &&& forall|t: int| 0 <= t < token_count(sig) ==> #[trigger] valid_token(sig, t)
    &&& forall|t: int| 0 <= t < token_count(sig) - 1 ==> #[trigger] separated(sig, t)
}

/// What token `t` asks of a byte: `None` for `??`, else the byte that the
/// two hex digits spell.
pub open spec fn token(sig: Seq<u8>, t: int) -> Option<u8> {
    if sig[3 * t] == QUESTION {
        None
    } else {
        Some((16 * hex_value(sig[3 * t]) + hex_value(sig[3 * t + 1])) as u8)
    }
}

/// The pattern that a well-formed signature denotes, token by token.
pub open spec fn compiled(sig: Seq<u8>) -> Seq<Option<u8>> {
    Seq::new(token_count(sig), |t: int| token(sig, t))
}

/// The upper-case hex digit that stands for `v`, a number below sixteen.
pub open spec fn hex_char(v: int) -> u8
    recommends
        0 <= v < 16,
{
    if v < 10 {
        (0x30 + v) as u8
    } else {
        (0x41 + v - 10) as u8
    }
}

/// `c`, with a lower-case hex letter turned into its upper case.
pub open spec fn upper_hex(c: u8) -> u8 {
    if 0x61 <= c <= 0x66 {
        (c - 0x20) as u8
    } else {
        c
    }
}

/// The bytes written out as a signature: two upper-case hex digits for
/// each, and a space between neighbours.
pub open spec fn hex_rendering(bytes: Seq<u8>) -> Seq<u8> {
    if bytes.len() == 0 {
        Seq::empty()
    } else {
        Seq::new(
            (3 * bytes.len() - 1) as nat,
            |k: int|
                if k % 3 == 0 {
                    hex_char(bytes[k / 3] as int / 16)
                } else if k % 3 == 1 {
                    hex_char(bytes[k / 3] as int % 16)
                } else {
                    SPACE
                },
        )
    }
}

/// Why a signature was not compiled.
#[derive(Debug, Clone, Copy, PartialEq, Eq)]
pub enum CompileError {
    /// The declared capacity does not exceed the signature's group count.
    Capacity,
    /// The signature is not a sequence of `??` and two-digit hex tokens
    /// with single spaces between them.
    MalformedSignature,
}

/// What compiling `sig` into a pattern of the given capacity gives. The
/// capacity is looked at first, then the grammar.
pub open spec fn compile_outcome(sig: Seq<u8>, capacity: nat) -> Result<
    Seq<Option<u8>>,
    CompileError,
> {
    if capacity <= group_count(sig) {
        Err(CompileError::Capacity)
    } else if !well_formed(sig) {
        Err(CompileError::MalformedSignature)
    } else {
        Ok(compiled(sig))
    }
}

/// Number of positions below `upto` at which a run of spaces begins.
pub open spec fn space_runs(sig: Seq<u8>, upto: int) -> nat
    decreases upto,
{
    if upto <= 0 {
        0
    } else {
        let here: nat = if sig[upto - 1] == SPACE && (upto == 1 || sig[upto - 2] != SPACE) {
            1
        } else {
            0
        };
        space_runs(sig, upto - 1) + here
    }
}

/// Number of space-delimited groups in `sig`: one more than the number of
/// runs of spaces. A pattern built from `sig` needs a capacity above it.
pub open spec fn group_count(sig: Seq<u8>) -> nat {
    space_runs(sig, sig.len() as int) + 1
}

/// Two runs of spaces have a byte between them that is no space, so `upto`
/// bytes hold at most `(upto + 1) / 2` runs.
pub proof fn lemma_space_runs_bound(sig: Seq<u8>, upto: int)
    requires
        0 <= upto <= sig.len(),
    ensures
        2 * space_runs(sig, upto) <= upto + 1,
        upto > 0 && sig[upto - 1] != SPACE ==> 2 * space_runs(sig, upto) <= upto,
    decreases upto,
{
    if upto > 0 {
        lemma_space_runs_bound(sig, upto - 1);
        if upto > 1 {
            lemma_space_runs_bound(sig, upto - 2);
        }
    }
}

/// The count grows with the prefix.
pub proof fn lemma_space_runs_monotonic(sig: Seq<u8>, lo: int, hi: int)
    requires
        lo <= hi,
    ensures
        space_runs(sig, lo) <= space_runs(sig, hi),
    decreases hi - lo,
{
    if lo < hi {
        lemma_space_runs_monotonic(sig, lo, hi - 1);
    }
}

/// In a well-formed signature every group is a token: the group count is
/// the token count, and so the length of the compiled pattern.
pub proof fn lemma_groups_are_tokens(sig: Seq<u8>)
    requires
        well_formed(sig),
    ensures
        group_count(sig) == token_count(sig),
        group_count(sig) == compiled(sig).len(),
{
    lemma_space_runs_of_tokens(sig, sig.len() as int);
}

/// In a well-formed signature the runs of spaces below `upto` are the
/// single spaces that follow the tokens.
proof fn lemma_space_runs_of_tokens(sig: Seq<u8>, upto: int)
    requires
        well_formed(sig),
        0 <= upto <= sig.len(),
    ensures
        space_runs(sig, upto) == upto / 3,
    decreases upto,
{
    if upto > 0 {
        lemma_space_runs_of_tokens(sig, upto - 1);
        let k = upto - 1;
        assert(valid_token(sig, k / 3));
        if k % 3 == 2 {
            assert(separated(sig, k / 3));
        }
    }
}

/// A signature that reaches token `t` and holds there neither `??` nor two
/// hex digits is not well formed.
pub proof fn lemma_invalid_token(sig: Seq<u8>, t: int)
    requires
        0 <= t,
        3 * t < sig.len(),
        !valid_token(sig, t),
    ensures
        !well_formed(sig),
{
    if sig.len() % 3 == 2 {
        assert(t < token_count(sig));
    }
}

/// A signature that goes on after token `t` with anything but a space is
/// not well formed.
pub proof fn lemma_missing_separator(sig: Seq<u8>, t: int)
    requires
        0 <= t,
        3 * t + 2 < sig.len(),
        !separated(sig, t),
    ensures
        !well_formed(sig),
{
    if sig.len() % 3 == 2 {
        assert(t < token_count(sig) - 1);
    }
}

/// Decodes one hex digit, of either case.
pub fn hex_digit(c: u8) -> (r: Option<u8>)
    ensures
        match r {
            Some(v) => is_hex_digit(c) && v == hex_value(c),
            None => !is_hex_digit(c),
        },
{
    if 0x30 <= c && c <= 0x39 {
        Some(c - 0x30)
    } else if 0x41 <= c && c <= 0x46 {
        Some(c - 0x41 + 10)
    } else if 0x61 <= c && c <= 0x66 {
        Some(c - 0x61 + 10)
    } else {
        None
    }
}

/// Counts the space-delimited groups of a signature. A `Pattern` compiled
/// from `pattern` needs a capacity greater than the result.
pub fn get_pattern_size(pattern: &str) -> (n: usize)
    ensures
        n == group_count(pattern.spec_bytes()),
{
    let chars = pattern.as_bytes();
    let mut i: usize = 0;
    let mut non_whitespace = true;
    let mut pattern_len: usize = 0;
    while i < chars.len()
        invariant
            i <= chars.len(),
            chars@ == pattern.spec_bytes(),
            pattern_len == space_runs(chars@, i as int),
            non_whitespace == (i == 0 || chars@[i - 1] != SPACE),
        decreases chars.len() - i,
    {
        proof {
            lemma_space_runs_bound(chars@, i as int);
        }
        if chars[i] == SPACE && non_whitespace {
            pattern_len += 1;
            non_whitespace = false;
        } else if chars[i] != SPACE {
            non_whitespace = true;
        }
        i += 1;
    }
    proof {
        lemma_space_runs_bound(chars@, i as int);
    }
    pattern_len + 1
}

} // verus!
