//! Fixed-capacity byte patterns with wildcards, and three ways to find them.
//!
//! A signature such as `FF D8 ?? 03` is compiled into a [`Pattern`]: an
//! array of bytes, an array of masks and a length, with no allocation. A
//! compiled pattern is then looked for in a byte buffer by a linear scan
//! ([`Pattern::search`]), by a scan that compares sixteen bytes at a time
//! ([`Pattern::simd_search`]), or by a scan that is spread over worker
//! threads ([`Pattern::par_search`]).
//!
//! What a signature means is defined in [`signature`], what a match is in
//! [`matching`]; every function states its result over those two, and
//! [`laws`] holds what follows from them for all patterns and buffers.

pub mod laws;
pub mod matching;
pub mod parallel;
pub mod pattern;
pub mod search;
pub mod signature;
pub mod simd;

pub use pattern::Pattern;
pub use signature::get_pattern_size;
pub use signature::CompileError;
