//! Lexical analyzer for a small Pascal-like teaching language.
//!
//! The scanner turns source text into a sequence of span-tagged tokens,
//! preserving trivia (whitespace, newlines, comments) so the original input
//! can be reconstructed byte-for-byte, and accumulates structured diagnostics
//! for malformed input instead of aborting the scan.

pub mod diagnostics;
pub mod laws;
pub mod lexer;
pub mod render;
pub mod model;
pub mod token;

use vstd::prelude::*;

verus! {

} // verus!
