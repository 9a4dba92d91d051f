//! An interpreter for a small statement-oriented esoteric language:
//! conditionals, unconditional loops with break/restart, subroutines with
//! captured scopes, a three-valued boolean, ordered associative literals,
//! permanent identifier bans, and an embedded tape virtual machine reached
//! through foreign-function definitions.

use vstd::prelude::*;

pub mod ast;
pub mod brian;
pub mod eq;
pub mod error;
pub mod interpret;
pub mod parser;
pub mod tokens;
pub mod variables;

verus! {

/// A half-open region of the original source text, kept on every syntax
/// node purely as diagnostic provenance; it never takes part in equality.
#[derive(Debug, Clone, Copy, PartialEq, Eq, Structural)]
pub struct Span {
    pub start: usize,
    pub end: usize,
}

impl Span {
    pub fn new(start: usize, end: usize) -> (s: Span)
        ensures
            s.start == start,
            s.end == end,
    {
        Span { start, end }
    }
}

} // verus!
