use vstd::prelude::*;

pub mod errors;
pub mod lexer;

verus! {

/// A half-open byte-offset range `[start, end)` locating a token or an error
/// within the source buffer. The scanner only ever produces spans with
/// `start <= end`, non-overlapping and non-decreasing across the output.
#[derive(Debug, Clone, Copy, PartialEq, Eq, Structural)]
pub struct Span {
    pub start: usize,
    pub end: usize,
}

} // verus!
