use vstd::prelude::*;

verus! {

/// An immutable source range, kept as byte offsets into the source text.
/// Spans are attached to declarations when the parser builds the tree and
/// are cited by diagnostics.
#[derive(Clone, Copy, Debug, PartialEq, Eq, Structural)]
pub struct Span {
    pub start: usize,
    pub end: usize,
}

impl Span {
    pub fn new(start: usize, end: usize) -> (r: Span)
        ensures
            r == (Span { start, end }),
    {
        Span { start, end }
    }
}

} // verus!
