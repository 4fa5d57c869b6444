use vstd::prelude::*;

verus! {

/// A position in a source text.
#[derive(Clone, Copy, Debug, PartialEq, Eq, Structural)]
pub struct Span {
    pub line: usize,
    pub column: usize,
}

/// An interface error: what is wrong, and where.
#[derive(Debug)]
pub struct Error {
    pub span: Span,
    pub message: String,
}

} // verus!
