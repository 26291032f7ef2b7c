//! Source positions and the ranges between them.

use vstd::prelude::*;

verus! {

/// A position in the source text.
///
/// `offset` counts bytes of the UTF-8 encoding; `line` and `column` count from
/// one, and `column` counts characters. The all-zero value stands for a
/// position that was never set.
#[derive(Debug, Clone, Copy, PartialEq, Eq, Structural)]
pub struct Location {
    pub offset: usize,
    pub line: usize,
    pub column: usize,
}

impl Default for Location {
    fn default() -> (loc: Self)
        ensures
            loc == Location::unset(),
    {
        Location { offset: 0, line: 0, column: 0 }
    }
}

impl Location {
    /// The location that stands for "no position".
    pub open spec fn unset() -> Location {
        Location { offset: 0, line: 0, column: 0 }
    }
}

/// The half-open range of source text between two locations: `end` is the
/// location just after the last character of the range.
#[derive(Debug, Clone, Copy, PartialEq, Eq, Structural)]
pub struct Span {
    pub start: Location,
    pub end: Location,
}

impl Default for Span {
    fn default() -> (span: Self)
        ensures
            span == Span::unset(),
    {
        Span { start: Location::default(), end: Location::default() }
    }
}

impl Span {
    /// The span that stands for "no range", used for tokens that do not come
    /// from the source text.
    pub open spec fn unset() -> Span {
        Span { start: Location::unset(), end: Location::unset() }
    }
}

} // verus!
