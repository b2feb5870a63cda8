//! Plain-value forms of the protocol's position types.
use vstd::prelude::*;

verus! {

/// A zero-based line and UTF-16 column in a text document.
#[derive(Debug, Clone, Copy, PartialEq, Eq, Structural)]
pub struct Position {
    pub line: u32,
    pub character: u32,
}

/// A range between two positions.
#[derive(Debug, Clone, Copy, PartialEq, Eq, Structural)]
pub struct Range {
    pub start: Position,
    pub end: Position,
}

/// `a` comes strictly before `b` (line first, then column).
pub open spec fn pos_before(a: Position, b: Position) -> bool {
    a.line < b.line || (a.line == b.line && a.character < b.character)
}

/// A range of a document.
pub struct Location {
    pub uri: String,
    pub range: Range,
}

/// The document and range of a location.
pub open spec fn location_view(l: Location) -> (Seq<char>, Range) {
    (l.uri@, l.range)
}

/// The documents and ranges of `ls`.
pub open spec fn locations_view(ls: Seq<Location>) -> Seq<(Seq<char>, Range)> {
    ls.map_values(|l: Location| location_view(l))
}

} // verus!
