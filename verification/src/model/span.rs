//! Source ranges.
use vstd::prelude::*;

use crate::lsp::{Position, Range};

verus! {

/// A range in a document: start and end line and column, both ends included.
#[derive(Debug, Clone, Copy, PartialEq, Eq, Hash, Structural)]
pub struct Span {
    pub start_line: u32,
    pub start_col: u32,
    pub end_line: u32,
    pub end_col: u32,
}

/// The span as a protocol range.
pub open spec fn span_range(s: Span) -> Range {
    Range {
        start: Position { line: s.start_line, character: s.start_col },
        end: Position { line: s.end_line, character: s.end_col },
    }
}

/// The span at the very start of a document.
pub open spec fn zero_span() -> Span {
    Span { start_line: 0, start_col: 0, end_line: 0, end_col: 0 }
}

/// `(line, col)` lies in `s`: not before its start and not after its end.
pub open spec fn span_contains(s: Span, line: int, col: int) -> bool {
    &&& s.start_line <= line <= s.end_line
    &&& (line == s.start_line ==> s.start_col <= col)
    &&& (line == s.end_line ==> col <= s.end_col)
}

/// The size measure of a span: lines weigh ten thousand columns.
pub open spec fn span_size(s: Span) -> int {
    if s.end_line == s.start_line {
        s.end_col - s.start_col
    } else {
        (s.end_line - s.start_line) * 10000 + s.end_col + (10000 - s.start_col)
    }
}

/// The size measure of `s` can be computed in `u32` without leaving its range.
pub open spec fn span_measurable(s: Span) -> bool {
    &&& s.start_line <= s.end_line
    &&& (s.end_line == s.start_line ==> s.start_col <= s.end_col)
    &&& (s.end_line != s.start_line ==> s.start_col <= 10000)
    &&& (s.end_line != s.start_line ==> (s.end_line - s.start_line) * 10000 + s.end_col + (10000 - s.start_col) <= u32::MAX)
}

impl Span {
    pub fn new(start_line: u32, start_col: u32, end_line: u32, end_col: u32) -> (r: Self)
        ensures
            r == (Span { start_line, start_col, end_line, end_col }),
    {
        Span { start_line, start_col, end_line, end_col }
    }

    /// Whether `(line, col)` lies inside the span, both ends included.
    pub fn contains(&self, line: u32, col: u32) -> (r: bool)
        ensures
            r == span_contains(*self, line as int, col as int),
    {
        if line < self.start_line || line > self.end_line {
            return false;
        }
        if line == self.start_line && col < self.start_col {
            return false;
        }
        if line == self.end_line && col > self.end_col {
            return false;
        }
        true
    }

    /// Whether `line` lies within the span's lines.
    pub fn contains_line(&self, line: u32) -> (r: bool)
        ensures
            r == (self.start_line <= line <= self.end_line),
    {
        line >= self.start_line && line <= self.end_line
    }

    /// The span as a protocol range.
    pub fn to_lsp_range(&self) -> (r: Range)
        ensures
            r == span_range(*self),
    {
        Range {
            start: Position { line: self.start_line, character: self.start_col },
            end: Position { line: self.end_line, character: self.end_col },
        }
    }

    /// Size of the span (line count times ten thousand plus columns).
    pub fn range_size(&self) -> (r: u32)
        requires
            span_measurable(*self),
        ensures
            r == span_size(*self),
    {
        let line_diff = self.end_line - self.start_line;
        let col_diff = if line_diff == 0 {
            self.end_col - self.start_col
        } else {
            self.end_col + (10000 - self.start_col)
        };
        assert(line_diff * 10000 + col_diff <= u32::MAX) by (nonlinear_arith)
            requires
                line_diff == 0 ==> col_diff <= u32::MAX,
                line_diff != 0 ==> line_diff * 10000 + col_diff <= u32::MAX,
        ;
        line_diff * 10000 + col_diff
    }
}

impl Default for Span {
    fn default() -> (r: Self)
        ensures
            r == zero_span(),
    {
        Span { start_line: 0, start_col: 0, end_line: 0, end_col: 0 }
    }
}

} // verus!
