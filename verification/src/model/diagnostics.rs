//! Findings of the script analysis kept for diagnostics.
use vstd::prelude::*;

use super::span::Span;

verus! {

/// A dependency-injection array whose string count differs from the function's parameter count.
#[derive(Debug, Clone, PartialEq, Eq)]
pub struct DiArityIssue {
    pub uri: String,
    pub di_count: usize,
    pub param_count: usize,
    pub span: Span,
}

} // verus!
