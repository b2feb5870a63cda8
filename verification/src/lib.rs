//! Verified core of an AngularJS 1.x language server: the position model,
//! the symbol and template index, and the text analyses that answer
//! definition, reference, diagnostic, inlay-hint and highlighting requests.
use vstd::prelude::*;

pub mod lsp;
pub mod handler;
pub mod index;
pub mod model;
pub mod text;
pub mod uri;
pub mod util;

verus! {
} // verus!
