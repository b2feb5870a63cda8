//! The outline of a document: each of its symbols with a range that holds its name.
use vstd::prelude::*;

use crate::index::query::{sort_views, symbol_view, scope_symbol_view, scope_reference_symbol_view, directive_symbol_view, SymbolView};
use crate::index::snapshot::list_at;
use crate::index::Index;
use crate::lsp::{Position, Range};
use crate::model::span::{span_range, Span};
use crate::model::symbol::{outline_kind_of, symbol_kind_name, OutlineKind};
use crate::model::{HtmlControllerScope, HtmlDirectiveReference, HtmlScopeReference, Symbol};

verus! {

/// One entry of the outline.
pub struct DocumentSymbol {
    pub name: String,
    pub detail: String,
    pub kind: OutlineKind,
    /// The whole symbol, made to hold its name.
    pub range: Range,
    /// Its name.
    pub selection_range: Range,
}

/// The smallest range that holds both the definition span `d` and the name span `n`.
pub open spec fn covering_range(d: Span, n: Span) -> Range {
    let sl = if d.start_line <= n.start_line { d.start_line } else { n.start_line };
    let sc = if sl == d.start_line && sl == n.start_line {
        if d.start_col <= n.start_col { d.start_col } else { n.start_col }
    } else if sl == d.start_line {
        d.start_col
    } else {
        n.start_col
    };
    let el = if d.end_line >= n.end_line { d.end_line } else { n.end_line };
    let ec = if el == d.end_line && el == n.end_line {
        if d.end_col >= n.end_col { d.end_col } else { n.end_col }
    } else if el == d.end_line {
        d.end_col
    } else {
        n.end_col
    };
    Range { start: Position { line: sl, character: sc }, end: Position { line: el, character: ec } }
}

fn covering(d: &Span, n: &Span) -> (r: Range)
    ensures
        r == covering_range(*d, *n),
{
    let sl = if d.start_line <= n.start_line { d.start_line } else { n.start_line };
    let sc = if sl == d.start_line && sl == n.start_line {
        if d.start_col <= n.start_col { d.start_col } else { n.start_col }
    } else if sl == d.start_line {
        d.start_col
    } else {
        n.start_col
    };
    let el = if d.end_line >= n.end_line { d.end_line } else { n.end_line };
    let ec = if el == d.end_line && el == n.end_line {
        if d.end_col >= n.end_col { d.end_col } else { n.end_col }
    } else if el == d.end_line {
        d.end_col
    } else {
        n.end_col
    };
    Range { start: Position { line: sl, character: sc }, end: Position { line: el, character: ec } }
}

/// The outline entry of a symbol's view.
pub open spec fn outline_entry(v: SymbolView) -> (Seq<char>, Seq<char>, OutlineKind, Range, Range) {
    (v.0, symbol_kind_name(v.1), outline_kind_of(v.1), covering_range(v.3, v.4), span_range(v.4))
}

/// The view of an outline entry.
pub open spec fn entry_view(e: DocumentSymbol) -> (Seq<char>, Seq<char>, OutlineKind, Range, Range) {
    (e.name@, e.detail@, e.kind, e.range, e.selection_range)
}

/// The outline of a document over an index.
pub struct DocumentSymbolHandler<'a> {
    pub index: &'a Index,
}

impl<'a> DocumentSymbolHandler<'a> {
    pub fn new(index: &'a Index) -> (r: Self)
        ensures
            r.index == index,
    {
        DocumentSymbolHandler { index }
    }

    /// The symbols of `uri` in the order the outline lists them (see
    /// `Index::get_document_symbols`).
    pub open spec fn outline_symbols(&self, uri: Seq<char>) -> Seq<SymbolView> {
        sort_views(
            crate::index::definition_store::definitions_in(self.index.definitions.defs(), list_at(self.index.definitions.docs(), uri), uri, false).map_values(|s: Symbol| symbol_view(s))
            + list_at(self.index.controllers.html_scopes(), uri).map_values(|s: HtmlControllerScope| scope_symbol_view(s))
            + list_at(self.index.html@.scope_references, uri).map_values(|x: HtmlScopeReference| scope_reference_symbol_view(x))
            + list_at(self.index.html@.directive_references, uri).map_values(|x: HtmlDirectiveReference| directive_symbol_view(x)))
    }

    /// The outline of `uri`: an entry per symbol, in order; none without symbols.
    pub fn document_symbols(&self, uri: &str) -> (r: Option<Vec<DocumentSymbol>>)
        ensures
            match r {
                Some(v) => self.outline_symbols(uri@).len() > 0
                    && v@.map_values(|e: DocumentSymbol| entry_view(e)) == self.outline_symbols(uri@).map_values(|x: SymbolView| outline_entry(x)),
                None => self.outline_symbols(uri@).len() == 0,
            },
    {
        let symbols = self.index.get_document_symbols(uri);
        let ghost sv = symbols@.map_values(|s: Symbol| symbol_view(s));
        assert(sv == self.outline_symbols(uri@));
        if symbols.len() == 0 {
            return None;
        }
        let mut out: Vec<DocumentSymbol> = Vec::new();
        let mut i: usize = 0;
        while i < symbols.len()
            invariant
                i <= symbols@.len(),
                sv == symbols@.map_values(|s: Symbol| symbol_view(s)),
                out@.map_values(|e: DocumentSymbol| entry_view(e)) == sv.take(i as int).map_values(|x: SymbolView| outline_entry(x)),
            decreases symbols.len() - i,
        {
            let s = &symbols[i];
            let ghost before = out@;
            out.push(DocumentSymbol {
                name: s.name.clone(),
                detail: s.kind.as_str().to_owned(),
                kind: s.kind.to_lsp_symbol_kind(),
                range: covering(&s.definition_span, &s.name_span),
                selection_range: s.name_span.to_lsp_range(),
            });
            proof {
                assert(sv[i as int] == symbol_view(symbols@[i as int]));
                assert(out@.map_values(|e: DocumentSymbol| entry_view(e)) =~= before.map_values(|e: DocumentSymbol| entry_view(e)).push(entry_view(out@.last())));
                assert(sv.take(i + 1).map_values(|x: SymbolView| outline_entry(x)) =~= sv.take(i as int).map_values(|x: SymbolView| outline_entry(x)).push(outline_entry(sv[i as int])));
            }
            i += 1;
        }
        proof { assert(sv.take(sv.len() as int) =~= sv); }
        Some(out)
    }
}

} // verus!
