//! Workspace symbols: the top-level symbols whose name holds the query, in any case.
use vstd::prelude::*;

use crate::index::snapshot::flatten;
use crate::index::Index;
use crate::lsp::Location;
use crate::model::span::span_range;
use crate::model::symbol::{outline_kind_of, symbol_kind_name, OutlineKind};
use crate::model::{Symbol, SymbolKind};
use crate::text::{find_str, occurs};
use crate::util::{lower_of, to_lowercase};
use crate::lsp::Range;

verus! {

/// A symbol found in the workspace.
pub struct SymbolInformation {
    pub name: String,
    pub kind: OutlineKind,
    pub location: Location,
    /// The kind's name.
    pub container_name: String,
}

/// The kinds of the symbols the search lists.
pub open spec fn top_level_kind(k: SymbolKind) -> bool {
    match k {
        SymbolKind::Module | SymbolKind::Controller | SymbolKind::Service | SymbolKind::Factory
        | SymbolKind::Directive | SymbolKind::Component | SymbolKind::Provider | SymbolKind::Filter
        | SymbolKind::Constant | SymbolKind::Value => true,
        _ => false,
    }
}

/// See [`top_level_kind`].
pub fn is_top_level_symbol(kind: SymbolKind) -> (r: bool)
    ensures
        r == top_level_kind(kind),
{
    match kind {
        SymbolKind::Module | SymbolKind::Controller | SymbolKind::Service | SymbolKind::Factory
        | SymbolKind::Directive | SymbolKind::Component | SymbolKind::Provider | SymbolKind::Filter
        | SymbolKind::Constant | SymbolKind::Value => true,
        _ => false,
    }
}

/// The definitions of `defs` the search for `query` lists: top-level ones whose
/// lowercased name holds the lowercased query (any, for an empty query), each as its name,
/// outline kind, document, whole span and kind name.
pub open spec fn search_results(defs: Seq<Symbol>, query: Seq<char>) -> Seq<(Seq<char>, OutlineKind, Seq<char>, Range, Seq<char>)>
    decreases defs.len(),
{
    if defs.len() == 0 {
        Seq::empty()
    } else {
        let p = search_results(defs.drop_last(), query);
        let s = defs.last();
        if top_level_kind(s.kind) && (query.len() == 0 || occurs(lower_of(s.name@), lower_of(query))) {
            p.push((s.name@, outline_kind_of(s.kind), s.uri@, span_range(s.definition_span), symbol_kind_name(s.kind)))
        } else {
            p
        }
    }
}

/// The view of a search result.
pub open spec fn info_view(i: SymbolInformation) -> (Seq<char>, OutlineKind, Seq<char>, Range, Seq<char>) {
    (i.name@, i.kind, i.location.uri@, i.location.range, i.container_name@)
}

/// Workspace symbol search over an index.
pub struct WorkspaceSymbolHandler<'a> {
    pub index: &'a Index,
}

impl<'a> WorkspaceSymbolHandler<'a> {
    pub fn new(index: &'a Index) -> (r: Self)
        ensures
            r.index == index,
    {
        WorkspaceSymbolHandler { index }
    }

    /// The top-level symbols whose name holds `query`, compared in lower case; every
    /// top-level symbol for an empty query. Names in the map's own order.
    pub fn handle(&self, query: &str) -> (r: Vec<SymbolInformation>)
        ensures
            exists|defs: Seq<Symbol>| #[trigger] self.index.definitions.all_definitions_are(defs)
                && r@.map_values(|i: SymbolInformation| info_view(i)) == search_results(defs, query@),
    {
        let all = self.index.definitions.get_all_definitions();
        assert(self.index.definitions.all_definitions_are(all@));
        let query_lower = to_lowercase(query);
        let qlen = crate::text::chars_of(query).len();
        let mut out: Vec<SymbolInformation> = Vec::new();
        let mut i: usize = 0;
        while i < all.len()
            invariant
                i <= all@.len(),
                query_lower@ == lower_of(query@),
                qlen == query@.len(),
                out@.map_values(|x: SymbolInformation| info_view(x)) == search_results(all@.take(i as int), query@),
            decreases all.len() - i,
        {
            let s = &all[i];
            proof {
                assert(all@.take(i + 1).drop_last() =~= all@.take(i as int));
                assert(all@.take(i + 1).last() == all@[i as int]);
            }
            if is_top_level_symbol(s.kind) {
                let matches = if qlen == 0 {
                    true
                } else {
                    let name_lower = to_lowercase(s.name.as_str());
                    match find_str(name_lower.as_str(), query_lower.as_str()) {
                        Some(_) => true,
                        None => false,
                    }
                };
                if matches {
                    let ghost before = out@;
                    out.push(SymbolInformation {
                        name: s.name.clone(),
                        kind: s.kind.to_lsp_symbol_kind(),
                        location: Location { uri: s.uri.clone(), range: s.definition_span.to_lsp_range() },
                        container_name: s.kind.as_str().to_owned(),
                    });
                    proof {
                        assert(out@.map_values(|x: SymbolInformation| info_view(x)) =~= before.map_values(|x: SymbolInformation| info_view(x)).push(info_view(out@.last())));
                    }
                }
            }
            i += 1;
        }
        proof { assert(all@.take(all@.len() as int) =~= all@); }
        out
    }
}


/// The kinds the search lists: modules, controllers, services, factories, directives,
/// components, providers, filters, constants and values.
pub open spec fn searched_kind(k: SymbolKind) -> bool {
    ||| k == SymbolKind::Module
    ||| k == SymbolKind::Controller
    ||| k == SymbolKind::Service
    ||| k == SymbolKind::Factory
    ||| k == SymbolKind::Directive
    ||| k == SymbolKind::Component
    ||| k == SymbolKind::Provider
    ||| k == SymbolKind::Filter
    ||| k == SymbolKind::Constant
    ||| k == SymbolKind::Value
}

/// `s` matches the query `q`: `q` is empty, or the lowercased name holds the lowercased
/// query.
pub open spec fn name_matches(s: Symbol, q: Seq<char>) -> bool {
    q.len() == 0 || occurs(lower_of(s.name@), lower_of(q))
}

proof fn lemma_search_results_list(defs: Seq<Symbol>, q: Seq<char>, j: int)
    requires
        0 <= j < defs.len(),
        searched_kind(defs[j].kind),
        name_matches(defs[j], q),
    ensures
        search_results(defs, q).contains((defs[j].name@, outline_kind_of(defs[j].kind), defs[j].uri@,
            span_range(defs[j].definition_span), symbol_kind_name(defs[j].kind))),
    decreases defs.len(),
{
    let prev = search_results(defs.drop_last(), q);
    let cur = search_results(defs, q);
    if j == defs.len() - 1 {
        assert(cur[prev.len() as int] == (defs[j].name@, outline_kind_of(defs[j].kind), defs[j].uri@,
            span_range(defs[j].definition_span), symbol_kind_name(defs[j].kind)));
    } else {
        assert(defs.drop_last()[j] == defs[j]);
        lemma_search_results_list(defs.drop_last(), q, j);
        let x = choose|x: int| 0 <= x < prev.len() && prev[x] == (defs[j].name@, outline_kind_of(defs[j].kind), defs[j].uri@,
            span_range(defs[j].definition_span), symbol_kind_name(defs[j].kind));
        assert(cur[x] == prev[x]);
    }
}

impl<'a> WorkspaceSymbolHandler<'a> {
    /// The search for `query` lists every definition of a module, controller, service,
    /// factory, directive, component, provider, filter, constant or value whose
    /// lowercased name holds the lowercased query (every one, for an empty query), with
    /// its name, document and span.
    pub proof fn law_search_lists_every_matching_top_level_symbol(&self, query: Seq<char>, r: Seq<SymbolInformation>)
        requires
            exists|defs: Seq<Symbol>| #[trigger] self.index.definitions.all_definitions_are(defs)
                && r.map_values(|i: SymbolInformation| info_view(i)) == search_results(defs, query),
        ensures
            forall|n: Seq<char>, i: int| self.index.definitions.defs().contains_key(n) && 0 <= i < self.index.definitions.defs()[n].len()
                && searched_kind((#[trigger] self.index.definitions.defs()[n][i]).kind)
                && name_matches(self.index.definitions.defs()[n][i], query)
                ==> exists|k: int| 0 <= k < r.len() && r[k].name@ == self.index.definitions.defs()[n][i].name@
                    && r[k].location.uri@ == self.index.definitions.defs()[n][i].uri@
                    && r[k].location.range == span_range(self.index.definitions.defs()[n][i].definition_span),
    {
        let defs = choose|defs: Seq<Symbol>| #[trigger] self.index.definitions.all_definitions_are(defs)
            && r.map_values(|i: SymbolInformation| info_view(i)) == search_results(defs, query);
        let e = choose|e: Seq<(String, Vec<Symbol>)>| crate::index::tables::list_snapshot_of(e, self.index.definitions.defs()) && defs == flatten(e);
        let rv = r.map_values(|i: SymbolInformation| info_view(i));
        assert forall|n: Seq<char>, i: int| self.index.definitions.defs().contains_key(n) && 0 <= i < self.index.definitions.defs()[n].len()
            && searched_kind((#[trigger] self.index.definitions.defs()[n][i]).kind)
            && name_matches(self.index.definitions.defs()[n][i], query)
            implies exists|k: int| 0 <= k < r.len() && r[k].name@ == self.index.definitions.defs()[n][i].name@
                && r[k].location.uri@ == self.index.definitions.defs()[n][i].uri@
                && r[k].location.range == span_range(self.index.definitions.defs()[n][i].definition_span) by {
            crate::index::snapshot::lemma_snapshot_flatten_holds(e, self.index.definitions.defs(), n, i);
            let x = self.index.definitions.defs()[n][i];
            let j = choose|j: int| 0 <= j < defs.len() && defs[j] == x;
            lemma_search_results_list(defs, query, j);
            let k = choose|k: int| 0 <= k < rv.len() && rv[k] == (x.name@, outline_kind_of(x.kind), x.uri@,
                span_range(x.definition_span), symbol_kind_name(x.kind));
            assert(rv[k] == info_view(r[k]));
        }
    }
}

} // verus!
