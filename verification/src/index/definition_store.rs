//! Definitions and references of symbols, and which names each document mentions.
use vstd::prelude::*;

use crate::index::tables::{
    list_snapshot_of, name_lists, name_lists_entries, name_lists_get, name_lists_insert,
    name_lists_new, name_lists_remove, reference_lists, reference_lists_entries,
    reference_lists_get, reference_lists_insert, reference_lists_new, reference_lists_remove,
    symbol_lists, symbol_lists_entries, symbol_lists_get, symbol_lists_insert, symbol_lists_new,
    symbol_lists_remove,
};
use crate::index::snapshot::{
    flatten, flatten_entries, flatten_suffixed, flatten_suffixed_entries, lemma_with_name_contains,
    list_at, with_name,
};
use crate::model::span::{span_contains, span_measurable, span_size, Span};
use crate::model::{Symbol, SymbolKind, SymbolReference};
use crate::text::{concat, contains_str, ends_with, str_ends_with, str_eq, str_starts_with, views};

verus! {

/// `s` already holds a definition of the same document at the same start.
pub open spec fn has_same_definition(s: Seq<Symbol>, x: Symbol) -> bool {
    exists|i: int| 0 <= i < s.len() && (#[trigger] s[i]).uri@ == x.uri@
        && s[i].definition_span.start_line == x.definition_span.start_line
        && s[i].definition_span.start_col == x.definition_span.start_col
}

/// The definitions after adding `s`: unchanged when its name already has a definition of
/// the same document at the same start, else `s` appended to those of its name.
pub open spec fn with_definition(defs: Map<Seq<char>, Seq<Symbol>>, s: Symbol) -> Map<Seq<char>, Seq<Symbol>> {
    if has_same_definition(list_at(defs, s.name@), s) {
        defs
    } else {
        defs.insert(s.name@, list_at(defs, s.name@).push(s))
    }
}

/// The references after adding `r`: unchanged when its name already has a reference of
/// the same document at the same start, else `r` appended to those of its name.
pub open spec fn with_reference(refs: Map<Seq<char>, Seq<SymbolReference>>, r: SymbolReference) -> Map<Seq<char>, Seq<SymbolReference>> {
    if has_same_reference(list_at(refs, r.name@), r) {
        refs
    } else {
        refs.insert(r.name@, list_at(refs, r.name@).push(r))
    }
}

/// `s` already holds a reference of the same document at the same start.
pub open spec fn has_same_reference(s: Seq<SymbolReference>, x: SymbolReference) -> bool {
    exists|i: int| 0 <= i < s.len() && (#[trigger] s[i]).uri@ == x.uri@
        && s[i].span.start_line == x.span.start_line && s[i].span.start_col == x.span.start_col
}

/// `s` is a component binding whose name starts with `prefix`.
pub open spec fn is_binding_of(s: Symbol, prefix: Seq<char>) -> bool {
    s.kind == SymbolKind::ComponentBinding && prefix.len() <= s.name@.len()
        && s.name@.take(prefix.len() as int) == prefix
}

/// A `$rootScope` property or method.
pub open spec fn is_root_scope_kind(k: SymbolKind) -> bool {
    k == SymbolKind::RootScopeProperty || k == SymbolKind::RootScopeMethod
}

/// A `$scope` property or method.
pub open spec fn is_scope_kind(k: SymbolKind) -> bool {
    k == SymbolKind::ScopeProperty || k == SymbolKind::ScopeMethod
}

/// The key suffix of `$rootScope` symbols with property path `p`.
pub open spec fn root_scope_suffix(p: Seq<char>) -> Seq<char> {
    ".$rootScope."@ + p
}

/// The symbols of `s` defined in `uri`, in order; with `scope_only`, only `$scope`
/// properties and methods.
pub open spec fn uri_symbols(s: Seq<Symbol>, uri: Seq<char>, scope_only: bool) -> Seq<Symbol>
    decreases s.len(),
{
    if s.len() == 0 {
        Seq::empty()
    } else {
        let rest = uri_symbols(s.drop_last(), uri, scope_only);
        let x = s.last();
        if x.uri@ == uri && (!scope_only || is_scope_kind(x.kind)) { rest.push(x) } else { rest }
    }
}

/// Definitions of `uri` listed under the names `names`, in that order; with
/// `scope_only`, only `$scope` properties and methods.
pub open spec fn definitions_in(
    defs: Map<Seq<char>, Seq<Symbol>>,
    names: Seq<Seq<char>>,
    uri: Seq<char>,
    scope_only: bool,
) -> Seq<Symbol>
    decreases names.len(),
{
    if names.len() == 0 {
        Seq::empty()
    } else {
        definitions_in(defs, names.drop_last(), uri, scope_only)
            + uri_symbols(list_at(defs, names.last()), uri, scope_only)
    }
}

/// The definitions of `uri` among `s` whose name span holds `(line, col)`: each as its
/// name and name span, in order.
pub open spec fn definition_hits(s: Seq<Symbol>, uri: Seq<char>, line: int, col: int) -> Seq<(Seq<char>, Span)>
    decreases s.len(),
{
    if s.len() == 0 {
        Seq::empty()
    } else {
        let rest = definition_hits(s.drop_last(), uri, line, col);
        let x = s.last();
        if x.uri@ == uri && span_contains(x.name_span, line, col) { rest.push((x.name@, x.name_span)) } else { rest }
    }
}

/// The references of `uri` among `s` whose span holds `(line, col)`, in order.
pub open spec fn reference_hits(s: Seq<SymbolReference>, uri: Seq<char>, line: int, col: int) -> Seq<(Seq<char>, Span)>
    decreases s.len(),
{
    if s.len() == 0 {
        Seq::empty()
    } else {
        let rest = reference_hits(s.drop_last(), uri, line, col);
        let x = s.last();
        if x.uri@ == uri && span_contains(x.span, line, col) { rest.push((x.name@, x.span)) } else { rest }
    }
}

/// For each name of `names` in turn, its definition hits and then its reference hits.
pub open spec fn position_hits(
    defs: Map<Seq<char>, Seq<Symbol>>,
    refs: Map<Seq<char>, Seq<SymbolReference>>,
    names: Seq<Seq<char>>,
    uri: Seq<char>,
    line: int,
    col: int,
) -> Seq<(Seq<char>, Span)>
    decreases names.len(),
{
    if names.len() == 0 {
        Seq::empty()
    } else {
        position_hits(defs, refs, names.drop_last(), uri, line, col)
            + definition_hits(list_at(defs, names.last()), uri, line, col)
            + reference_hits(list_at(refs, names.last()), uri, line, col)
    }
}

/// `i` is the first of the hits with the smallest span.
pub open spec fn is_first_smallest(h: Seq<(Seq<char>, Span)>, i: int) -> bool {
    &&& 0 <= i < h.len()
    &&& forall|j: int| 0 <= j < h.len() ==> span_size(h[i].1) <= span_size(#[trigger] h[j].1)
    &&& forall|j: int| 0 <= j < i ==> span_size(h[i].1) < span_size(#[trigger] h[j].1)
}

/// The best hit so far: none when there was no hit, else the name and size of the
/// first smallest one.
pub open spec fn best_of(best: Option<(String, u32)>, acc: Seq<(Seq<char>, Span)>, bi: int) -> bool {
    match best {
        None => acc.len() == 0,
        Some(b) => is_first_smallest(acc, bi) && acc[bi].0 == b.0@ && span_size(acc[bi].1) == b.1,
    }
}

/// Whether a list of names holds `n` with a reference from `uri`.
pub open spec fn referenced_from(refs: Map<Seq<char>, Seq<SymbolReference>>, n: Seq<char>, uri: Seq<char>) -> bool {
    exists|i: int| 0 <= i < list_at(refs, n).len() && (#[trigger] list_at(refs, n)[i]).uri@ == uri
}

/// Whether `n` has a definition in `uri`.
pub open spec fn defined_in(defs: Map<Seq<char>, Seq<Symbol>>, n: Seq<char>, uri: Seq<char>) -> bool {
    exists|i: int| 0 <= i < list_at(defs, n).len() && (#[trigger] list_at(defs, n)[i]).uri@ == uri
}

/// The map after a document's contributions are dropped from the lists of `names`:
/// those lists lose the entries of `uri`, and a list left empty loses its key.
pub open spec fn drop_document<T>(m: Map<Seq<char>, Seq<T>>, names: Set<Seq<char>>, keep: spec_fn(T) -> bool) -> Map<Seq<char>, Seq<T>> {
    Map::new(
        |k: Seq<char>| m.contains_key(k) && (names.contains(k) ==> m[k].filter(keep).len() > 0),
        |k: Seq<char>| if names.contains(k) { m[k].filter(keep) } else { m[k] },
    )
}

/// Symbols and references are kept consistently: lists are never empty and hold only
/// their key's name, every document that contributed to a name lists that name, and
/// no document lists a name twice.
pub open spec fn definitions_wf(
    defs: Map<Seq<char>, Seq<Symbol>>,
    refs: Map<Seq<char>, Seq<SymbolReference>>,
    docs: Map<Seq<char>, Seq<Seq<char>>>,
) -> bool {
    &&& forall|n: Seq<char>| #[trigger] defs.contains_key(n) ==> defs[n].len() > 0
    &&& forall|n: Seq<char>| #[trigger] refs.contains_key(n) ==> refs[n].len() > 0
    &&& forall|n: Seq<char>, i: int| defs.contains_key(n) && 0 <= i < defs[n].len()
        ==> (#[trigger] defs[n][i]).name@ == n && docs.contains_key(defs[n][i].uri@)
            && docs[defs[n][i].uri@].contains(n)
    &&& forall|n: Seq<char>, i: int| refs.contains_key(n) && 0 <= i < refs[n].len()
        ==> (#[trigger] refs[n][i]).name@ == n && docs.contains_key(refs[n][i].uri@)
            && docs[refs[n][i].uri@].contains(n)
    &&& forall|u: Seq<char>| #[trigger] docs.contains_key(u) ==> docs[u].no_duplicates()
}

/// Where the symbols of the workspace are defined and referenced.
pub struct DefinitionStore {
    definitions: dashmap::DashMap<String, Vec<Symbol>>,
    references: dashmap::DashMap<String, Vec<SymbolReference>>,
    /// For each document, the names it added definitions or references for.
    document_symbols: dashmap::DashMap<String, Vec<String>>,
}

impl DefinitionStore {
    /// Definitions by name.
    pub closed spec fn defs(&self) -> Map<Seq<char>, Seq<Symbol>> {
        symbol_lists(self.definitions)
    }

    /// References by name.
    pub closed spec fn refs(&self) -> Map<Seq<char>, Seq<SymbolReference>> {
        reference_lists(self.references)
    }

    /// For each document, the names it contributed, in the order first contributed.
    pub closed spec fn docs(&self) -> Map<Seq<char>, Seq<Seq<char>>> {
        name_lists(self.document_symbols).map_values(|v: Seq<String>| views(v))
    }

    pub open spec fn wf(&self) -> bool {
        definitions_wf(self.defs(), self.refs(), self.docs())
    }

    pub fn new() -> (r: Self)
        ensures
            r.wf(),
            r.defs() =~= Map::empty(),
            r.refs() =~= Map::empty(),
            r.docs() =~= Map::empty(),
    {
        let r = DefinitionStore {
            definitions: symbol_lists_new(),
            references: reference_lists_new(),
            document_symbols: name_lists_new(),
        };
        assert(r.docs() =~= Map::empty());
        r
    }

    /// Records that `uri` mentions `name`.
    fn note_name(&mut self, uri: String, name: String)
        ensures
            final(self).defs() == old(self).defs(),
            final(self).refs() == old(self).refs(),
            final(self).docs() == old(self).docs().insert(uri@, with_name(list_at(old(self).docs(), uri@), name@)),
    {
        let ghost old_raw = name_lists(self.document_symbols);
        let mut names = match name_lists_get(&self.document_symbols, &uri) {
            Some(v) => v,
            None => Vec::new(),
        };
        let ghost before = names@;
        proof {
            assert(views(before) =~= list_at(old(self).docs(), uri@));
        }
        if !contains_str(&names, &name) {
            names.push(name);
            proof { assert(views(names@) =~= views(before).push(views(names@).last())); }
        }
        let ghost after = names@;
        name_lists_insert(&mut self.document_symbols, uri, names);
        proof {
            assert(name_lists(self.document_symbols).map_values(|v: Seq<String>| views(v))
                =~= old_raw.map_values(|v: Seq<String>| views(v)).insert(uri@, views(after)));
        }
    }

    /// Adds `symbol` under its name unless the same document already defines that
    /// name at the same start; then notes the name for the document.
    pub fn add_definition(&mut self, symbol: Symbol)
        requires
            old(self).wf(),
        ensures
            final(self).wf(),
            final(self).refs() == old(self).refs(),
            final(self).defs() == with_definition(old(self).defs(), symbol),
            if has_same_definition(list_at(old(self).defs(), symbol.name@), symbol) {
                final(self).defs() == old(self).defs() && final(self).docs() == old(self).docs()
            } else {
                &&& final(self).defs() == old(self).defs().insert(symbol.name@, list_at(old(self).defs(), symbol.name@).push(symbol))
                &&& final(self).docs() == old(self).docs().insert(symbol.uri@,
                    with_name(list_at(old(self).docs(), symbol.uri@), symbol.name@))
            },
    {
        let name = symbol.name.clone();
        let uri = symbol.uri.clone();
        let mut list = match symbol_lists_get(&self.definitions, &name) {
            Some(v) => v,
            None => Vec::new(),
        };
        let ghost before = list@;
        let mut i: usize = 0;
        while i < list.len()
            invariant
                i <= list@.len(),
                list@ == before,
                before == list_at(old(self).defs(), symbol.name@),
                *self == *old(self),
                old(self).wf(),
                forall|j: int| 0 <= j < i ==> !(list@[j].uri@ == symbol.uri@
                    && list@[j].definition_span.start_line == symbol.definition_span.start_line
                    && list@[j].definition_span.start_col == symbol.definition_span.start_col),
            decreases list.len() - i,
        {
            if str_eq(&list[i].uri, &symbol.uri)
                && list[i].definition_span.start_line == symbol.definition_span.start_line
                && list[i].definition_span.start_col == symbol.definition_span.start_col {
                proof { assert(has_same_definition(list@, symbol)); }
                return;
            }
            i += 1;
        }
        list.push(symbol);
        let ghost pushed = list@;
        symbol_lists_insert(&mut self.definitions, name.clone(), list);
        self.note_name(uri, name);
        proof {
            let d = self.defs();
            let r = self.refs();
            let dc = self.docs();
            assert forall|n: Seq<char>, j: int| d.contains_key(n) && 0 <= j < d[n].len()
                implies (#[trigger] d[n][j]).name@ == n && dc.contains_key(d[n][j].uri@) && dc[d[n][j].uri@].contains(n) by {
                if n == symbol.name@ && j == d[n].len() - 1 {
                    assert(d[n][j] == symbol);
                    lemma_with_name_contains(list_at(old(self).docs(), symbol.uri@), symbol.name@);
                } else {
                    let u = d[n][j].uri@;
                    assert(old(self).docs()[u].contains(n));
                    if u == symbol.uri@ {
                        let k = choose|k: int| 0 <= k < old(self).docs()[u].len() && old(self).docs()[u][k] == n;
                        assert(with_name(list_at(old(self).docs(), u), symbol.name@)[k] == n);
                    }
                }
            }
            assert forall|n: Seq<char>, j: int| r.contains_key(n) && 0 <= j < r[n].len()
                implies (#[trigger] r[n][j]).name@ == n && dc.contains_key(r[n][j].uri@) && dc[r[n][j].uri@].contains(n) by {
                let u = r[n][j].uri@;
                assert(old(self).docs()[u].contains(n));
                if u == symbol.uri@ {
                    let k = choose|k: int| 0 <= k < old(self).docs()[u].len() && old(self).docs()[u][k] == n;
                    assert(with_name(list_at(old(self).docs(), u), symbol.name@)[k] == n);
                }
            }
            assert forall|u: Seq<char>| #[trigger] dc.contains_key(u) implies dc[u].no_duplicates() by {
                if u == symbol.uri@ {
                    let base = list_at(old(self).docs(), u);
                    assert(base.no_duplicates());
                    if !base.contains(symbol.name@) {
                        assert forall|a: int, b: int| 0 <= a < b < base.push(symbol.name@).len()
                            implies base.push(symbol.name@)[a] != base.push(symbol.name@)[b] by {
                            if b == base.len() {
                                assert(base[a] != symbol.name@);
                            }
                        }
                    }
                }
            }
        }
    }

    /// Adds `reference` under its name unless the same document already references that
    /// name at the same start; then notes the name for the document.
    pub fn add_reference(&mut self, reference: SymbolReference)
        requires
            old(self).wf(),
        ensures
            final(self).wf(),
            final(self).defs() == old(self).defs(),
            final(self).refs() == with_reference(old(self).refs(), reference),
            if has_same_reference(list_at(old(self).refs(), reference.name@), reference) {
                final(self).refs() == old(self).refs() && final(self).docs() == old(self).docs()
            } else {
                &&& final(self).refs() == old(self).refs().insert(reference.name@, list_at(old(self).refs(), reference.name@).push(reference))
                &&& final(self).docs() == old(self).docs().insert(reference.uri@,
                    with_name(list_at(old(self).docs(), reference.uri@), reference.name@))
            },
    {
        let name = reference.name.clone();
        let uri = reference.uri.clone();
        let mut list = match reference_lists_get(&self.references, &name) {
            Some(v) => v,
            None => Vec::new(),
        };
        let ghost before = list@;
        let mut i: usize = 0;
        while i < list.len()
            invariant
                i <= list@.len(),
                list@ == before,
                before == list_at(old(self).refs(), reference.name@),
                *self == *old(self),
                old(self).wf(),
                forall|j: int| 0 <= j < i ==> !(list@[j].uri@ == reference.uri@
                    && list@[j].span.start_line == reference.span.start_line
                    && list@[j].span.start_col == reference.span.start_col),
            decreases list.len() - i,
        {
            if str_eq(&list[i].uri, &reference.uri)
                && list[i].span.start_line == reference.span.start_line
                && list[i].span.start_col == reference.span.start_col {
                proof { assert(has_same_reference(list@, reference)); }
                return;
            }
            i += 1;
        }
        list.push(reference);
        reference_lists_insert(&mut self.references, name.clone(), list);
        self.note_name(uri, name);
        proof {
            let d = self.defs();
            let r = self.refs();
            let dc = self.docs();
            assert forall|n: Seq<char>, j: int| r.contains_key(n) && 0 <= j < r[n].len()
                implies (#[trigger] r[n][j]).name@ == n && dc.contains_key(r[n][j].uri@) && dc[r[n][j].uri@].contains(n) by {
                if n == reference.name@ && j == r[n].len() - 1 {
                    assert(r[n][j] == reference);
                    lemma_with_name_contains(list_at(old(self).docs(), reference.uri@), reference.name@);
                } else {
                    let u = r[n][j].uri@;
                    assert(old(self).docs()[u].contains(n));
                    if u == reference.uri@ {
                        let k = choose|k: int| 0 <= k < old(self).docs()[u].len() && old(self).docs()[u][k] == n;
                        assert(with_name(list_at(old(self).docs(), u), reference.name@)[k] == n);
                    }
                }
            }
            assert forall|n: Seq<char>, j: int| d.contains_key(n) && 0 <= j < d[n].len()
                implies (#[trigger] d[n][j]).name@ == n && dc.contains_key(d[n][j].uri@) && dc[d[n][j].uri@].contains(n) by {
                let u = d[n][j].uri@;
                assert(old(self).docs()[u].contains(n));
                if u == reference.uri@ {
                    let k = choose|k: int| 0 <= k < old(self).docs()[u].len() && old(self).docs()[u][k] == n;
                    assert(with_name(list_at(old(self).docs(), u), reference.name@)[k] == n);
                }
            }
            assert forall|u: Seq<char>| #[trigger] dc.contains_key(u) implies dc[u].no_duplicates() by {
                if u == reference.uri@ {
                    let base = list_at(old(self).docs(), u);
                    assert(base.no_duplicates());
                    if !base.contains(reference.name@) {
                        assert forall|a: int, b: int| 0 <= a < b < base.push(reference.name@).len()
                            implies base.push(reference.name@)[a] != base.push(reference.name@)[b] by {
                            if b == base.len() {
                                assert(base[a] != reference.name@);
                            }
                        }
                    }
                }
            }
        }
    }

    /// The definitions of `name`, in the order added.
    pub fn get_definitions(&self, name: &str) -> (r: Vec<Symbol>)
        ensures
            r@ == list_at(self.defs(), name@),
    {
        match symbol_lists_get(&self.definitions, name) {
            Some(v) => v,
            None => Vec::new(),
        }
    }

    pub fn has_definition(&self, name: &str) -> (r: bool)
        ensures
            r == self.defs().contains_key(name@),
    {
        symbol_lists_get(&self.definitions, name).is_some()
    }

    /// Whether `name` has a definition of kind `kind`.
    pub fn has_definition_of_kind(&self, name: &str, kind: SymbolKind) -> (r: bool)
        ensures
            r == exists|i: int| 0 <= i < list_at(self.defs(), name@).len() && list_at(self.defs(), name@)[i].kind == kind,
    {
        let defs = self.get_definitions(name);
        let mut i: usize = 0;
        while i < defs.len()
            invariant
                i <= defs@.len(),
                defs@ == list_at(self.defs(), name@),
                forall|j: int| 0 <= j < i ==> defs@[j].kind != kind,
            decreases defs.len() - i,
        {
            if defs[i].kind == kind {
                return true;
            }
            i += 1;
        }
        false
    }

    /// The references of `name`, in the order added.
    pub fn get_references(&self, name: &str) -> (r: Vec<SymbolReference>)
        ensures
            r@ == list_at(self.refs(), name@),
    {
        match reference_lists_get(&self.references, name) {
            Some(v) => v,
            None => Vec::new(),
        }
    }

    /// Whether some reference of `name` was made from `uri` (`in_uri`) or from another
    /// document (`!in_uri`).
    pub fn any_reference_in(&self, name: &str, uri: &str, in_uri: bool) -> (r: bool)
        ensures
            r == exists|i: int| 0 <= i < list_at(self.refs(), name@).len()
                && (list_at(self.refs(), name@)[i].uri@ == uri@) == in_uri,
    {
        let refs = self.get_references(name);
        let mut i: usize = 0;
        while i < refs.len()
            invariant
                i <= refs@.len(),
                refs@ == list_at(self.refs(), name@),
                forall|j: int| 0 <= j < i ==> (refs@[j].uri@ == uri@) != in_uri,
            decreases refs.len() - i,
        {
            if str_eq(&refs[i].uri, uri) == in_uri {
                return true;
            }
            i += 1;
        }
        false
    }

    /// `r` is every definition: names in the map's own order, each name's definitions in
    /// the order added.
    pub open spec fn all_definitions_are(&self, r: Seq<Symbol>) -> bool {
        exists|e: Seq<(String, Vec<Symbol>)>| list_snapshot_of(e, self.defs()) && r == flatten(e)
    }

    /// `r` is the names that have references but no definitions, each once.
    pub open spec fn reference_only_names_are(&self, r: Seq<Seq<char>>) -> bool {
        &&& r.no_duplicates()
        &&& forall|k: Seq<char>| r.contains(k) <==> (self.refs().contains_key(k)
            && self.refs()[k].len() > 0 && list_at(self.defs(), k).len() == 0)
    }

    /// Every definition of every name; names in the map's own order, each name's
    /// definitions in the order added.
    pub fn get_all_definitions(&self) -> (r: Vec<Symbol>)
        ensures
            self.all_definitions_are(r@),
    {
        flatten_entries(symbol_lists_entries(&self.definitions))
    }

    /// Whether `name` is defined as a service or a factory.
    pub fn is_service_or_factory(&self, name: &str) -> (r: bool)
        ensures
            r == exists|i: int| 0 <= i < list_at(self.defs(), name@).len()
                && (list_at(self.defs(), name@)[i].kind == SymbolKind::Service
                    || list_at(self.defs(), name@)[i].kind == SymbolKind::Factory),
    {
        self.has_definition_of_kind(name, SymbolKind::Service) || self.has_definition_of_kind(name, SymbolKind::Factory)
    }

    /// Names that have references but no definitions, each once, in the map's own order.
    pub fn get_reference_only_names(&self) -> (r: Vec<String>)
        ensures
            self.reference_only_names_are(views(r@)),
    {
        let entries = reference_lists_entries(&self.references);
        let mut r: Vec<String> = Vec::new();
        let mut i: usize = 0;
        while i < entries.len()
            invariant
                i <= entries@.len(),
                list_snapshot_of(entries@, self.refs()),
                views(r@).no_duplicates(),
                forall|x: int| #![trigger r@[x]] 0 <= x < r@.len() ==> exists|j: int| 0 <= j < i && #[trigger] entries@[j].0@ == r@[x]@,
                forall|k: Seq<char>| views(r@).contains(k) ==> (self.refs().contains_key(k)
                    && self.refs()[k].len() > 0 && list_at(self.defs(), k).len() == 0),
                forall|j: int| 0 <= j < i && self.refs()[entries@[j].0@].len() > 0
                    && list_at(self.defs(), entries@[j].0@).len() == 0 ==> views(r@).contains(#[trigger] entries@[j].0@),
            decreases entries.len() - i,
        {
            proof { assert(self.refs().contains_key(entries@[i as int].0@)); }
            let key = entries[i].0.clone();
            if entries[i].1.len() > 0 && self.get_definitions(&key).len() == 0 {
                let ghost before = r@;
                proof {
                    assert forall|x: int| 0 <= x < before.len() implies before[x]@ != key@ by {
                        let j = choose|j: int| 0 <= j < i && #[trigger] entries@[j].0@ == before[x]@;
                        assert(entries@[j].0@ != entries@[i as int].0@);
                    }
                }
                r.push(key);
                proof {
                    assert(views(r@) =~= views(before).push(key@));
                    assert forall|a: int, b: int| 0 <= a < b < views(r@).len() implies views(r@)[a] != views(r@)[b] by {
                        if b == before.len() {
                            assert(views(r@)[a] == before[a]@);
                        } else {
                            assert(views(before)[a] != views(before)[b]);
                        }
                    }
                    assert forall|x: int| #![trigger r@[x]] 0 <= x < r@.len() implies exists|j: int| 0 <= j < i + 1 && #[trigger] entries@[j].0@ == r@[x]@ by {
                        if x < before.len() {
                            let j = choose|j: int| 0 <= j < i && #[trigger] entries@[j].0@ == before[x]@;
                            assert(entries@[j].0@ == r@[x]@);
                        } else {
                            assert(entries@[i as int].0@ == r@[x]@);
                        }
                    }
                    assert forall|k: Seq<char>| views(r@).contains(k) implies (self.refs().contains_key(k)
                        && self.refs()[k].len() > 0 && list_at(self.defs(), k).len() == 0) by {
                        let x = choose|x: int| 0 <= x < views(r@).len() && views(r@)[x] == k;
                        if x < before.len() {
                            assert(views(before)[x] == k);
                        }
                    }
                    assert forall|j: int| 0 <= j < i + 1 && self.refs()[entries@[j].0@].len() > 0
                        && list_at(self.defs(), entries@[j].0@).len() == 0 implies views(r@).contains(#[trigger] entries@[j].0@) by {
                        if j < i {
                            let x = choose|x: int| 0 <= x < views(before).len() && views(before)[x] == entries@[j].0@;
                            assert(views(r@)[x] == entries@[j].0@);
                        } else {
                            assert(views(r@)[before.len() as int] == entries@[j].0@);
                        }
                    }
                }
            }
            i += 1;
        }
        proof {
            assert forall|k: Seq<char>| (self.refs().contains_key(k) && self.refs()[k].len() > 0
                && list_at(self.defs(), k).len() == 0) implies views(r@).contains(k) by {
                let j = choose|j: int| 0 <= j < entries@.len() && #[trigger] entries@[j].0@ == k;
            }
        }
        r
    }

    /// `r` is the binding definitions of `component_name`, names in the map's own order.
    pub open spec fn component_bindings_are(&self, component_name: Seq<char>, r: Seq<Symbol>) -> bool {
        exists|e: Seq<(String, Vec<Symbol>)>| list_snapshot_of(e, self.defs())
            && r == flatten(e).filter(|s: Symbol| is_binding_of(s, component_name + "."@))
    }

    /// The binding definitions of the component `component_name`: the definitions of kind
    /// component binding whose name starts with `<component_name>.`, names in the map's own
    /// order, each name's definitions in the order added.
    pub fn get_component_bindings(&self, component_name: &str) -> (r: Vec<Symbol>)
        ensures
            self.component_bindings_are(component_name@, r@),
    {
        let prefix = concat(component_name, ".");
        let entries = symbol_lists_entries(&self.definitions);
        let ghost e = entries@;
        let r = keep_bindings_of(flatten_entries(entries), &prefix);
        proof { assert(list_snapshot_of(e, self.defs())); }
        r
    }

    /// `r` is the `$rootScope` definitions of `property_path`: those under names that end
    /// with `.$rootScope.<property_path>`, names in the map's own order.
    pub open spec fn root_scope_definitions_are(&self, property_path: Seq<char>, r: Seq<Symbol>) -> bool {
        exists|e: Seq<(String, Vec<Symbol>)>| list_snapshot_of(e, self.defs())
            && r == flatten_suffixed(e, root_scope_suffix(property_path)).filter(|s: Symbol| is_root_scope_kind(s.kind))
    }

    /// The `$rootScope` definitions whose name ends with `.$rootScope.<property_path>`:
    /// matching names in the map's own order, each name's definitions in the order added.
    pub fn find_root_scope_definitions_by_property(&self, property_path: &str) -> (r: Vec<Symbol>)
        ensures
            self.root_scope_definitions_are(property_path@, r@),
    {
        let suffix = concat(".$rootScope.", property_path);
        let entries = symbol_lists_entries(&self.definitions);
        let ghost e = entries@;
        let r = keep_root_scope_kinds(flatten_suffixed_entries(entries, &suffix));
        proof { assert(list_snapshot_of(e, self.defs())); }
        r
    }

    /// The references whose name ends with `.$rootScope.<property_path>`: matching names
    /// in the map's own order, each name's references in the order added.
    pub fn find_root_scope_references_by_property(&self, property_path: &str) -> (r: Vec<SymbolReference>)
        ensures
            exists|e: Seq<(String, Vec<SymbolReference>)>| list_snapshot_of(e, self.refs())
                && r@ == flatten_suffixed(e, root_scope_suffix(property_path@)),
    {
        let suffix = concat(".$rootScope.", property_path);
        let entries = reference_lists_entries(&self.references);
        let ghost e = entries@;
        let r = flatten_suffixed_entries(entries, &suffix);
        proof { assert(list_snapshot_of(e, self.refs())); }
        r
    }

    /// `r` is a defined name ending with `.$rootScope.<property_path>`, or none when no
    /// defined name does.
    pub open spec fn root_scope_symbol_is(&self, property_path: Seq<char>, r: Option<Seq<char>>) -> bool {
        match r {
            Some(n) => self.defs().contains_key(n) && ends_with(n, root_scope_suffix(property_path)),
            None => forall|k: Seq<char>| self.defs().contains_key(k) ==> !ends_with(k, root_scope_suffix(property_path)),
        }
    }

    /// Some defined name ending with `.$rootScope.<property_path>`, or `None` when there
    /// is none (which one, when several match, depends on the map's own order).
    pub fn find_root_scope_symbol_name_by_property(&self, property_path: &str) -> (r: Option<String>)
        ensures
            self.root_scope_symbol_is(property_path@, match r { Some(n) => Some(n@), None => None }),
    {
        let suffix = concat(".$rootScope.", property_path);
        let entries = symbol_lists_entries(&self.definitions);
        let mut i: usize = 0;
        while i < entries.len()
            invariant
                i <= entries@.len(),
                list_snapshot_of(entries@, self.defs()),
                suffix@ == root_scope_suffix(property_path@),
                forall|j: int| 0 <= j < i ==> !ends_with(#[trigger] entries@[j].0@, suffix@),
            decreases entries.len() - i,
        {
            if str_ends_with(&entries[i].0, &suffix) {
                return Some(entries[i].0.clone());
            }
            i += 1;
        }
        proof {
            assert forall|k: Seq<char>| self.defs().contains_key(k) implies !ends_with(k, root_scope_suffix(property_path@)) by {
                let j = choose|j: int| 0 <= j < entries@.len() && #[trigger] entries@[j].0@ == k;
            }
        }
        None
    }

    /// `n` is the name of the first hit with the smallest span at `(line, col)` of `uri`.
    pub open spec fn symbol_at_is(&self, uri: Seq<char>, line: int, col: int, n: Seq<char>) -> bool {
        exists|i: int| is_first_smallest(self.hits_at(uri, line, col), i) && self.hits_at(uri, line, col)[i].0 == n
    }

    /// Every hit of `uri` at `(line, col)`, over the names the document contributed.
    pub open spec fn hits_at(&self, uri: Seq<char>, line: int, col: int) -> Seq<(Seq<char>, Span)> {
        position_hits(self.defs(), self.refs(), list_at(self.docs(), uri), uri, line, col)
    }

    /// The spans of `uri` that hold `(line, col)` can be measured.
    pub open spec fn hits_measurable(&self, uri: Seq<char>, line: int, col: int) -> bool {
        &&& forall|n: Seq<char>, i: int| self.defs().contains_key(n) && 0 <= i < self.defs()[n].len()
            && (#[trigger] self.defs()[n][i]).uri@ == uri && span_contains(self.defs()[n][i].name_span, line, col)
            ==> span_measurable(self.defs()[n][i].name_span)
        &&& forall|n: Seq<char>, i: int| self.refs().contains_key(n) && 0 <= i < self.refs()[n].len()
            && (#[trigger] self.refs()[n][i]).uri@ == uri && span_contains(self.refs()[n][i].span, line, col)
            ==> span_measurable(self.refs()[n][i].span)
    }

    /// The names `uri` contributed, in the order first contributed.
    pub fn get_document_names(&self, uri: &str) -> (r: Vec<String>)
        ensures
            views(r@) == list_at(self.docs(), uri@),
    {
        match name_lists_get(&self.document_symbols, uri) {
            Some(v) => v,
            None => {
                let v: Vec<String> = Vec::new();
                proof { assert(views(v@) =~= Seq::empty()); }
                v
            },
        }
    }

    /// The name of the symbol at `(line, col)` in `uri`: among the definitions (by name
    /// span) and references of the names the document contributed, the first one with the
    /// smallest span.
    pub fn find_symbol_at_position(&self, uri: &str, line: u32, col: u32) -> (r: Option<String>)
        requires
            self.hits_measurable(uri@, line as int, col as int),
        ensures
            match r {
                None => self.hits_at(uri@, line as int, col as int).len() == 0,
                Some(n) => self.symbol_at_is(uri@, line as int, col as int, n@),
            },
    {
        let names = self.get_document_names(uri);
        let ghost all = views(names@);
        let mut best: Option<(String, u32)> = None;
        let ghost mut bi: int = 0;
        let ghost mut acc: Seq<(Seq<char>, Span)> = Seq::empty();
        let mut k: usize = 0;
        while k < names.len()
            invariant
                k <= names@.len(),
                all == views(names@),
                all == list_at(self.docs(), uri@),
                acc == position_hits(self.defs(), self.refs(), all.take(k as int), uri@, line as int, col as int),
                best_of(best, acc, bi),
                self.hits_measurable(uri@, line as int, col as int),
            decreases names.len() - k,
        {
            let ghost nm = names@[k as int]@;
            let ghost acc0 = acc;
            let defs = self.get_definitions(&names[k]);
            let mut j: usize = 0;
            while j < defs.len()
                invariant
                    j <= defs@.len(),
                    defs@ == list_at(self.defs(), nm),
                    acc == acc0 + definition_hits(defs@.take(j as int), uri@, line as int, col as int),
                    best_of(best, acc, bi),
                    self.hits_measurable(uri@, line as int, col as int),
                decreases defs.len() - j,
            {
                proof { assert(defs@.take(j + 1).drop_last() =~= defs@.take(j as int)); }
                if str_eq(&defs[j].uri, uri) && defs[j].name_span.contains(line, col) {
                    proof { assert(self.defs().contains_key(nm) && self.defs()[nm][j as int] == defs@[j as int]); }
                    let size = defs[j].name_span.range_size();
                    let ghost e = (defs@[j as int].name@, defs@[j as int].name_span);
                    let Ghost(nbi) = consider_hit(&mut best, &defs[j].name, size, Ghost(acc), Ghost(bi), Ghost(e.1));
                    proof {
                        bi = nbi;
                        acc = acc.push(e);
                    }
                }
                j += 1;
            }
            proof { assert(defs@.take(j as int) =~= defs@); }
            let ghost acc1 = acc;
            let refs = self.get_references(&names[k]);
            let mut j: usize = 0;
            while j < refs.len()
                invariant
                    j <= refs@.len(),
                    refs@ == list_at(self.refs(), nm),
                    acc == acc1 + reference_hits(refs@.take(j as int), uri@, line as int, col as int),
                    best_of(best, acc, bi),
                    self.hits_measurable(uri@, line as int, col as int),
                decreases refs.len() - j,
            {
                proof { assert(refs@.take(j + 1).drop_last() =~= refs@.take(j as int)); }
                if str_eq(&refs[j].uri, uri) && refs[j].span.contains(line, col) {
                    proof { assert(self.refs().contains_key(nm) && self.refs()[nm][j as int] == refs@[j as int]); }
                    let size = refs[j].span.range_size();
                    let ghost e = (refs@[j as int].name@, refs@[j as int].span);
                    let Ghost(nbi) = consider_hit(&mut best, &refs[j].name, size, Ghost(acc), Ghost(bi), Ghost(e.1));
                    proof {
                        bi = nbi;
                        acc = acc.push(e);
                    }
                }
                j += 1;
            }
            proof {
                assert(refs@.take(j as int) =~= refs@);
                assert(all.take(k + 1).drop_last() =~= all.take(k as int));
                assert(all.take(k + 1).last() == nm);
            }
            k += 1;
        }
        proof {
            assert(all.take(k as int) =~= all);
            assert(acc == self.hits_at(uri@, line as int, col as int));
        }
        match best {
            Some(b) => {
                proof { assert(is_first_smallest(acc, bi) && acc[bi].0 == b.0@); }
                Some(b.0)
            },
            None => None,
        }
    }

    /// The definitions `uri` made (with `scope_only`, only its `$scope` properties and
    /// methods), name by name in the order the document contributed them.
    fn collect_definitions_for_uri(&self, uri: &str, scope_only: bool) -> (r: Vec<Symbol>)
        ensures
            r@ == definitions_in(self.defs(), list_at(self.docs(), uri@), uri@, scope_only),
    {
        let names = self.get_document_names(uri);
        let ghost all = views(names@);
        let mut r: Vec<Symbol> = Vec::new();
        let mut k: usize = 0;
        while k < names.len()
            invariant
                k <= names@.len(),
                all == views(names@),
                all == list_at(self.docs(), uri@),
                r@ == definitions_in(self.defs(), all.take(k as int), uri@, scope_only),
            decreases names.len() - k,
        {
            let ghost nm = names@[k as int]@;
            let ghost r0 = r@;
            let defs = self.get_definitions(&names[k]);
            let ghost list = defs@;
            let mut rest = defs;
            while rest.len() > 0
                invariant
                    rest@.len() <= list.len(),
                    rest@ == list.skip(list.len() - rest@.len()),
                    r@ == r0 + uri_symbols(list.take(list.len() - rest@.len()), uri@, scope_only),
                decreases rest.len(),
            {
                let ghost j = list.len() - rest@.len();
                let s = rest.remove(0);
                proof {
                    assert(list.take(j + 1).drop_last() =~= list.take(j));
                    assert(rest@ =~= list.skip(j + 1));
                }
                if str_eq(&s.uri, uri) && (!scope_only || s.kind == SymbolKind::ScopeProperty || s.kind == SymbolKind::ScopeMethod) {
                    r.push(s);
                }
            }
            proof {
                assert(list.take(list.len() as int) =~= list);
                assert(all.take(k + 1).drop_last() =~= all.take(k as int));
                assert(all.take(k + 1).last() == nm);
            }
            k += 1;
        }
        proof { assert(all.take(k as int) =~= all); }
        r
    }

    /// The definitions made in `uri`, name by name in the order the document contributed them.
    pub fn get_definitions_for_uri(&self, uri: &str) -> (r: Vec<Symbol>)
        ensures
            r@ == definitions_in(self.defs(), list_at(self.docs(), uri@), uri@, false),
    {
        self.collect_definitions_for_uri(uri, false)
    }

    /// The `$scope` properties and methods defined in `uri`.
    pub fn get_scope_definitions_for_js(&self, uri: &str) -> (r: Vec<Symbol>)
        ensures
            r@ == definitions_in(self.defs(), list_at(self.docs(), uri@), uri@, true),
    {
        self.collect_definitions_for_uri(uri, true)
    }

    /// Whether `name` has a definition made in `uri`.
    fn any_definition_in(&self, name: &str, uri: &str) -> (r: bool)
        ensures
            r == defined_in(self.defs(), name@, uri@),
    {
        let defs = self.get_definitions(name);
        let mut i: usize = 0;
        while i < defs.len()
            invariant
                i <= defs@.len(),
                defs@ == list_at(self.defs(), name@),
                forall|j: int| 0 <= j < i ==> defs@[j].uri@ != uri@,
            decreases defs.len() - i,
        {
            if str_eq(&defs[i].uri, uri) {
                proof { assert(list_at(self.defs(), name@)[i as int].uri@ == uri@); }
                return true;
            }
            i += 1;
        }
        false
    }

    /// The names `uri` contributed that it references, in the order contributed.
    pub fn get_reference_names_for_uri(&self, uri: &str) -> (r: Vec<String>)
        ensures
            views(r@) == list_at(self.docs(), uri@).filter(|n: Seq<char>| referenced_from(self.refs(), n, uri@)),
    {
        let names = self.get_document_names(uri);
        let ghost all = views(names@);
        let mut r: Vec<String> = Vec::new();
        let mut k: usize = 0;
        while k < names.len()
            invariant
                k <= names@.len(),
                all == views(names@),
                all == list_at(self.docs(), uri@),
                views(r@) == all.take(k as int).filter(|n: Seq<char>| referenced_from(self.refs(), n, uri@)),
            decreases names.len() - k,
        {
            proof {
                assert(all.take(k + 1).drop_last() =~= all.take(k as int));
                reveal_with_fuel(Seq::filter, 1);
            }
            let hit = self.any_reference_in(&names[k], uri, true);
            proof {
                if hit {
                    let i = choose|i: int| 0 <= i < list_at(self.refs(), all[k as int]).len()
                        && (list_at(self.refs(), all[k as int])[i].uri@ == uri@) == true;
                    assert(referenced_from(self.refs(), all[k as int], uri@));
                }
            }
            if hit {
                let ghost before = r@;
                r.push(names[k].clone());
                proof { assert(views(r@) =~= views(before).push(all[k as int])); }
            }
            k += 1;
        }
        proof { assert(all.take(k as int) =~= all); }
        r
    }

    /// The names `uri` contributed that it defines, in the order contributed.
    pub fn get_definition_names_for_uri(&self, uri: &str) -> (r: Vec<String>)
        ensures
            views(r@) == list_at(self.docs(), uri@).filter(|n: Seq<char>| defined_in(self.defs(), n, uri@)),
    {
        let names = self.get_document_names(uri);
        let ghost all = views(names@);
        let mut r: Vec<String> = Vec::new();
        let mut k: usize = 0;
        while k < names.len()
            invariant
                k <= names@.len(),
                all == views(names@),
                all == list_at(self.docs(), uri@),
                views(r@) == all.take(k as int).filter(|n: Seq<char>| defined_in(self.defs(), n, uri@)),
            decreases names.len() - k,
        {
            proof {
                assert(all.take(k + 1).drop_last() =~= all.take(k as int));
                reveal_with_fuel(Seq::filter, 1);
            }
            if self.any_definition_in(&names[k], uri) {
                let ghost before = r@;
                r.push(names[k].clone());
                proof { assert(views(r@) =~= views(before).push(all[k as int])); }
            }
            k += 1;
        }
        proof { assert(all.take(k as int) =~= all); }
        r
    }

    /// Calls `f` on each reference of `name`, in the order added.
    pub fn for_each_reference<F: FnMut(&SymbolReference)>(&self, name: &str, f: F)
        requires
            forall|g: F, x: &SymbolReference| #[trigger] g.requires((x,)),
    {
        let mut f = f;
        let refs = self.get_references(name);
        let mut i: usize = 0;
        while i < refs.len()
            invariant
                i <= refs@.len(),
                forall|g: F, x: &SymbolReference| #[trigger] g.requires((x,)),
            decreases refs.len() - i,
        {
            f(&refs[i]);
            i += 1;
        }
    }

    /// Whether some reference of `name` satisfies `f`; stops at the first that does.
    pub fn any_reference<F: Fn(&SymbolReference) -> bool>(&self, name: &str, f: F) -> (r: bool)
        requires
            forall|i: int| 0 <= i < list_at(self.refs(), name@).len()
                ==> f.requires((&#[trigger] list_at(self.refs(), name@)[i],)),
        ensures
            r ==> exists|i: int| 0 <= i < list_at(self.refs(), name@).len()
                && f.ensures((&#[trigger] list_at(self.refs(), name@)[i],), true),
            !r ==> forall|i: int| 0 <= i < list_at(self.refs(), name@).len()
                ==> f.ensures((&#[trigger] list_at(self.refs(), name@)[i],), false),
    {
        let refs = self.get_references(name);
        let mut i: usize = 0;
        while i < refs.len()
            invariant
                i <= refs@.len(),
                refs@ == list_at(self.refs(), name@),
                forall|j: int| 0 <= j < refs@.len() ==> f.requires((&#[trigger] refs@[j],)),
                forall|j: int| 0 <= j < i ==> f.ensures((&#[trigger] refs@[j],), false),
            decreases refs.len() - i,
        {
            if f(&refs[i]) {
                return true;
            }
            i += 1;
        }
        false
    }

    /// Drops everything `uri` contributed: the document's name list goes, and each of
    /// its names loses the definitions and references made in `uri`; a name left with
    /// none loses its entry.
    pub fn clear_document(&mut self, uri: &str)
        requires
            old(self).wf(),
        ensures
            final(self).wf(),
            final(self).docs() == old(self).docs().remove(uri@),
            final(self).defs() == drop_document(old(self).defs(), list_at(old(self).docs(), uri@).to_set(), symbol_outside(uri@)),
            final(self).refs() == drop_document(old(self).refs(), list_at(old(self).docs(), uri@).to_set(), reference_outside(uri@)),
    {
        let names = self.get_document_names(uri);
        let ghost all = views(names@);
        let ghost d0 = self.defs();
        let ghost r0 = self.refs();
        let ghost raw = name_lists(self.document_symbols);
        name_lists_remove(&mut self.document_symbols, uri);
        proof {
            assert(self.docs() =~= old(self).docs().remove(uri@));
            assert(drop_document(d0, all.take(0).to_set(), symbol_outside(uri@)) =~= d0);
            assert(drop_document(r0, all.take(0).to_set(), reference_outside(uri@)) =~= r0);
        }
        let mut k: usize = 0;
        while k < names.len()
            invariant
                k <= names@.len(),
                all == views(names@),
                all == list_at(old(self).docs(), uri@),
                all.no_duplicates(),
                d0 == old(self).defs(),
                r0 == old(self).refs(),
                self.docs() == old(self).docs().remove(uri@),
                self.defs() == drop_document(d0, all.take(k as int).to_set(), symbol_outside(uri@)),
                self.refs() == drop_document(r0, all.take(k as int).to_set(), reference_outside(uri@)),
            decreases names.len() - k,
        {
            let ghost nm = all[k as int];
            let ghost before = all.take(k as int).to_set();
            proof {
                let t0 = all.take(k as int);
                let t1 = all.take(k + 1);
                assert forall|x: Seq<char>| t1.contains(x) <==> before.insert(nm).contains(x) by {
                    if t1.contains(x) {
                        let j = choose|j: int| 0 <= j < t1.len() && t1[j] == x;
                        if j < k {
                            assert(t0[j] == x);
                        }
                    }
                    if t0.contains(x) {
                        let j = choose|j: int| 0 <= j < t0.len() && t0[j] == x;
                        assert(t1[j] == x);
                    }
                    if x == nm {
                        assert(t1[k as int] == nm);
                    }
                }
                assert(all.take(k + 1).to_set() =~= before.insert(nm));
                assert(!before.contains(nm)) by {
                    if before.contains(nm) {
                        let t0 = all.take(k as int);
                        let j = choose|j: int| 0 <= j < t0.len() && t0[j] == nm;
                        assert(all[j] == all[k as int]);
                    }
                }
            }
            match symbol_lists_get(&self.definitions, &names[k]) {
                Some(list) => {
                    let kept = symbols_outside(list, uri);
                    if kept.len() == 0 {
                        symbol_lists_remove(&mut self.definitions, &names[k]);
                    } else {
                        symbol_lists_insert(&mut self.definitions, names[k].clone(), kept);
                    }
                },
                None => {},
            }
            proof {
                assert(self.defs() =~= drop_document(d0, before.insert(nm), symbol_outside(uri@)));
            }
            match reference_lists_get(&self.references, &names[k]) {
                Some(list) => {
                    let kept = references_outside(list, uri);
                    if kept.len() == 0 {
                        reference_lists_remove(&mut self.references, &names[k]);
                    } else {
                        reference_lists_insert(&mut self.references, names[k].clone(), kept);
                    }
                },
                None => {},
            }
            proof {
                assert(self.refs() =~= drop_document(r0, before.insert(nm), reference_outside(uri@)));
            }
            k += 1;
        }
        proof {
            assert(all.take(k as int) =~= all);
            lemma_clear_keeps_wf(d0, r0, old(self).docs(), uri@);
        }
    }

    /// Empties the store.
    pub fn clear_all(&mut self)
        ensures
            final(self).wf(),
            final(self).defs() =~= Map::empty(),
            final(self).refs() =~= Map::empty(),
            final(self).docs() =~= Map::empty(),
    {
        self.definitions = symbol_lists_new();
        self.references = reference_lists_new();
        self.document_symbols = name_lists_new();
        proof { assert(self.docs() =~= Map::empty()); }
    }
}

/// Keeps the symbols not defined in `uri`.
pub open spec fn symbol_outside(uri: Seq<char>) -> spec_fn(Symbol) -> bool {
    |s: Symbol| s.uri@ != uri
}

/// Keeps the references not made in `uri`.
pub open spec fn reference_outside(uri: Seq<char>) -> spec_fn(SymbolReference) -> bool {
    |r: SymbolReference| r.uri@ != uri
}

/// The symbols of `list` not defined in `uri`, in order.
fn symbols_outside(list: Vec<Symbol>, uri: &str) -> (r: Vec<Symbol>)
    ensures
        r@ == list@.filter(symbol_outside(uri@)),
{
    let ghost all = list@;
    let mut rest = list;
    let mut r: Vec<Symbol> = Vec::new();
    while rest.len() > 0
        invariant
            rest@.len() <= all.len(),
            rest@ == all.skip(all.len() - rest@.len()),
            r@ == all.take(all.len() - rest@.len()).filter(symbol_outside(uri@)),
        decreases rest.len(),
    {
        let ghost k = all.len() - rest@.len();
        let s = rest.remove(0);
        proof {
            assert(all.take(k + 1).drop_last() =~= all.take(k));
            assert(rest@ =~= all.skip(k + 1));
            reveal_with_fuel(Seq::filter, 1);
        }
        if !str_eq(&s.uri, uri) {
            r.push(s);
        }
    }
    proof { assert(all.take(all.len() as int) =~= all); }
    r
}

/// The references of `list` not made in `uri`, in order.
fn references_outside(list: Vec<SymbolReference>, uri: &str) -> (r: Vec<SymbolReference>)
    ensures
        r@ == list@.filter(reference_outside(uri@)),
{
    let ghost all = list@;
    let mut rest = list;
    let mut r: Vec<SymbolReference> = Vec::new();
    while rest.len() > 0
        invariant
            rest@.len() <= all.len(),
            rest@ == all.skip(all.len() - rest@.len()),
            r@ == all.take(all.len() - rest@.len()).filter(reference_outside(uri@)),
        decreases rest.len(),
    {
        let ghost k = all.len() - rest@.len();
        let x = rest.remove(0);
        proof {
            assert(all.take(k + 1).drop_last() =~= all.take(k));
            assert(rest@ =~= all.skip(k + 1));
            reveal_with_fuel(Seq::filter, 1);
        }
        if !str_eq(&x.uri, uri) {
            r.push(x);
        }
    }
    proof { assert(all.take(all.len() as int) =~= all); }
    r
}

/// Dropping a document's contributions keeps the store consistent.
proof fn lemma_clear_keeps_wf(
    defs: Map<Seq<char>, Seq<Symbol>>,
    refs: Map<Seq<char>, Seq<SymbolReference>>,
    docs: Map<Seq<char>, Seq<Seq<char>>>,
    uri: Seq<char>,
)
    requires
        definitions_wf(defs, refs, docs),
    ensures
        definitions_wf(
            drop_document(defs, list_at(docs, uri).to_set(), symbol_outside(uri)),
            drop_document(refs, list_at(docs, uri).to_set(), reference_outside(uri)),
            docs.remove(uri),
        ),
{
    let names = list_at(docs, uri).to_set();
    let d = drop_document(defs, names, symbol_outside(uri));
    let r = drop_document(refs, names, reference_outside(uri));
    let dc = docs.remove(uri);
    assert forall|n: Seq<char>, i: int| d.contains_key(n) && 0 <= i < d[n].len()
        implies (#[trigger] d[n][i]).name@ == n && dc.contains_key(d[n][i].uri@) && dc[d[n][i].uri@].contains(n) by {
        if names.contains(n) {
            assert(defs[n].filter(symbol_outside(uri))[i] == d[n][i]);
            defs[n].lemma_filter_contains_rev(symbol_outside(uri), d[n][i]);
            defs[n].lemma_filter_pred(symbol_outside(uri), i);
            let j = choose|j: int| 0 <= j < defs[n].len() && defs[n][j] == d[n][i];
            assert(defs[n][j].name@ == n);
        } else {
            assert(defs[n][i].uri@ != uri) by {
                if defs[n][i].uri@ == uri {
                    assert(docs[uri].contains(n));
                }
            }
        }
    }
    assert forall|n: Seq<char>, i: int| r.contains_key(n) && 0 <= i < r[n].len()
        implies (#[trigger] r[n][i]).name@ == n && dc.contains_key(r[n][i].uri@) && dc[r[n][i].uri@].contains(n) by {
        if names.contains(n) {
            assert(refs[n].filter(reference_outside(uri))[i] == r[n][i]);
            refs[n].lemma_filter_contains_rev(reference_outside(uri), r[n][i]);
            refs[n].lemma_filter_pred(reference_outside(uri), i);
            let j = choose|j: int| 0 <= j < refs[n].len() && refs[n][j] == r[n][i];
            assert(refs[n][j].name@ == n);
        } else {
            assert(refs[n][i].uri@ != uri) by {
                if refs[n][i].uri@ == uri {
                    assert(docs[uri].contains(n));
                }
            }
        }
    }
}

/// Once a definition is added, the definitions of its name hold one of its document at
/// its start, and every other name keeps its definitions.
pub proof fn law_added_definition_is_found(defs: Map<Seq<char>, Seq<Symbol>>, s: Symbol)
    ensures
        has_same_definition(list_at(with_definition(defs, s), s.name@), s),
        forall|n: Seq<char>| n != s.name@ ==> list_at(with_definition(defs, s), n) == list_at(defs, n),
        list_at(defs, s.name@).is_prefix_of(list_at(with_definition(defs, s), s.name@)),
{
    let l = list_at(defs, s.name@);
    if !has_same_definition(l, s) {
        let l2 = l.push(s);
        assert(l2[l.len() as int] == s);
        assert(list_at(with_definition(defs, s), s.name@) == l2);
    }
    assert(l.is_prefix_of(list_at(with_definition(defs, s), s.name@)));
}

/// Adding the same definition twice leaves what adding it once leaves.
pub proof fn law_adding_definition_twice_is_adding_once(defs: Map<Seq<char>, Seq<Symbol>>, s: Symbol)
    ensures
        with_definition(with_definition(defs, s), s) == with_definition(defs, s),
{
    law_added_definition_is_found(defs, s);
}

/// Once a reference is added, the references of its name hold one of its document at
/// its start, and every other name keeps its references.
pub proof fn law_added_reference_is_found(refs: Map<Seq<char>, Seq<SymbolReference>>, r: SymbolReference)
    ensures
        has_same_reference(list_at(with_reference(refs, r), r.name@), r),
        forall|n: Seq<char>| n != r.name@ ==> list_at(with_reference(refs, r), n) == list_at(refs, n),
        list_at(refs, r.name@).is_prefix_of(list_at(with_reference(refs, r), r.name@)),
{
    let l = list_at(refs, r.name@);
    if !has_same_reference(l, r) {
        let l2 = l.push(r);
        assert(l2[l.len() as int] == r);
        assert(list_at(with_reference(refs, r), r.name@) == l2);
    }
    assert(l.is_prefix_of(list_at(with_reference(refs, r), r.name@)));
}

/// Adding the same reference twice leaves what adding it once leaves.
pub proof fn law_adding_reference_twice_is_adding_once(refs: Map<Seq<char>, Seq<SymbolReference>>, r: SymbolReference)
    ensures
        with_reference(with_reference(refs, r), r) == with_reference(refs, r),
{
    law_added_reference_is_found(refs, r);
}

/// Clearing a document leaves none of its definitions or references, and keeps every
/// definition and reference made elsewhere.
pub proof fn law_clear_document_drops_only_that_document(
    defs: Map<Seq<char>, Seq<Symbol>>,
    refs: Map<Seq<char>, Seq<SymbolReference>>,
    docs: Map<Seq<char>, Seq<Seq<char>>>,
    uri: Seq<char>,
)
    requires
        definitions_wf(defs, refs, docs),
    ensures
        ({
            let d = drop_document(defs, list_at(docs, uri).to_set(), symbol_outside(uri));
            let r = drop_document(refs, list_at(docs, uri).to_set(), reference_outside(uri));
            &&& forall|n: Seq<char>, i: int| d.contains_key(n) && 0 <= i < d[n].len() ==> (#[trigger] d[n][i]).uri@ != uri
            &&& forall|n: Seq<char>, i: int| r.contains_key(n) && 0 <= i < r[n].len() ==> (#[trigger] r[n][i]).uri@ != uri
            &&& forall|n: Seq<char>, i: int| defs.contains_key(n) && 0 <= i < defs[n].len() && (#[trigger] defs[n][i]).uri@ != uri
                ==> d.contains_key(n) && d[n].contains(defs[n][i])
            &&& forall|n: Seq<char>, i: int| refs.contains_key(n) && 0 <= i < refs[n].len() && (#[trigger] refs[n][i]).uri@ != uri
                ==> r.contains_key(n) && r[n].contains(refs[n][i])
            &&& forall|n: Seq<char>| #[trigger] list_at(d, n) == list_at(defs, n).filter(symbol_outside(uri))
            &&& forall|n: Seq<char>| #[trigger] list_at(r, n) == list_at(refs, n).filter(reference_outside(uri))
            &&& forall|n: Seq<char>| d.contains_key(n) <==> #[trigger] list_at(d, n).len() > 0
        }),
{
    let names = list_at(docs, uri).to_set();
    let d = drop_document(defs, names, symbol_outside(uri));
    let r = drop_document(refs, names, reference_outside(uri));
    assert forall|n: Seq<char>, i: int| d.contains_key(n) && 0 <= i < d[n].len() implies (#[trigger] d[n][i]).uri@ != uri by {
        if names.contains(n) {
            defs[n].lemma_filter_pred(symbol_outside(uri), i);
        } else if defs[n][i].uri@ == uri {
            assert(docs[uri].contains(n));
        }
    }
    assert forall|n: Seq<char>, i: int| r.contains_key(n) && 0 <= i < r[n].len() implies (#[trigger] r[n][i]).uri@ != uri by {
        if names.contains(n) {
            refs[n].lemma_filter_pred(reference_outside(uri), i);
        } else if refs[n][i].uri@ == uri {
            assert(docs[uri].contains(n));
        }
    }
    assert forall|n: Seq<char>, i: int| defs.contains_key(n) && 0 <= i < defs[n].len() && (#[trigger] defs[n][i]).uri@ != uri
        implies d.contains_key(n) && d[n].contains(defs[n][i]) by {
        if names.contains(n) {
            defs[n].lemma_filter_contains(symbol_outside(uri), i);
        }
    }
    assert forall|n: Seq<char>, i: int| refs.contains_key(n) && 0 <= i < refs[n].len() && (#[trigger] refs[n][i]).uri@ != uri
        implies r.contains_key(n) && r[n].contains(refs[n][i]) by {
        if names.contains(n) {
            refs[n].lemma_filter_contains(reference_outside(uri), i);
        }
    }
    assert forall|n: Seq<char>| #[trigger] list_at(d, n) == list_at(defs, n).filter(symbol_outside(uri)) by {
        if !names.contains(n) {
            if defs.contains_key(n) {
                assert forall|i: int| 0 <= i < defs[n].len() implies #[trigger] symbol_outside(uri)(defs[n][i]) by {
                    if defs[n][i].uri@ == uri {
                        assert(docs[uri].contains(n));
                    }
                }
                lemma_filter_keeps_all(defs[n], symbol_outside(uri));
            } else {
                lemma_filter_keeps_all(Seq::<Symbol>::empty(), symbol_outside(uri));
            }
        } else if !defs.contains_key(n) {
            lemma_filter_keeps_all(Seq::<Symbol>::empty(), symbol_outside(uri));
        }
    }
    assert forall|n: Seq<char>| #[trigger] list_at(r, n) == list_at(refs, n).filter(reference_outside(uri)) by {
        if !names.contains(n) {
            if refs.contains_key(n) {
                assert forall|i: int| 0 <= i < refs[n].len() implies #[trigger] reference_outside(uri)(refs[n][i]) by {
                    if refs[n][i].uri@ == uri {
                        assert(docs[uri].contains(n));
                    }
                }
                lemma_filter_keeps_all(refs[n], reference_outside(uri));
            } else {
                lemma_filter_keeps_all(Seq::<SymbolReference>::empty(), reference_outside(uri));
            }
        } else if !refs.contains_key(n) {
            lemma_filter_keeps_all(Seq::<SymbolReference>::empty(), reference_outside(uri));
        }
    }
}


/// The definition hits of `s` are its definitions of `uri` whose name span holds the
/// position.
proof fn lemma_definition_hits(s: Seq<Symbol>, uri: Seq<char>, line: int, col: int)
    ensures
        forall|h: (Seq<char>, Span)| #[trigger] definition_hits(s, uri, line, col).contains(h) <==>
            exists|i: int| 0 <= i < s.len() && (#[trigger] s[i]).uri@ == uri && span_contains(s[i].name_span, line, col)
                && h == (s[i].name@, s[i].name_span),
    decreases s.len(),
{
    if s.len() > 0 {
        lemma_definition_hits(s.drop_last(), uri, line, col);
        let rest = definition_hits(s.drop_last(), uri, line, col);
        let x = s.last();
        assert forall|h: (Seq<char>, Span)| #[trigger] definition_hits(s, uri, line, col).contains(h) <==>
            exists|i: int| 0 <= i < s.len() && (#[trigger] s[i]).uri@ == uri && span_contains(s[i].name_span, line, col)
                && h == (s[i].name@, s[i].name_span) by {
            if definition_hits(s, uri, line, col).contains(h) {
                if rest.contains(h) {
                    let i = choose|i: int| 0 <= i < s.drop_last().len() && (#[trigger] s.drop_last()[i]).uri@ == uri
                        && span_contains(s.drop_last()[i].name_span, line, col) && h == (s.drop_last()[i].name@, s.drop_last()[i].name_span);
                    assert(s[i] == s.drop_last()[i]);
                } else {
                    let j = choose|j: int| 0 <= j < definition_hits(s, uri, line, col).len() && definition_hits(s, uri, line, col)[j] == h;
                    assert(j == rest.len());
                    assert(s[s.len() - 1] == x);
                }
            }
            if exists|i: int| 0 <= i < s.len() && (#[trigger] s[i]).uri@ == uri && span_contains(s[i].name_span, line, col)
                && h == (s[i].name@, s[i].name_span) {
                let i = choose|i: int| 0 <= i < s.len() && (#[trigger] s[i]).uri@ == uri && span_contains(s[i].name_span, line, col)
                    && h == (s[i].name@, s[i].name_span);
                if i < s.len() - 1 {
                    assert(s.drop_last()[i] == s[i]);
                    assert(rest.contains(h));
                    let j = choose|j: int| 0 <= j < rest.len() && rest[j] == h;
                    assert(definition_hits(s, uri, line, col)[j] == h);
                } else {
                    assert(definition_hits(s, uri, line, col)[rest.len() as int] == h);
                }
            }
        }
    }
}

/// The reference hits of `s` are its references from `uri` whose span holds the position.
proof fn lemma_reference_hits(s: Seq<SymbolReference>, uri: Seq<char>, line: int, col: int)
    ensures
        forall|h: (Seq<char>, Span)| #[trigger] reference_hits(s, uri, line, col).contains(h) <==>
            exists|i: int| 0 <= i < s.len() && (#[trigger] s[i]).uri@ == uri && span_contains(s[i].span, line, col)
                && h == (s[i].name@, s[i].span),
    decreases s.len(),
{
    if s.len() > 0 {
        lemma_reference_hits(s.drop_last(), uri, line, col);
        let rest = reference_hits(s.drop_last(), uri, line, col);
        let x = s.last();
        assert forall|h: (Seq<char>, Span)| #[trigger] reference_hits(s, uri, line, col).contains(h) <==>
            exists|i: int| 0 <= i < s.len() && (#[trigger] s[i]).uri@ == uri && span_contains(s[i].span, line, col)
                && h == (s[i].name@, s[i].span) by {
            if reference_hits(s, uri, line, col).contains(h) {
                if rest.contains(h) {
                    let i = choose|i: int| 0 <= i < s.drop_last().len() && (#[trigger] s.drop_last()[i]).uri@ == uri
                        && span_contains(s.drop_last()[i].span, line, col) && h == (s.drop_last()[i].name@, s.drop_last()[i].span);
                    assert(s[i] == s.drop_last()[i]);
                } else {
                    let j = choose|j: int| 0 <= j < reference_hits(s, uri, line, col).len() && reference_hits(s, uri, line, col)[j] == h;
                    assert(j == rest.len());
                    assert(s[s.len() - 1] == x);
                }
            }
            if exists|i: int| 0 <= i < s.len() && (#[trigger] s[i]).uri@ == uri && span_contains(s[i].span, line, col)
                && h == (s[i].name@, s[i].span) {
                let i = choose|i: int| 0 <= i < s.len() && (#[trigger] s[i]).uri@ == uri && span_contains(s[i].span, line, col)
                    && h == (s[i].name@, s[i].span);
                if i < s.len() - 1 {
                    assert(s.drop_last()[i] == s[i]);
                    assert(rest.contains(h));
                    let j = choose|j: int| 0 <= j < rest.len() && rest[j] == h;
                    assert(reference_hits(s, uri, line, col)[j] == h);
                } else {
                    assert(reference_hits(s, uri, line, col)[rest.len() as int] == h);
                }
            }
        }
    }
}

/// The hits over `names` are the definition and reference hits of one of the names.
proof fn lemma_position_hits(
    defs: Map<Seq<char>, Seq<Symbol>>,
    refs: Map<Seq<char>, Seq<SymbolReference>>,
    names: Seq<Seq<char>>,
    uri: Seq<char>,
    line: int,
    col: int,
)
    ensures
        forall|h: (Seq<char>, Span)| #[trigger] position_hits(defs, refs, names, uri, line, col).contains(h) <==>
            exists|k: int| 0 <= k < names.len() && (definition_hits(list_at(defs, #[trigger] names[k]), uri, line, col).contains(h)
                || reference_hits(list_at(refs, names[k]), uri, line, col).contains(h)),
    decreases names.len(),
{
    if names.len() > 0 {
        lemma_position_hits(defs, refs, names.drop_last(), uri, line, col);
        let a = position_hits(defs, refs, names.drop_last(), uri, line, col);
        let b = definition_hits(list_at(defs, names.last()), uri, line, col);
        let c = reference_hits(list_at(refs, names.last()), uri, line, col);
        assert forall|h: (Seq<char>, Span)| #[trigger] position_hits(defs, refs, names, uri, line, col).contains(h) <==>
            exists|k: int| 0 <= k < names.len() && (definition_hits(list_at(defs, #[trigger] names[k]), uri, line, col).contains(h)
                || reference_hits(list_at(refs, names[k]), uri, line, col).contains(h)) by {
            let all = a + b + c;
            assert(position_hits(defs, refs, names, uri, line, col) == all);
            if all.contains(h) {
                let j = choose|j: int| 0 <= j < all.len() && all[j] == h;
                if j < a.len() {
                    assert(a[j] == h);
                    assert(a.contains(h));
                    let k = choose|k: int| 0 <= k < names.drop_last().len() && (definition_hits(list_at(defs, #[trigger] names.drop_last()[k]), uri, line, col).contains(h)
                        || reference_hits(list_at(refs, names.drop_last()[k]), uri, line, col).contains(h));
                    assert(names[k] == names.drop_last()[k]);
                } else if j < a.len() + b.len() {
                    assert(b[j - a.len()] == h);
                    assert(names[names.len() - 1] == names.last());
                } else {
                    assert(c[j - a.len() - b.len()] == h);
                    assert(names[names.len() - 1] == names.last());
                }
            }
            if exists|k: int| 0 <= k < names.len() && (definition_hits(list_at(defs, #[trigger] names[k]), uri, line, col).contains(h)
                || reference_hits(list_at(refs, names[k]), uri, line, col).contains(h)) {
                let k = choose|k: int| 0 <= k < names.len() && (definition_hits(list_at(defs, #[trigger] names[k]), uri, line, col).contains(h)
                    || reference_hits(list_at(refs, names[k]), uri, line, col).contains(h));
                if k < names.len() - 1 {
                    assert(names.drop_last()[k] == names[k]);
                    assert(a.contains(h));
                    let j = choose|j: int| 0 <= j < a.len() && a[j] == h;
                    assert(all[j] == h);
                } else if b.contains(h) {
                    let j = choose|j: int| 0 <= j < b.len() && b[j] == h;
                    assert(all[a.len() + j] == h);
                } else {
                    let j = choose|j: int| 0 <= j < c.len() && c[j] == h;
                    assert(all[a.len() + b.len() + j] == h);
                }
            }
        }
    }
}

/// `h` is a definition of `uri` whose name span, or a reference from `uri` whose span,
/// holds `(line, col)`, as its name and that span.
pub open spec fn spans_at(defs: Map<Seq<char>, Seq<Symbol>>, refs: Map<Seq<char>, Seq<SymbolReference>>, uri: Seq<char>, line: int, col: int, h: (Seq<char>, Span)) -> bool {
    ||| exists|n: Seq<char>, i: int| defs.contains_key(n) && 0 <= i < defs[n].len() && (#[trigger] defs[n][i]).uri@ == uri
        && span_contains(defs[n][i].name_span, line, col) && h == (n, defs[n][i].name_span)
    ||| exists|n: Seq<char>, i: int| refs.contains_key(n) && 0 <= i < refs[n].len() && (#[trigger] refs[n][i]).uri@ == uri
        && span_contains(refs[n][i].span, line, col) && h == (n, refs[n][i].span)
}

/// The lookup at a position of a document sees exactly the definitions of that document
/// whose name span holds it and the references from it whose span holds it: it finds
/// nothing just when there is none, and a name it finds has one of them whose span no
/// other is strictly smaller than.
pub proof fn law_position_lookup_sees_every_span(store: &DefinitionStore, uri: Seq<char>, line: int, col: int)
    requires
        store.wf(),
    ensures
        forall|h: (Seq<char>, Span)| #[trigger] store.hits_at(uri, line, col).contains(h)
            <==> spans_at(store.defs(), store.refs(), uri, line, col, h),
        store.hits_at(uri, line, col).len() == 0 <==> !exists|h: (Seq<char>, Span)| spans_at(store.defs(), store.refs(), uri, line, col, h),
        forall|n: Seq<char>| #[trigger] store.symbol_at_is(uri, line, col, n) ==> exists|sp: Span|
            spans_at(store.defs(), store.refs(), uri, line, col, (n, sp))
            && forall|h: (Seq<char>, Span)| spans_at(store.defs(), store.refs(), uri, line, col, h) ==> span_size(sp) <= #[trigger] span_size(h.1),
{
    let defs = store.defs();
    let refs = store.refs();
    let docs = store.docs();
    let names = list_at(docs, uri);
    let hs = store.hits_at(uri, line, col);
    lemma_position_hits(defs, refs, names, uri, line, col);
    assert forall|h: (Seq<char>, Span)| #[trigger] hs.contains(h) <==> spans_at(defs, refs, uri, line, col, h) by {
        if hs.contains(h) {
            let k = choose|k: int| 0 <= k < names.len() && (definition_hits(list_at(defs, #[trigger] names[k]), uri, line, col).contains(h)
                || reference_hits(list_at(refs, names[k]), uri, line, col).contains(h));
            lemma_definition_hits(list_at(defs, names[k]), uri, line, col);
            lemma_reference_hits(list_at(refs, names[k]), uri, line, col);
            if definition_hits(list_at(defs, names[k]), uri, line, col).contains(h) {
                let i = choose|i: int| 0 <= i < list_at(defs, names[k]).len() && (#[trigger] list_at(defs, names[k])[i]).uri@ == uri
                    && span_contains(list_at(defs, names[k])[i].name_span, line, col)
                    && h == (list_at(defs, names[k])[i].name@, list_at(defs, names[k])[i].name_span);
                assert(defs.contains_key(names[k]));
                assert(defs[names[k]][i].name@ == names[k]);
            } else {
                let i = choose|i: int| 0 <= i < list_at(refs, names[k]).len() && (#[trigger] list_at(refs, names[k])[i]).uri@ == uri
                    && span_contains(list_at(refs, names[k])[i].span, line, col)
                    && h == (list_at(refs, names[k])[i].name@, list_at(refs, names[k])[i].span);
                assert(refs.contains_key(names[k]));
                assert(refs[names[k]][i].name@ == names[k]);
            }
        }
        if spans_at(defs, refs, uri, line, col, h) {
            if exists|n: Seq<char>, i: int| defs.contains_key(n) && 0 <= i < defs[n].len() && (#[trigger] defs[n][i]).uri@ == uri
                && span_contains(defs[n][i].name_span, line, col) && h == (n, defs[n][i].name_span) {
                let (n, i) = choose|n: Seq<char>, i: int| defs.contains_key(n) && 0 <= i < defs[n].len() && (#[trigger] defs[n][i]).uri@ == uri
                    && span_contains(defs[n][i].name_span, line, col) && h == (n, defs[n][i].name_span);
                assert(docs[uri].contains(n));
                let k = choose|k: int| 0 <= k < names.len() && names[k] == n;
                lemma_definition_hits(list_at(defs, names[k]), uri, line, col);
                assert(defs[n][i].name@ == n);
                assert(definition_hits(list_at(defs, names[k]), uri, line, col).contains(h));
            } else {
                let (n, i) = choose|n: Seq<char>, i: int| refs.contains_key(n) && 0 <= i < refs[n].len() && (#[trigger] refs[n][i]).uri@ == uri
                    && span_contains(refs[n][i].span, line, col) && h == (n, refs[n][i].span);
                assert(docs[uri].contains(n));
                let k = choose|k: int| 0 <= k < names.len() && names[k] == n;
                lemma_reference_hits(list_at(refs, names[k]), uri, line, col);
                assert(refs[n][i].name@ == n);
                assert(reference_hits(list_at(refs, names[k]), uri, line, col).contains(h));
            }
        }
    }
    if hs.len() > 0 {
        assert(hs.contains(hs[0]));
    }
    if exists|h: (Seq<char>, Span)| spans_at(defs, refs, uri, line, col, h) {
        let h = choose|h: (Seq<char>, Span)| spans_at(defs, refs, uri, line, col, h);
        assert(hs.contains(h));
    }
    assert forall|n: Seq<char>| #[trigger] store.symbol_at_is(uri, line, col, n) implies exists|sp: Span|
        spans_at(defs, refs, uri, line, col, (n, sp))
        && forall|h: (Seq<char>, Span)| spans_at(defs, refs, uri, line, col, h) ==> span_size(sp) <= #[trigger] span_size(h.1) by {
        let i = choose|i: int| is_first_smallest(hs, i) && hs[i].0 == n;
        let sp = hs[i].1;
        assert(hs.contains(hs[i]));
        assert((n, sp) == hs[i]);
        assert forall|h: (Seq<char>, Span)| spans_at(defs, refs, uri, line, col, h) implies span_size(sp) <= #[trigger] span_size(h.1) by {
            assert(hs.contains(h));
            let j = choose|j: int| 0 <= j < hs.len() && hs[j] == h;
            assert(span_size(hs[i].1) <= span_size(hs[j].1));
        }
    }
}

/// A filter that every element passes keeps the sequence whole.
proof fn lemma_filter_keeps_all<T>(s: Seq<T>, p: spec_fn(T) -> bool)
    requires
        forall|i: int| 0 <= i < s.len() ==> #[trigger] p(s[i]),
    ensures
        s.filter(p) == s,
    decreases s.len(),
{
    reveal_with_fuel(Seq::filter, 1);
    if s.len() > 0 {
        assert forall|i: int| 0 <= i < s.drop_last().len() implies #[trigger] p(s.drop_last()[i]) by {
            assert(s.drop_last()[i] == s[i]);
        }
        lemma_filter_keeps_all(s.drop_last(), p);
        assert(p(s[s.len() - 1]));
        assert(s.drop_last().push(s.last()) =~= s);
    } else {
        assert(s.filter(p) =~= s);
    }
}

/// Keeps `best` the first smallest hit once the hit `(name, span)` of size `size` is
/// appended; returns where the best hit now stands.
fn consider_hit(
    best: &mut Option<(String, u32)>,
    name: &String,
    size: u32,
    Ghost(acc): Ghost<Seq<(Seq<char>, Span)>>,
    Ghost(bi): Ghost<int>,
    Ghost(span): Ghost<Span>,
) -> (nbi: Ghost<int>)
    requires
        best_of(*old(best), acc, bi),
        span_size(span) == size,
    ensures
        best_of(*final(best), acc.push((name@, span)), nbi@),
{
    let ghost h = acc.push((name@, span));
    let replace = match best {
        None => true,
        Some(b) => size < b.1,
    };
    if replace {
        *best = Some((name.clone(), size));
        proof {
            assert forall|j: int| 0 <= j < h.len() implies span_size(h[acc.len() as int].1) <= span_size(#[trigger] h[j].1) by {
                if j < acc.len() {
                    assert(h[j] == acc[j]);
                }
            }
            assert forall|j: int| 0 <= j < acc.len() implies span_size(h[acc.len() as int].1) < span_size(#[trigger] h[j].1) by {
                assert(h[j] == acc[j]);
            }
        }
        Ghost(acc.len() as int)
    } else {
        proof {
            assert forall|j: int| 0 <= j < h.len() implies span_size(h[bi].1) <= span_size(#[trigger] h[j].1) by {
                if j < acc.len() {
                    assert(h[j] == acc[j]);
                }
            }
            assert forall|j: int| 0 <= j < bi implies span_size(h[bi].1) < span_size(#[trigger] h[j].1) by {
                assert(h[j] == acc[j]);
            }
        }
        Ghost(bi)
    }
}

/// The `$rootScope` properties and methods of `v`, in order.
fn keep_root_scope_kinds(v: Vec<Symbol>) -> (r: Vec<Symbol>)
    ensures
        r@ == v@.filter(|s: Symbol| is_root_scope_kind(s.kind)),
{
    let ghost all = v@;
    let mut rest = v;
    let mut r: Vec<Symbol> = Vec::new();
    while rest.len() > 0
        invariant
            rest@.len() <= all.len(),
            rest@ == all.skip(all.len() - rest@.len()),
            r@ == all.take(all.len() - rest@.len()).filter(|s: Symbol| is_root_scope_kind(s.kind)),
        decreases rest.len(),
    {
        let ghost k = all.len() - rest@.len();
        let s = rest.remove(0);
        proof {
            assert(all.take(k + 1).drop_last() =~= all.take(k));
            assert(rest@ =~= all.skip(k + 1));
            reveal_with_fuel(Seq::filter, 1);
        }
        if s.kind == SymbolKind::RootScopeProperty || s.kind == SymbolKind::RootScopeMethod {
            r.push(s);
        }
    }
    proof { assert(all.take(all.len() as int) =~= all); }
    r
}

/// The component bindings of `v` named under `prefix`, in order.
fn keep_bindings_of(v: Vec<Symbol>, prefix: &str) -> (r: Vec<Symbol>)
    ensures
        r@ == v@.filter(|s: Symbol| is_binding_of(s, prefix@)),
{
    let ghost all = v@;
    let mut rest = v;
    let mut r: Vec<Symbol> = Vec::new();
    while rest.len() > 0
        invariant
            rest@.len() <= all.len(),
            rest@ == all.skip(all.len() - rest@.len()),
            r@ == all.take(all.len() - rest@.len()).filter(|s: Symbol| is_binding_of(s, prefix@)),
        decreases rest.len(),
    {
        let ghost k = all.len() - rest@.len();
        let s = rest.remove(0);
        proof {
            assert(all.take(k + 1).drop_last() =~= all.take(k));
            assert(rest@ =~= all.skip(k + 1));
            reveal_with_fuel(Seq::filter, 1);
        }
        if s.kind == SymbolKind::ComponentBinding && str_starts_with(&s.name, prefix) {
            r.push(s);
        }
    }
    proof { assert(all.take(all.len() as int) =~= all); }
    r
}

} // verus!
