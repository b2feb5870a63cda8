//! Completion of symbol names: service methods after `Service.`, scope properties after
//! `$scope.` and `$rootScope.`, every other symbol elsewhere, and directives in templates.
use vstd::prelude::*;

use crate::handler::inlay_hints::{is_char_boundary_at, utf8_len};
use crate::handler::signature_help::{cut_index, text_before_cursor};
use crate::index::controller_store::{alias_map, covers, is_first_covering};
use crate::index::definition_store::is_root_scope_kind;
use crate::index::html_resolve::{identifier_start, is_ident, line_text};
use crate::index::html_store::{form_in_scope, local_variable_in_scope};
use crate::index::snapshot::{flatten, list_at};
use crate::model::html::local_variable_source_name;
use crate::model::{HtmlFormBinding, HtmlLocalVariable, InheritedFormBinding, InheritedLocalVariable};
use crate::util::is_html_file;
use crate::uri::path_of;
use crate::util::html_path;
use crate::index::query::opt_view;
use crate::index::Index;
use crate::model::{Symbol, SymbolKind};
use crate::model::symbol::symbol_kind_name;
use crate::util::{camel_to_kebab, kebab_of};
use crate::text::{
    chars_of, concat, contains_str, lemma_line_bounds_ok, line_range, find_str, first_occurrence, lemma_first_occurrence, occurs,
    occurs_at, str_eq, str_starts_with, string_from_chars, views,
};

verus! {

/// The kind of a completion item, as editors show it.
#[derive(Debug, Clone, Copy, PartialEq, Eq, Structural)]
pub enum CompletionKind {
    Module,
    Class,
    Function,
    Constant,
    Value,
    Method,
    Property,
    Variable,
}

/// One completion candidate.
pub struct CompletionItem {
    pub label: String,
    pub kind: CompletionKind,
    pub detail: String,
    /// The key editors sort by, when it is not the label.
    pub sort_text: Option<String>,
    /// Markdown documentation.
    pub documentation: Option<String>,
}

/// The text of a completion candidate.
pub struct CompletionView {
    pub label: Seq<char>,
    pub kind: CompletionKind,
    pub detail: Seq<char>,
    pub sort_text: Option<Seq<char>>,
    pub documentation: Option<Seq<char>>,
}

pub open spec fn view_of(i: CompletionItem) -> CompletionView {
    CompletionView {
        label: i.label@,
        kind: i.kind,
        detail: i.detail@,
        sort_text: opt_view(i.sort_text),
        documentation: opt_view(i.documentation),
    }
}

/// The texts of `items`.
pub open spec fn views_of(items: Seq<CompletionItem>) -> Seq<CompletionView> {
    items.map_values(|i: CompletionItem| view_of(i))
}

/// The labels of `items`.
pub open spec fn labels(items: Seq<CompletionView>) -> Seq<Seq<char>> {
    items.map_values(|i: CompletionView| i.label)
}

/// The item kind of a symbol kind.
pub open spec fn completion_kind_of(k: SymbolKind) -> CompletionKind {
    match k {
        SymbolKind::Module => CompletionKind::Module,
        SymbolKind::Filter | SymbolKind::ScopeMethod | SymbolKind::RootScopeMethod => CompletionKind::Function,
        SymbolKind::Constant => CompletionKind::Constant,
        SymbolKind::Value => CompletionKind::Value,
        SymbolKind::Method => CompletionKind::Method,
        SymbolKind::ScopeProperty | SymbolKind::RootScopeProperty | SymbolKind::ComponentBinding => CompletionKind::Property,
        SymbolKind::FormBinding => CompletionKind::Variable,
        _ => CompletionKind::Class,
    }
}

/// See [`completion_kind_of`].
pub fn symbol_kind_to_completion_kind(kind: SymbolKind) -> (r: CompletionKind)
    ensures
        r == completion_kind_of(kind),
{
    match kind {
        SymbolKind::Module => CompletionKind::Module,
        SymbolKind::Controller => CompletionKind::Class,
        SymbolKind::Service => CompletionKind::Class,
        SymbolKind::Factory => CompletionKind::Class,
        SymbolKind::Directive => CompletionKind::Class,
        SymbolKind::Component => CompletionKind::Class,
        SymbolKind::Provider => CompletionKind::Class,
        SymbolKind::Filter => CompletionKind::Function,
        SymbolKind::Constant => CompletionKind::Constant,
        SymbolKind::Value => CompletionKind::Value,
        SymbolKind::Method => CompletionKind::Method,
        SymbolKind::ScopeProperty => CompletionKind::Property,
        SymbolKind::ScopeMethod => CompletionKind::Function,
        SymbolKind::RootScopeProperty => CompletionKind::Property,
        SymbolKind::RootScopeMethod => CompletionKind::Function,
        SymbolKind::FormBinding => CompletionKind::Variable,
        SymbolKind::ExportedComponent => CompletionKind::Class,
        SymbolKind::ComponentBinding => CompletionKind::Property,
        SymbolKind::UiRouterState => CompletionKind::Class,
    }
}

/// `current` allows the controller `c`: no controller is current, or it is `c`.
pub open spec fn current_allows(current: Option<Seq<char>>, c: Seq<char>) -> bool {
    match current {
        Some(x) => x == c,
        None => true,
    }
}

/// A name `Controller.$scope.prop` with exactly one `.$scope.` split there.
pub open spec fn scope_split(n: Seq<char>) -> Option<(Seq<char>, Seq<char>)> {
    match first_occurrence(n, ".$scope."@) {
        Some(i) => if !occurs(n.skip(i + 8), ".$scope."@) {
            Some((n.take(i), n.skip(i + 8)))
        } else {
            None
        },
        None => None,
    }
}

/// The `$rootScope` candidates of `defs`: for each `$rootScope` property or method whose
/// name has `.$rootScope.`, the text after it, the first time that text comes.
pub open spec fn root_scope_items(defs: Seq<Symbol>) -> Seq<CompletionView>
    decreases defs.len(),
{
    if defs.len() == 0 {
        Seq::empty()
    } else {
        let prev = root_scope_items(defs.drop_last());
        let s = defs.last();
        let n = s.name@;
        match first_occurrence(n, ".$rootScope."@) {
            Some(i) => if is_root_scope_kind(s.kind) && !labels(prev).contains(n.skip(i + 12)) {
                let method = s.kind == SymbolKind::RootScopeMethod;
                prev.push(CompletionView {
                    label: n.skip(i + 12),
                    kind: if method { CompletionKind::Function } else { CompletionKind::Property },
                    detail: n.take(i) + " ($rootScope "@ + (if method { "method"@ } else { "property"@ }) + ")"@,
                    sort_text: None,
                    documentation: opt_view(s.docs),
                })
            } else {
                prev
            },
            None => prev,
        }
    }
}

/// The `$scope` candidates of `defs`: for each scope property or method named
/// `Controller.$scope.prop` of a controller `current` allows, `prop`, the first time it
/// comes.
pub open spec fn scope_items(defs: Seq<Symbol>, current: Option<Seq<char>>) -> Seq<CompletionView>
    decreases defs.len(),
{
    if defs.len() == 0 {
        Seq::empty()
    } else {
        let prev = scope_items(defs.drop_last(), current);
        let s = defs.last();
        if s.kind == SymbolKind::ScopeProperty || s.kind == SymbolKind::ScopeMethod {
            match scope_split(s.name@) {
                Some(cp) => if current_allows(current, cp.0) && !labels(prev).contains(cp.1) {
                    let method = s.kind == SymbolKind::ScopeMethod;
                    prev.push(CompletionView {
                        label: cp.1,
                        kind: if method { CompletionKind::Function } else { CompletionKind::Property },
                        detail: cp.0 + " (scope "@ + (if method { "function"@ } else { "property"@ }) + ")"@,
                        sort_text: None,
                        documentation: opt_view(s.docs),
                    })
                } else {
                    prev
                },
                None => prev,
            }
        } else {
            prev
        }
    }
}

/// Some label of `ls` extends `p` (starts with it and is longer).
pub open spec fn extends_some(ls: Seq<Seq<char>>, p: Seq<char>) -> bool {
    exists|k: int| 0 <= k < ls.len() && p.len() <= (#[trigger] ls[k]).len() && ls[k].take(p.len() as int) == p && ls[k] != p
}

/// After the candidates `base`, those of the reference-only names `names`: for each
/// `Controller.$scope.prop` of a controller `current` allows, `prop`, unless it already
/// comes or some candidate so far extends it (it is then a name being typed).
pub open spec fn reference_items(names: Seq<Seq<char>>, current: Option<Seq<char>>, base: Seq<CompletionView>) -> Seq<CompletionView>
    decreases names.len(),
{
    if names.len() == 0 {
        base
    } else {
        let prev = reference_items(names.drop_last(), current, base);
        match scope_split(names.last()) {
            Some(cp) => if current_allows(current, cp.0) && !labels(prev).contains(cp.1) && !extends_some(labels(prev), cp.1) {
                prev.push(CompletionView {
                    label: cp.1,
                    kind: CompletionKind::Property,
                    detail: cp.0 + " (scope property, reference only)"@,
                    sort_text: None,
                    documentation: None,
                })
            } else {
                prev
            },
            None => prev,
        }
    }
}

/// The methods of the service `p`: each definition named `p.m`, as `m`.
pub open spec fn service_items(defs: Seq<Symbol>, p: Seq<char>) -> Seq<CompletionView>
    decreases defs.len(),
{
    if defs.len() == 0 {
        Seq::empty()
    } else {
        let prev = service_items(defs.drop_last(), p);
        let s = defs.last();
        let mp = p + "."@;
        if mp.len() <= s.name@.len() && s.name@.take(mp.len() as int) == mp {
            prev.push(CompletionView {
                label: s.name@.skip(mp.len() as int),
                kind: CompletionKind::Method,
                detail: p + " ("@ + symbol_kind_name(s.kind) + ")"@,
                sort_text: None,
                documentation: opt_view(s.docs),
            })
        } else {
            prev
        }
    }
}

/// The kinds that plain completion leaves out.
pub open spec fn excluded_kind(k: SymbolKind) -> bool {
    k == SymbolKind::Method || k == SymbolKind::ScopeProperty || k == SymbolKind::ScopeMethod || k == SymbolKind::Controller
}

/// Plain completion: every definition of a kind not left out, the injected services
/// sorted first.
pub open spec fn general_items(defs: Seq<Symbol>, injected: Seq<Seq<char>>) -> Seq<CompletionView>
    decreases defs.len(),
{
    if defs.len() == 0 {
        Seq::empty()
    } else {
        let prev = general_items(defs.drop_last(), injected);
        let s = defs.last();
        let n = s.name@;
        let inj = injected.contains(n);
        if !excluded_kind(s.kind) {
            prev.push(CompletionView {
                label: n,
                kind: completion_kind_of(s.kind),
                detail: if inj { symbol_kind_name(s.kind) + " (injected)"@ } else { symbol_kind_name(s.kind) },
                sort_text: Some(if inj { "0_"@ + n } else { "1_"@ + n }),
                documentation: opt_view(s.docs),
            })
        } else {
            prev
        }
    }
}

fn copy_docs(d: &Option<String>) -> (r: Option<String>)
    ensures
        opt_view(r) == opt_view(*d),
{
    match d {
        Some(s) => Some(s.clone()),
        None => None,
    }
}

/// See [`scope_split`].
fn split_scope_name(n: &str) -> (r: Option<(String, String)>)
    ensures
        match r {
            Some(cp) => scope_split(n@) == Some((cp.0@, cp.1@)),
            None => scope_split(n@) is None,
        },
{
    proof { reveal_strlit(".$scope."); }
    match find_str(n, ".$scope.") {
        Some(i) => {
            proof { lemma_first_occurrence(n@, ".$scope."@, i as int); }
            let cs = chars_of(n);
            assert(".$scope."@.len() == 8);
            let len = cs.len();
            assert(i + 8 <= len);
            let c = string_from_chars(&cs, 0, i);
            let p = string_from_chars(&cs, i + 8, len);
            assert(c@ =~= n@.take(i as int));
            assert(p@ =~= n@.skip(i + 8));
            match find_str(p.as_str(), ".$scope.") {
                Some(j) => {
                    assert(occurs_at(p@, ".$scope."@, j as int));
                    None
                },
                None => Some((c, p)),
            }
        },
        None => {
            assert(first_occurrence(n@, ".$scope."@) is None);
            None
        },
    }
}

/// Completion of symbol names over an index.
pub struct CompletionHandler<'a> {
    pub index: &'a Index,
}

impl<'a> CompletionHandler<'a> {
    pub fn new(index: &'a Index) -> (r: Self)
        ensures
            r.index == index,
    {
        CompletionHandler { index }
    }

    /// `r` is what completion gives: after `$rootScope.` the `$rootScope` candidates;
    /// after `$scope.` those of `$scope` (definitions, then reference-only names); after
    /// `Service.` its methods; elsewhere every symbol of a kind plain completion keeps.
    pub open spec fn completion_is(&self, prefix: Option<Seq<char>>, current: Option<Seq<char>>, injected: Seq<Seq<char>>, r: Seq<CompletionView>) -> bool {
        exists|defs: Seq<Symbol>| #[trigger] self.index.definitions.all_definitions_are(defs) && match prefix {
            Some(p) => if p == "$rootScope"@ {
                r == root_scope_items(defs)
            } else if p == "$scope"@ {
                exists|names: Seq<Seq<char>>| #[trigger] self.index.definitions.reference_only_names_are(names)
                    && r == reference_items(names, current, scope_items(defs, current))
            } else {
                r == service_items(defs, p)
            },
            None => r == general_items(defs, injected),
        }
    }

    /// `r` is what directive completion gives: the directive candidates, or nothing when
    /// there are none.
    pub open spec fn directive_completion_is(&self, prefix: Seq<char>, is_tag_name: bool, r: Option<Seq<CompletionView>>) -> bool {
        exists|defs: Seq<Symbol>| #[trigger] self.index.definitions.all_definitions_are(defs) && {
            let items = directive_items(defs, prefix, is_tag_name);
            r == if items.len() == 0 { None } else { Some(items) }
        }
    }

    /// Directives and components to complete in a template at a tag name (`is_tag_name`)
    /// or an attribute, in kebab case, filtered by the `prefix` being typed.
    pub fn complete_directives(&self, prefix: &str, is_tag_name: bool) -> (r: Option<Vec<CompletionItem>>)
        ensures
            self.directive_completion_is(prefix@, is_tag_name, match r { Some(v) => Some(views_of(v@)), None => None }),
    {
        let definitions = self.index.definitions.get_all_definitions();
        assert(self.index.definitions.all_definitions_are(definitions@));
        let items = directive_completions(&definitions, prefix, is_tag_name);
        if items.len() == 0 {
            None
        } else {
            Some(items)
        }
    }

    /// Candidates for the symbol being typed, after an optional `prefix.` (a service
    /// name, `$scope` or `$rootScope`) inside the controller `current_controller`, with the
    /// services it injects sorted first.
    pub fn complete_with_context(&self, service_prefix: Option<&str>, current_controller: Option<&str>, injected_services: &Vec<String>) -> (r: Option<Vec<CompletionItem>>)
        ensures
            r is Some,
            self.completion_is(match service_prefix { Some(p) => Some(p@), None => None },
                match current_controller { Some(c) => Some(c@), None => None }, views(injected_services@), views_of(r->0@)),
    {
        let definitions = self.index.definitions.get_all_definitions();
        let ghost defs = definitions@;
        assert(self.index.definitions.all_definitions_are(defs));
        let items = match service_prefix {
            Some(prefix) => {
                if str_eq(prefix, "$rootScope") {
                    root_scope_completions(&definitions)
                } else if str_eq(prefix, "$scope") {
                    let mut items: Vec<CompletionItem> = Vec::new();
                    let mut seen: Vec<String> = Vec::new();
                    scope_completions(&definitions, current_controller, &mut items, &mut seen);
                    let names = self.index.definitions.get_reference_only_names();
                    assert(self.index.definitions.reference_only_names_are(views(names@)));
                    reference_completions(&names, current_controller, &mut items, &mut seen);
                    items
                } else {
                    service_completions(&definitions, prefix)
                }
            },
            None => general_completions(&definitions, injected_services),
        };
        Some(items)
    }
}

/// The directive candidates of `defs` for a template: each directive or component whose
/// kebab-case name starts with `prefix` (any, when `prefix` is empty), as that name.
pub open spec fn directive_items(defs: Seq<Symbol>, prefix: Seq<char>, is_tag_name: bool) -> Seq<CompletionView>
    decreases defs.len(),
{
    if defs.len() == 0 {
        Seq::empty()
    } else {
        let prev = directive_items(defs.drop_last(), prefix, is_tag_name);
        let s = defs.last();
        let k = kebab_of(s.name@);
        if (s.kind == SymbolKind::Directive || s.kind == SymbolKind::Component)
            && (prefix.len() == 0 || (prefix.len() <= k.len() && k.take(prefix.len() as int) == prefix)) {
            prev.push(CompletionView {
                label: k,
                kind: CompletionKind::Class,
                detail: (if s.kind == SymbolKind::Component { "component ("@ } else { "directive ("@ })
                    + (if is_tag_name { "element)"@ } else { "attribute)"@ }),
                sort_text: None,
                documentation: opt_view(s.docs),
            })
        } else {
            prev
        }
    }
}

fn directive_completions(definitions: &Vec<Symbol>, prefix: &str, is_tag_name: bool) -> (r: Vec<CompletionItem>)
    ensures
        views_of(r@) == directive_items(definitions@, prefix@, is_tag_name),
{
    let plen = chars_of(prefix).len();
    let mut items: Vec<CompletionItem> = Vec::new();
    let mut i: usize = 0;
    while i < definitions.len()
        invariant
            i <= definitions@.len(),
            plen == prefix@.len(),
            views_of(items@) == directive_items(definitions@.take(i as int), prefix@, is_tag_name),
        decreases definitions.len() - i,
    {
        let s = &definitions[i];
        proof {
            assert(definitions@.take(i + 1).drop_last() =~= definitions@.take(i as int));
            assert(definitions@.take(i + 1).last() == definitions@[i as int]);
        }
        if s.kind == SymbolKind::Directive || s.kind == SymbolKind::Component {
            let kebab = camel_to_kebab(s.name.as_str());
            if plen == 0 || str_starts_with(kebab.as_str(), prefix) {
                let head = if s.kind == SymbolKind::Component { "component (" } else { "directive (" };
                let detail = concat(head, if is_tag_name { "element)" } else { "attribute)" });
                let ghost before = items@;
                items.push(CompletionItem {
                    label: kebab,
                    kind: CompletionKind::Class,
                    detail,
                    sort_text: None,
                    documentation: copy_docs(&s.docs),
                });
                proof { assert(views_of(items@) =~= views_of(before).push(view_of(items@.last()))); }
            }
        }
        i += 1;
    }
    proof { assert(definitions@.take(definitions@.len() as int) =~= definitions@); }
    items
}

fn root_scope_completions(definitions: &Vec<Symbol>) -> (r: Vec<CompletionItem>)
    ensures
        views_of(r@) == root_scope_items(definitions@),
{
    let mut items: Vec<CompletionItem> = Vec::new();
    let mut seen: Vec<String> = Vec::new();
    let mut i: usize = 0;
    while i < definitions.len()
        invariant
            i <= definitions@.len(),
            views_of(items@) == root_scope_items(definitions@.take(i as int)),
            views(seen@) == labels(views_of(items@)),
        decreases definitions.len() - i,
    {
        let s = &definitions[i];
        proof {
            assert(definitions@.take(i + 1).drop_last() =~= definitions@.take(i as int));
            assert(definitions@.take(i + 1).last() == definitions@[i as int]);
        }
        if s.kind == SymbolKind::RootScopeProperty || s.kind == SymbolKind::RootScopeMethod {
            match find_str(s.name.as_str(), ".$rootScope.") {
                Some(idx) => {
                    proof {
                        reveal_strlit(".$rootScope.");
                        lemma_first_occurrence(s.name@, ".$rootScope."@, idx as int);
                    }
                    let cs = chars_of(s.name.as_str());
                    assert(".$rootScope."@.len() == 12);
                    let len = cs.len();
                    assert(idx + 12 <= len);
                    let module_name = string_from_chars(&cs, 0, idx);
                    let prop = string_from_chars(&cs, idx + 12, len);
                    assert(module_name@ =~= s.name@.take(idx as int));
                    assert(prop@ =~= s.name@.skip(idx + 12));
                    if !contains_str(&seen, prop.as_str()) {
                        let method = s.kind == SymbolKind::RootScopeMethod;
                        let t1 = concat(module_name.as_str(), " ($rootScope ");
                        let t2 = concat(t1.as_str(), if method { "method" } else { "property" });
                        let detail = concat(t2.as_str(), ")");
                        let ghost before = items@;
                        let ghost seen_before = seen@;
                        let ghost pv = prop@;
                        seen.push(prop.clone());
                        items.push(CompletionItem {
                            label: prop,
                            kind: if method { CompletionKind::Function } else { CompletionKind::Property },
                            detail,
                            sort_text: None,
                            documentation: copy_docs(&s.docs),
                        });
                        proof {
                            assert(views_of(items@) =~= views_of(before).push(view_of(items@.last())));
                            assert(views(seen@) =~= views(seen_before).push(pv));
                            assert(labels(views_of(items@)) =~= labels(views_of(before)).push(pv));
                        }
                    }
                },
                None => {
                    assert(first_occurrence(s.name@, ".$rootScope."@) is None);
                },
            }
        } else {
            assert(!is_root_scope_kind(s.kind));
        }
        i += 1;
    }
    proof { assert(definitions@.take(definitions@.len() as int) =~= definitions@); }
    items
}

#[verifier::spinoff_prover]
#[verifier::rlimit(40)]
fn scope_completions(definitions: &Vec<Symbol>, current: Option<&str>, items: &mut Vec<CompletionItem>, seen: &mut Vec<String>)
    requires
        old(items)@.len() == 0,
        old(seen)@.len() == 0,
    ensures
        views_of(final(items)@) == scope_items(definitions@, match current { Some(c) => Some(c@), None => None }),
        views(final(seen)@) == labels(views_of(final(items)@)),
{
    let ghost cur = match current { Some(c) => Some(c@), None => None };
    let mut i: usize = 0;
    assert(views_of(items@) =~= Seq::<CompletionView>::empty());
    assert(views(seen@) =~= Seq::<Seq<char>>::empty());
    while i < definitions.len()
        invariant
            i <= definitions@.len(),
            cur == match current { Some(c) => Some(c@), None => None },
            views_of(items@) == scope_items(definitions@.take(i as int), cur),
            views(seen@) == labels(views_of(items@)),
        decreases definitions.len() - i,
    {
        let s = &definitions[i];
        proof {
            assert(definitions@.take(i + 1).drop_last() =~= definitions@.take(i as int));
            assert(definitions@.take(i + 1).last() == definitions@[i as int]);
        }
        if s.kind == SymbolKind::ScopeProperty || s.kind == SymbolKind::ScopeMethod {
            match split_scope_name(s.name.as_str()) {
                Some((controller_name, prop)) => {
                    let allowed = match current {
                        Some(c) => str_eq(c, controller_name.as_str()),
                        None => true,
                    };
                    if allowed && !contains_str(seen, prop.as_str()) {
                        let method = s.kind == SymbolKind::ScopeMethod;
                        let t1 = concat(controller_name.as_str(), " (scope ");
                        let t2 = concat(t1.as_str(), if method { "function" } else { "property" });
                        let detail = concat(t2.as_str(), ")");
                        let ghost before = items@;
                        let ghost seen_before = seen@;
                        let ghost pv = prop@;
                        seen.push(prop.clone());
                        items.push(CompletionItem {
                            label: prop,
                            kind: if method { CompletionKind::Function } else { CompletionKind::Property },
                            detail,
                            sort_text: None,
                            documentation: copy_docs(&s.docs),
                        });
                        proof {
                            assert(views_of(items@) =~= views_of(before).push(view_of(items@.last())));
                            assert(views(seen@) =~= views(seen_before).push(pv));
                            assert(labels(views_of(items@)) =~= labels(views_of(before)).push(pv));
                        }
                    }
                },
                None => {},
            }
        }
        i += 1;
    }
    proof { assert(definitions@.take(definitions@.len() as int) =~= definitions@); }
}

/// Whether some of `seen` extends `p`.
fn extends_any(seen: &Vec<String>, p: &str) -> (r: bool)
    ensures
        r == extends_some(views(seen@), p@),
{
    let mut k: usize = 0;
    while k < seen.len()
        invariant
            k <= seen@.len(),
            forall|j: int| 0 <= j < k ==> !(p@.len() <= (#[trigger] views(seen@)[j]).len()
                && views(seen@)[j].take(p@.len() as int) == p@ && views(seen@)[j] != p@),
        decreases seen.len() - k,
    {
        assert(views(seen@)[k as int] == seen@[k as int]@);
        if str_starts_with(seen[k].as_str(), p) && !str_eq(seen[k].as_str(), p) {
            return true;
        }
        k += 1;
    }
    false
}

#[verifier::spinoff_prover]
#[verifier::rlimit(40)]
fn reference_completions(names: &Vec<String>, current: Option<&str>, items: &mut Vec<CompletionItem>, seen: &mut Vec<String>)
    requires
        views(old(seen)@) == labels(views_of(old(items)@)),
    ensures
        views_of(final(items)@) == reference_items(views(names@), match current { Some(c) => Some(c@), None => None }, views_of(old(items)@)),
        views(final(seen)@) == labels(views_of(final(items)@)),
{
    let ghost cur = match current { Some(c) => Some(c@), None => None };
    let ghost base = views_of(items@);
    let mut i: usize = 0;
    while i < names.len()
        invariant
            i <= names@.len(),
            cur == match current { Some(c) => Some(c@), None => None },
            views_of(items@) == reference_items(views(names@).take(i as int), cur, base),
            views(seen@) == labels(views_of(items@)),
        decreases names.len() - i,
    {
        proof {
            assert(views(names@).take(i + 1).drop_last() =~= views(names@).take(i as int));
            assert(views(names@).take(i + 1).last() == names@[i as int]@);
        }
        match split_scope_name(names[i].as_str()) {
            Some((controller_name, prop)) => {
                let allowed = match current {
                    Some(c) => str_eq(c, controller_name.as_str()),
                    None => true,
                };
                if allowed && !contains_str(seen, prop.as_str()) && !extends_any(seen, prop.as_str()) {
                    let detail = concat(controller_name.as_str(), " (scope property, reference only)");
                    let ghost before = items@;
                    let ghost seen_before = seen@;
                    let ghost pv = prop@;
                    seen.push(prop.clone());
                    items.push(CompletionItem {
                        label: prop,
                        kind: CompletionKind::Property,
                        detail,
                        sort_text: None,
                        documentation: None,
                    });
                    proof {
                        assert(views_of(items@) =~= views_of(before).push(view_of(items@.last())));
                        assert(views(seen@) =~= views(seen_before).push(pv));
                        assert(labels(views_of(items@)) =~= labels(views_of(before)).push(pv));
                    }
                }
            },
            None => {},
        }
        i += 1;
    }
    proof { assert(views(names@).take(names@.len() as int) =~= views(names@)); }
}

fn service_completions(definitions: &Vec<Symbol>, prefix: &str) -> (r: Vec<CompletionItem>)
    ensures
        views_of(r@) == service_items(definitions@, prefix@),
{
    let method_prefix = concat(prefix, ".");
    let plen = chars_of(method_prefix.as_str()).len();
    let mut items: Vec<CompletionItem> = Vec::new();
    let mut i: usize = 0;
    while i < definitions.len()
        invariant
            i <= definitions@.len(),
            method_prefix@ == prefix@ + "."@,
            plen == method_prefix@.len(),
            views_of(items@) == service_items(definitions@.take(i as int), prefix@),
        decreases definitions.len() - i,
    {
        let s = &definitions[i];
        proof {
            assert(definitions@.take(i + 1).drop_last() =~= definitions@.take(i as int));
            assert(definitions@.take(i + 1).last() == definitions@[i as int]);
        }
        if str_starts_with(s.name.as_str(), method_prefix.as_str()) {
            let cs = chars_of(s.name.as_str());
            let method_name = string_from_chars(&cs, plen, cs.len());
            assert(method_name@ =~= s.name@.skip(plen as int));
            let t1 = concat(prefix, " (");
            let t2 = concat(t1.as_str(), s.kind.as_str());
            let detail = concat(t2.as_str(), ")");
            let ghost before = items@;
            items.push(CompletionItem {
                label: method_name,
                kind: CompletionKind::Method,
                detail,
                sort_text: None,
                documentation: copy_docs(&s.docs),
            });
            proof { assert(views_of(items@) =~= views_of(before).push(view_of(items@.last()))); }
        }
        i += 1;
    }
    proof { assert(definitions@.take(definitions@.len() as int) =~= definitions@); }
    items
}

fn general_completions(definitions: &Vec<Symbol>, injected: &Vec<String>) -> (r: Vec<CompletionItem>)
    ensures
        views_of(r@) == general_items(definitions@, views(injected@)),
{
    let mut items: Vec<CompletionItem> = Vec::new();
    let mut i: usize = 0;
    while i < definitions.len()
        invariant
            i <= definitions@.len(),
            views_of(items@) == general_items(definitions@.take(i as int), views(injected@)),
        decreases definitions.len() - i,
    {
        let s = &definitions[i];
        proof {
            assert(definitions@.take(i + 1).drop_last() =~= definitions@.take(i as int));
            assert(definitions@.take(i + 1).last() == definitions@[i as int]);
        }
        if s.kind != SymbolKind::Method && s.kind != SymbolKind::ScopeProperty && s.kind != SymbolKind::ScopeMethod
            && s.kind != SymbolKind::Controller {
            let inj = contains_str(injected, s.name.as_str());
            let detail = if inj {
                concat(s.kind.as_str(), " (injected)")
            } else {
                s.kind.as_str().to_owned()
            };
            let sort_text = if inj {
                concat("0_", s.name.as_str())
            } else {
                concat("1_", s.name.as_str())
            };
            let ghost before = items@;
            items.push(CompletionItem {
                label: s.name.clone(),
                kind: symbol_kind_to_completion_kind(s.kind),
                detail,
                sort_text: Some(sort_text),
                documentation: copy_docs(&s.docs),
            });
            proof {
                assert(views_of(items@) =~= views_of(before).push(view_of(items@.last())));
            }
        }
        i += 1;
    }
    proof { assert(definitions@.take(definitions@.len() as int) =~= definitions@); }
    items
}


/// A template candidate: a variable with `detail`.
pub open spec fn variable_item(label: Seq<char>, detail: Seq<char>) -> CompletionView {
    CompletionView { label, kind: CompletionKind::Variable, detail, sort_text: None, documentation: None }
}

/// `items` with a variable `label`, unless some item already has that label.
pub open spec fn add_unique(items: Seq<CompletionView>, label: Seq<char>, detail: Seq<char>) -> Seq<CompletionView> {
    if labels(items).contains(label) { items } else { items.push(variable_item(label, detail)) }
}

/// The local variables `vs`, each as a candidate.
pub open spec fn local_items(items: Seq<CompletionView>, vs: Seq<HtmlLocalVariable>) -> Seq<CompletionView>
    decreases vs.len(),
{
    if vs.len() == 0 {
        items
    } else {
        local_items(items, vs.drop_last()).push(variable_item(vs.last().name@,
            "local variable ("@ + local_variable_source_name(vs.last().source) + ")"@))
    }
}

/// The inherited local variables `vs` whose names are not yet candidates.
pub open spec fn inherited_variable_items(items: Seq<CompletionView>, vs: Seq<InheritedLocalVariable>) -> Seq<CompletionView>
    decreases vs.len(),
{
    if vs.len() == 0 {
        items
    } else {
        add_unique(inherited_variable_items(items, vs.drop_last()), vs.last().name@,
            "inherited variable ("@ + local_variable_source_name(vs.last().source) + ")"@)
    }
}

/// The forms `fs` whose names are not yet candidates.
pub open spec fn form_items(items: Seq<CompletionView>, fs: Seq<HtmlFormBinding>) -> Seq<CompletionView>
    decreases fs.len(),
{
    if fs.len() == 0 {
        items
    } else {
        add_unique(form_items(items, fs.drop_last()), fs.last().name@, "form binding ($scope)"@)
    }
}

/// The inherited forms `fs` whose names are not yet candidates.
pub open spec fn inherited_form_items(items: Seq<CompletionView>, fs: Seq<InheritedFormBinding>) -> Seq<CompletionView>
    decreases fs.len(),
{
    if fs.len() == 0 {
        items
    } else {
        add_unique(inherited_form_items(items, fs.drop_last()), fs.last().name@, "inherited form binding ($scope)"@)
    }
}

/// The aliases `al` (with their controllers) whose names are not yet candidates.
pub open spec fn alias_items(items: Seq<CompletionView>, al: Seq<(Seq<char>, Seq<char>)>) -> Seq<CompletionView>
    decreases al.len(),
{
    if al.len() == 0 {
        items
    } else {
        add_unique(alias_items(items, al.drop_last()), al.last().0, "controller alias ("@ + al.last().1 + ")"@)
    }
}

/// `al` lists the aliases in effect at `line` of the template `uri`, each once, with the
/// controller each names.
pub open spec fn aliases_are(idx: &Index, uri: Seq<char>, line: int, al: Seq<(Seq<char>, Seq<char>)>) -> bool {
    let m = alias_map(list_at(idx.controllers.html_scopes(), uri), line);
    &&& forall|i: int, j: int| 0 <= i < j < al.len() ==> al[i].0 != al[j].0
    &&& forall|k: Seq<char>| m.contains_key(k) <==> exists|i: int| 0 <= i < al.len() && #[trigger] al[i].0 == k
    &&& forall|i: int| 0 <= i < al.len() ==> m[#[trigger] al[i].0] == al[i].1
}

/// The candidates inside an expression of a template: the `$scope` candidates of the
/// controller in effect, then the local variables in scope, then (each label once) the
/// inherited local variables, the forms in scope, the inherited forms and the aliases.
pub open spec fn template_items(scope: Seq<CompletionView>, lv: Seq<HtmlLocalVariable>, iv: Seq<InheritedLocalVariable>,
    fb: Seq<HtmlFormBinding>, ifb: Seq<InheritedFormBinding>, al: Seq<(Seq<char>, Seq<char>)>) -> Seq<CompletionView> {
    alias_items(inherited_form_items(form_items(inherited_variable_items(local_items(scope, lv), iv), fb), ifb), al)
}

/// The name of the service (or `$scope`) written just before a `.` that ends the text of
/// line `line` of `s` before byte column `col`: the run of identifier characters before
/// that `.`; none when the column is past the line's end or there is no such run.
pub open spec fn service_prefix_spec(s: Seq<char>, line: nat, col: nat) -> Option<Seq<char>> {
    match line_text(s, line) {
        None => None,
        Some(l) => if col > utf8_len(l) {
            None
        } else {
            let b = text_before_cursor(s, line, col)->0;
            if b.len() > 0 && b.last() == '.' {
                let w = b.drop_last();
                let st = identifier_start(w, w.len() as int);
                if st < w.len() { Some(w.subrange(st, w.len() as int)) } else { None }
            } else {
                None
            }
        },
    }
}

/// The cursor's line can be cut at byte column `col`: it lies between two characters, or
/// past the line's end.
pub open spec fn prefix_cursor_fits(s: Seq<char>, line: nat, col: nat) -> bool {
    match line_text(s, line) {
        None => true,
        Some(l) => col > utf8_len(l) || is_char_boundary_at(l, col as int),
    }
}

/// The name just before a `.` that ends the text before `(line, col)` of `text`.
pub fn service_prefix_at(text: &str, line: u32, col: u32) -> (r: Option<String>)
    requires
        prefix_cursor_fits(text@, line as nat, col as nat),
    ensures
        opt_view(r) == service_prefix_spec(text@, line as nat, col as nat),
{
    let cs = chars_of(text);
    let (a, b) = match line_range(&cs, line) {
        Some(bounds) => bounds,
        None => {
            return None;
        },
    };
    proof { lemma_line_bounds_ok(cs@, line as nat); }
    let ghost l = cs@.subrange(a as int, b as int);
    if col > 0 && !crate::index::html_resolve::bytes_exceed(&cs, a, b, col - 1) {
        return None;
    }
    let e = cut_index(&cs, a, b, col);
    let ghost t = l.take(e as int);
    if e == 0 || cs[a + e - 1] != '.' {
        return None;
    }
    let w = e - 1;
    let mut st: usize = w;
    while st > 0 && is_ident(cs[a + st - 1])
        invariant
            st <= w,
            w + 1 == e,
            e <= b - a,
            a <= b <= cs@.len(),
            l == cs@.subrange(a as int, b as int),
            t == l.take(e as int),
            identifier_start(t.drop_last(), st as int) == identifier_start(t.drop_last(), w as int),
        decreases st,
    {
        st -= 1;
    }
    if st == w {
        return None;
    }
    let r = string_from_chars(&cs, a + st, a + w);
    proof { assert(r@ =~= t.drop_last().subrange(st as int, w as int)); }
    Some(r)
}

/// `items` has an item labelled `label`.
fn has_label(items: &Vec<CompletionItem>, label: &str) -> (r: bool)
    ensures
        r == labels(views_of(items@)).contains(label@),
{
    let mut i: usize = 0;
    while i < items.len()
        invariant
            i <= items@.len(),
            forall|j: int| 0 <= j < i ==> items@[j].label@ != label@,
        decreases items.len() - i,
    {
        if str_eq(&items[i].label, label) {
            proof { assert(labels(views_of(items@))[i as int] == label@); }
            return true;
        }
        i += 1;
    }
    proof {
        if labels(views_of(items@)).contains(label@) {
            let j = choose|j: int| 0 <= j < labels(views_of(items@)).len() && labels(views_of(items@))[j] == label@;
            assert(items@[j].label@ == label@);
        }
    }
    false
}

/// Appends a variable `label` with `detail` unless an item already has that label.
fn push_unique(items: &mut Vec<CompletionItem>, label: &str, detail: String)
    ensures
        views_of(final(items)@) == add_unique(views_of(old(items)@), label@, detail@),
{
    if !has_label(items, label) {
        let ghost before = views_of(items@);
        items.push(CompletionItem { label: label.to_owned(), kind: CompletionKind::Variable, detail, sort_text: None, documentation: None });
        proof { assert(views_of(items@) =~= before.push(variable_item(label@, detail@))); }
    }
}

impl<'a> CompletionHandler<'a> {
    /// `r` is what completion inside a template expression at `line` of `uri` gives:
    /// nothing outside an expression or when there is no candidate; else
    /// [`template_items`] over the `$scope` candidates of the controller in effect.
    pub open spec fn template_completion_is(&self, uri: Seq<char>, line: int, in_expression: bool, r: Option<Seq<CompletionView>>) -> bool {
        if !in_expression {
            r is None
        } else {
            exists|c: Option<Seq<char>>, scope: Seq<CompletionView>, iv: Seq<InheritedLocalVariable>,
                ifb: Seq<InheritedFormBinding>, al: Seq<(Seq<char>, Seq<char>)>|
                #[trigger] self.index.controller_for_html_is(uri, line, c)
                && #[trigger] self.completion_is(Some("$scope"@), c, Seq::empty(), scope)
                && #[trigger] self.index.templates.inherited_variables_are(uri, iv)
                && #[trigger] self.index.templates.inherited_forms_are(uri, ifb)
                && #[trigger] aliases_are(self.index, uri, line, al)
                && {
                    let items = template_items(scope,
                        list_at(self.index.html@.local_variables, uri).filter(local_variable_in_scope(line)), iv,
                        list_at(self.index.html@.form_bindings, uri).filter(form_in_scope(line)), ifb, al);
                    r == if items.len() == 0 { None } else { Some(items) }
                }
        }
    }

    /// Candidates inside a template at `line` of `uri`, when the cursor is inside an
    /// AngularJS expression there.
    pub fn complete_in_template(&self, uri: &str, line: u32, in_expression: bool) -> (r: Option<Vec<CompletionItem>>)
        ensures
            self.template_completion_is(uri@, line as int, in_expression, match r { Some(v) => Some(views_of(v@)), None => None }),
    {
        if !in_expression {
            return None;
        }
        let controller = self.index.resolve_controller_for_html(uri, line);
        let ghost c = opt_view(controller);
        let current: Option<&str> = match &controller {
            Some(n) => Some(n.as_str()),
            None => None,
        };
        let mut items = match self.complete_with_context(Some("$scope"), current, &Vec::new()) {
            Some(v) => v,
            None => Vec::new(),
        };
        proof {
            reveal_strlit("$scope");
            assert(views(Seq::<String>::empty()) =~= Seq::<Seq<char>>::empty());
        }
        let ghost scope = views_of(items@);
        let lv = self.index.html.get_local_variables_at(uri, line);
        let mut i: usize = 0;
        proof { assert(views_of(items@) == local_items(scope, lv@.take(0))); }
        while i < lv.len()
            invariant
                i <= lv@.len(),
                views_of(items@) == local_items(scope, lv@.take(i as int)),
            decreases lv.len() - i,
        {
            proof { assert(lv@.take(i + 1).drop_last() =~= lv@.take(i as int)); }
            let ghost before = views_of(items@);
            let d1 = concat("local variable (", lv[i].source.as_str());
            let detail = concat(&d1, ")");
            proof { reveal_strlit("local variable ("); reveal_strlit(")"); }
            items.push(CompletionItem { label: lv[i].name.clone(), kind: CompletionKind::Variable, detail, sort_text: None, documentation: None });
            proof { assert(views_of(items@) =~= before.push(variable_item(lv@[i as int].name@, "local variable ("@ + local_variable_source_name(lv@[i as int].source) + ")"@))); }
            i += 1;
        }
        proof { assert(lv@.take(i as int) =~= lv@); }
        let ghost s1 = views_of(items@);
        let iv = self.index.templates.get_inherited_local_variables_for_template(uri);
        let mut i: usize = 0;
        proof { assert(iv@.take(0) =~= Seq::<InheritedLocalVariable>::empty()); }
        while i < iv.len()
            invariant
                i <= iv@.len(),
                views_of(items@) == inherited_variable_items(s1, iv@.take(i as int)),
            decreases iv.len() - i,
        {
            proof { assert(iv@.take(i + 1).drop_last() =~= iv@.take(i as int)); }
            let d1 = concat("inherited variable (", iv[i].source.as_str());
            let detail = concat(&d1, ")");
            proof { reveal_strlit("inherited variable ("); reveal_strlit(")"); }
            push_unique(&mut items, &iv[i].name, detail);
            i += 1;
        }
        proof { assert(iv@.take(i as int) =~= iv@); }
        let ghost s2 = views_of(items@);
        let fb = self.index.html.get_form_bindings_at(uri, line);
        let mut i: usize = 0;
        proof { assert(fb@.take(0) =~= Seq::<HtmlFormBinding>::empty()); }
        while i < fb.len()
            invariant
                i <= fb@.len(),
                views_of(items@) == form_items(s2, fb@.take(i as int)),
            decreases fb.len() - i,
        {
            proof { assert(fb@.take(i + 1).drop_last() =~= fb@.take(i as int)); }
            let detail = "form binding ($scope)".to_owned();
            proof { reveal_strlit("form binding ($scope)"); }
            push_unique(&mut items, &fb[i].name, detail);
            i += 1;
        }
        proof { assert(fb@.take(i as int) =~= fb@); }
        let ghost s3 = views_of(items@);
        let ifb = self.index.templates.get_inherited_form_bindings_for_template(uri);
        let mut i: usize = 0;
        proof { assert(ifb@.take(0) =~= Seq::<InheritedFormBinding>::empty()); }
        while i < ifb.len()
            invariant
                i <= ifb@.len(),
                views_of(items@) == inherited_form_items(s3, ifb@.take(i as int)),
            decreases ifb.len() - i,
        {
            proof { assert(ifb@.take(i + 1).drop_last() =~= ifb@.take(i as int)); }
            let detail = "inherited form binding ($scope)".to_owned();
            proof { reveal_strlit("inherited form binding ($scope)"); }
            push_unique(&mut items, &ifb[i].name, detail);
            i += 1;
        }
        proof { assert(ifb@.take(i as int) =~= ifb@); }
        let ghost s4 = views_of(items@);
        let al = self.index.controllers.get_html_alias_mappings(uri, line);
        let ghost alv = al@.map_values(|p: (String, String)| (p.0@, p.1@));
        let mut i: usize = 0;
        proof { assert(alv.take(0) =~= Seq::<(Seq<char>, Seq<char>)>::empty()); }
        while i < al.len()
            invariant
                i <= al@.len(),
                alv == al@.map_values(|p: (String, String)| (p.0@, p.1@)),
                views_of(items@) == alias_items(s4, alv.take(i as int)),
            decreases al.len() - i,
        {
            proof { assert(alv.take(i + 1).drop_last() =~= alv.take(i as int)); }
            let d1 = concat("controller alias (", &al[i].1);
            let detail = concat(&d1, ")");
            proof { reveal_strlit("controller alias ("); reveal_strlit(")"); }
            push_unique(&mut items, &al[i].0, detail);
            i += 1;
        }
        proof {
            assert(alv.take(i as int) =~= alv);
            assert(aliases_are(self.index, uri@, line as int, alv)) by {
                let m = alias_map(list_at(self.index.controllers.html_scopes(), uri@), line as int);
                assert forall|k: Seq<char>| m.contains_key(k) implies exists|x: int| 0 <= x < alv.len() && #[trigger] alv[x].0 == k by {
                    let x = choose|x: int| 0 <= x < al@.len() && #[trigger] al@[x].0@ == k;
                    assert(alv[x].0 == k);
                }
            }
            assert(views_of(items@) == template_items(scope, lv@, iv@, fb@, ifb@, alv));
        }
        if items.len() == 0 {
            return None;
        }
        Some(items)
    }
}


/// `c` is the controller whose script body covers `line` of `uri` (the first such scope).
pub open spec fn controller_at_is(idx: &Index, uri: Seq<char>, line: int, c: Option<Seq<char>>) -> bool {
    let sc = list_at(idx.controllers.scopes(), uri);
    match c {
        Some(n) => exists|i: int| is_first_covering(sc, line, i) && sc[i].name@ == n,
        None => forall|j: int| 0 <= j < sc.len() ==> !covers(#[trigger] sc[j], line),
    }
}

/// `inj` is the services injected into the controller whose script body covers `line`
/// of `uri`; none when no scope does.
pub open spec fn injected_at_is(idx: &Index, uri: Seq<char>, line: int, inj: Seq<Seq<char>>) -> bool {
    let sc = list_at(idx.controllers.scopes(), uri);
    ||| exists|i: int| is_first_covering(sc, line, i) && inj == views(sc[i].injected_services@)
    ||| (forall|j: int| 0 <= j < sc.len() ==> !covers(#[trigger] sc[j], line)) && inj.len() == 0
}

/// `name` is defined as a service or a factory.
pub open spec fn service_or_factory(idx: &Index, name: Seq<char>) -> bool {
    exists|i: int| 0 <= i < list_at(idx.definitions.defs(), name).len()
        && (list_at(idx.definitions.defs(), name)[i].kind == SymbolKind::Service
            || list_at(idx.definitions.defs(), name)[i].kind == SymbolKind::Factory)
}

impl<'a> CompletionHandler<'a> {
    /// `r` is what completion at `(line, col)` of the document `uri` with text `text`
    /// gives: in a template, [`Self::template_completion_is`]; in a script, nothing after
    /// `name.` when `name` is neither `$scope` nor a service or factory, else the
    /// candidates for that prefix (or none) inside the controller covering the line, with
    /// the services it injects first.
    pub open spec fn completion_at_is(&self, uri: Seq<char>, text: Seq<char>, line: nat, col: nat, in_expression: bool, r: Option<Seq<CompletionView>>) -> bool {
        if html_path(path_of(uri)) {
            self.template_completion_is(uri, line as int, in_expression, r)
        } else {
            let p = service_prefix_spec(text, line, col);
            if p is Some && p->0 != "$scope"@ && !service_or_factory(self.index, p->0) {
                r is None
            } else {
                exists|c: Option<Seq<char>>, inj: Seq<Seq<char>>|
                    #[trigger] controller_at_is(self.index, uri, line as int, c) && #[trigger] injected_at_is(self.index, uri, line as int, inj)
                    && r is Some && self.completion_is(p, c, inj, r->0)
            }
        }
    }

    /// Candidates at `(line, col)` of the document `uri` whose text is `text`;
    /// `in_expression` tells whether, in a template, the cursor is inside an AngularJS
    /// expression.
    pub fn complete_at(&self, uri: &str, text: &str, line: u32, col: u32, in_expression: bool) -> (r: Option<Vec<CompletionItem>>)
        requires
            !html_path(path_of(uri@)) ==> prefix_cursor_fits(text@, line as nat, col as nat),
        ensures
            self.completion_at_is(uri@, text@, line as nat, col as nat, in_expression, match r { Some(v) => Some(views_of(v@)), None => None }),
    {
        if is_html_file(uri) {
            return self.complete_in_template(uri, line, in_expression);
        }
        let prefix = service_prefix_at(text, line, col);
        proof { reveal_strlit("$scope"); }
        match &prefix {
            Some(p) => {
                if !str_eq(p, "$scope") && !self.index.definitions.is_service_or_factory(p) {
                    return None;
                }
            },
            None => {},
        }
        let controller = self.index.controllers.get_controller_at(uri, line);
        let injected = self.index.controllers.get_injected_services_at(uri, line);
        let p: Option<&str> = match &prefix {
            Some(x) => Some(x.as_str()),
            None => None,
        };
        let c: Option<&str> = match &controller {
            Some(x) => Some(x.as_str()),
            None => None,
        };
        let r = self.complete_with_context(p, c, &injected);
        proof {
            assert(controller_at_is(self.index, uri@, line as int, opt_view(controller)));
            assert(injected_at_is(self.index, uri@, line as int, views(injected@)));
        }
        r
    }
}


/// `p` is the property of a `$scope` member of the controller `c` among `defs`.
pub open spec fn scope_member_of(defs: Seq<Symbol>, c: Seq<char>, p: Seq<char>) -> bool {
    exists|j: int| 0 <= j < defs.len() && (defs[j].kind == SymbolKind::ScopeProperty || defs[j].kind == SymbolKind::ScopeMethod)
        && scope_split(#[trigger] defs[j].name@) == Some((c, p))
}

/// One step of [`scope_items`]: the last definition adds at most its property, and
/// only one not yet there.
proof fn lemma_scope_items_step(defs: Seq<Symbol>, c: Seq<char>)
    requires
        defs.len() > 0,
    ensures
        ({
            let prev = scope_items(defs.drop_last(), Some(c));
            let cur = scope_items(defs, Some(c));
            let s = defs.last();
            let member = (s.kind == SymbolKind::ScopeProperty || s.kind == SymbolKind::ScopeMethod)
                && scope_split(s.name@) is Some && (scope_split(s.name@)->0).0 == c;
            &&& prev.len() <= cur.len() <= prev.len() + 1
            &&& forall|i: int| 0 <= i < prev.len() ==> cur[i] == prev[i]
            &&& cur.len() == prev.len() + 1 ==> member && (scope_split(s.name@)->0).1 == cur.last().label
                && !labels(prev).contains(cur.last().label)
            &&& member ==> (labels(prev).contains((scope_split(s.name@)->0).1) || cur.len() == prev.len() + 1)
        }),
{
}

/// One step of [`reference_items`]: the last name adds at most its property, and only
/// one not yet there.
proof fn lemma_reference_items_step(names: Seq<Seq<char>>, c: Seq<char>, base: Seq<CompletionView>)
    requires
        names.len() > 0,
    ensures
        ({
            let prev = reference_items(names.drop_last(), Some(c), base);
            let cur = reference_items(names, Some(c), base);
            &&& prev.len() <= cur.len() <= prev.len() + 1
            &&& forall|i: int| 0 <= i < prev.len() ==> cur[i] == prev[i]
            &&& cur.len() == prev.len() + 1 ==> scope_split(names.last()) == Some((c, cur.last().label))
                && !labels(prev).contains(cur.last().label)
        }),
{
}

#[verifier::spinoff_prover]
#[verifier::rlimit(80)]
proof fn lemma_scope_items(defs: Seq<Symbol>, c: Seq<char>)
    ensures
        forall|i: int| 0 <= i < scope_items(defs, Some(c)).len() ==> scope_member_of(defs, c, #[trigger] scope_items(defs, Some(c))[i].label),
        forall|i: int, k: int| 0 <= i < k < scope_items(defs, Some(c)).len()
            ==> #[trigger] scope_items(defs, Some(c))[i].label != #[trigger] scope_items(defs, Some(c))[k].label,
        forall|p: Seq<char>| #[trigger] scope_member_of(defs, c, p) ==> labels(scope_items(defs, Some(c))).contains(p),
    decreases defs.len(),
{
    if defs.len() > 0 {
        let d0 = defs.drop_last();
        lemma_scope_items(d0, c);
        lemma_scope_items_step(defs, c);
        let prev = scope_items(d0, Some(c));
        let cur = scope_items(defs, Some(c));
        let s = defs.last();
        assert forall|i: int| 0 <= i < cur.len() implies scope_member_of(defs, c, #[trigger] cur[i].label) by {
            if i < prev.len() {
                assert(scope_member_of(d0, c, prev[i].label));
                let j = choose|j: int| 0 <= j < d0.len() && (d0[j].kind == SymbolKind::ScopeProperty || d0[j].kind == SymbolKind::ScopeMethod)
                    && scope_split(#[trigger] d0[j].name@) == Some((c, prev[i].label));
                assert(defs[j] == d0[j]);
            } else {
                assert(defs[defs.len() - 1] == s);
                assert(cur[i] == cur.last());
            }
        }
        assert forall|i: int, k: int| 0 <= i < k < cur.len() implies #[trigger] cur[i].label != #[trigger] cur[k].label by {
            if k >= prev.len() {
                assert(labels(prev)[i] == prev[i].label);
                assert(cur[k] == cur.last());
            }
        }
        assert forall|p: Seq<char>| #[trigger] scope_member_of(defs, c, p) implies labels(cur).contains(p) by {
            let j = choose|j: int| 0 <= j < defs.len() && (defs[j].kind == SymbolKind::ScopeProperty || defs[j].kind == SymbolKind::ScopeMethod)
                && scope_split(#[trigger] defs[j].name@) == Some((c, p));
            if j < d0.len() {
                assert(d0[j] == defs[j]);
                assert(scope_member_of(d0, c, p));
                let x = choose|x: int| 0 <= x < labels(prev).len() && labels(prev)[x] == p;
                assert(labels(cur)[x] == p);
            } else {
                assert(defs[j] == s);
                if labels(prev).contains(p) {
                    let x = choose|x: int| 0 <= x < labels(prev).len() && labels(prev)[x] == p;
                    assert(labels(cur)[x] == p);
                } else {
                    assert(labels(cur)[prev.len() as int] == p);
                }
            }
        }
    }
}

#[verifier::spinoff_prover]
proof fn lemma_reference_items(names: Seq<Seq<char>>, c: Seq<char>, base: Seq<CompletionView>)
    requires
        forall|i: int, k: int| 0 <= i < k < base.len() ==> #[trigger] base[i].label != #[trigger] base[k].label,
    ensures
        forall|i: int, k: int| 0 <= i < k < reference_items(names, Some(c), base).len()
            ==> #[trigger] reference_items(names, Some(c), base)[i].label != #[trigger] reference_items(names, Some(c), base)[k].label,
        forall|i: int| 0 <= i < reference_items(names, Some(c), base).len() ==>
            labels(base).contains(#[trigger] reference_items(names, Some(c), base)[i].label)
            || exists|k: int| 0 <= k < names.len() && scope_split(#[trigger] names[k]) == Some((c, reference_items(names, Some(c), base)[i].label)),
        labels(base).is_prefix_of(labels(reference_items(names, Some(c), base))),
    decreases names.len(),
{
    if names.len() > 0 {
        let n0 = names.drop_last();
        lemma_reference_items(n0, c, base);
        lemma_reference_items_step(names, c, base);
        let prev = reference_items(n0, Some(c), base);
        let cur = reference_items(names, Some(c), base);
        assert forall|i: int, k: int| 0 <= i < k < cur.len() implies #[trigger] cur[i].label != #[trigger] cur[k].label by {
            if k >= prev.len() {
                assert(labels(prev)[i] == prev[i].label);
                assert(cur[k] == cur.last());
            }
        }
        assert forall|i: int| 0 <= i < cur.len() implies
            labels(base).contains(#[trigger] cur[i].label)
            || exists|k: int| 0 <= k < names.len() && scope_split(#[trigger] names[k]) == Some((c, cur[i].label)) by {
            if i < prev.len() {
                if !labels(base).contains(prev[i].label) {
                    let k = choose|k: int| 0 <= k < n0.len() && scope_split(#[trigger] n0[k]) == Some((c, prev[i].label));
                    assert(names[k] == n0[k]);
                }
            } else {
                assert(names[names.len() - 1] == names.last());
                assert(cur[i] == cur.last());
            }
        }
        assert forall|x: int| 0 <= x < labels(base).len() implies labels(base)[x] == labels(cur)[x] by {
            assert(labels(base)[x] == labels(prev)[x]);
            assert(cur[x] == prev[x]);
        }
    } else {
        assert(labels(base).is_prefix_of(labels(base)));
        assert forall|i: int| 0 <= i < base.len() implies labels(base).contains(#[trigger] base[i].label) by {
            assert(labels(base)[i] == base[i].label);
        }
    }
}

/// After `$scope.` inside the controller `c`, completion offers each property and method
/// `c` defines on its `$scope` (a definition named `c.$scope.p`), each label once, and no
/// label but those and the reference-only names `c.$scope.p`: never another controller's.
pub proof fn law_scope_completion_offers_current_controller_members(defs: Seq<Symbol>, names: Seq<Seq<char>>, c: Seq<char>)
    ensures
        ({
            let r = reference_items(names, Some(c), scope_items(defs, Some(c)));
            &&& forall|i: int, k: int| 0 <= i < k < r.len() ==> #[trigger] r[i].label != #[trigger] r[k].label
            &&& forall|i: int| 0 <= i < r.len() ==> scope_member_of(defs, c, #[trigger] r[i].label)
                || exists|k: int| 0 <= k < names.len() && scope_split(#[trigger] names[k]) == Some((c, r[i].label))
            &&& forall|p: Seq<char>| #[trigger] scope_member_of(defs, c, p) ==> labels(r).contains(p)
        }),
{
    lemma_scope_items(defs, c);
    let base = scope_items(defs, Some(c));
    lemma_reference_items(names, c, base);
    let r = reference_items(names, Some(c), base);
    assert forall|i: int| 0 <= i < r.len() implies scope_member_of(defs, c, #[trigger] r[i].label)
        || exists|k: int| 0 <= k < names.len() && scope_split(#[trigger] names[k]) == Some((c, r[i].label)) by {
        if labels(base).contains(r[i].label) {
            let x = choose|x: int| 0 <= x < labels(base).len() && labels(base)[x] == r[i].label;
            assert(base[x].label == r[i].label);
        }
    }
    assert forall|p: Seq<char>| #[trigger] scope_member_of(defs, c, p) implies labels(r).contains(p) by {
        assert(labels(base).contains(p));
        let x = choose|x: int| 0 <= x < labels(base).len() && labels(base)[x] == p;
        assert(labels(r)[x] == p);
    }
}


/// The kinds plain completion leaves out: methods, `$scope` members and controllers.
pub open spec fn member_or_controller(k: SymbolKind) -> bool {
    ||| k == SymbolKind::Method
    ||| k == SymbolKind::ScopeProperty
    ||| k == SymbolKind::ScopeMethod
    ||| k == SymbolKind::Controller
}

proof fn lemma_general_items_offer(defs: Seq<Symbol>, injected: Seq<Seq<char>>, j: int)
    requires
        0 <= j < defs.len(),
        !member_or_controller(defs[j].kind),
    ensures
        labels(general_items(defs, injected)).contains(defs[j].name@),
    decreases defs.len(),
{
    let prev = general_items(defs.drop_last(), injected);
    let cur = general_items(defs, injected);
    if j == defs.len() - 1 {
        assert(labels(cur)[prev.len() as int] == defs[j].name@);
    } else {
        assert(defs.drop_last()[j] == defs[j]);
        lemma_general_items_offer(defs.drop_last(), injected, j);
        let x = choose|x: int| 0 <= x < labels(prev).len() && labels(prev)[x] == defs[j].name@;
        assert(labels(cur)[x] == labels(prev)[x]);
    }
}

impl<'a> CompletionHandler<'a> {
    /// Plain completion (no `name.` before the cursor) offers the name of every
    /// definition that is not a method, a `$scope` member or a controller: every service,
    /// factory, directive, component, module, filter, constant, value and the like.
    pub proof fn law_plain_completion_offers_every_non_member_symbol(&self, current: Option<Seq<char>>, injected: Seq<Seq<char>>, r: Seq<CompletionView>)
        requires
            self.completion_is(None, current, injected, r),
        ensures
            forall|n: Seq<char>, i: int| self.index.definitions.defs().contains_key(n) && 0 <= i < self.index.definitions.defs()[n].len()
                && !member_or_controller((#[trigger] self.index.definitions.defs()[n][i]).kind)
                ==> labels(r).contains(self.index.definitions.defs()[n][i].name@),
    {
        let defs = choose|defs: Seq<Symbol>| #[trigger] self.index.definitions.all_definitions_are(defs)
            && r == general_items(defs, injected);
        let e = choose|e: Seq<(String, Vec<Symbol>)>| crate::index::tables::list_snapshot_of(e, self.index.definitions.defs()) && defs == flatten(e);
        assert forall|n: Seq<char>, i: int| self.index.definitions.defs().contains_key(n) && 0 <= i < self.index.definitions.defs()[n].len()
            && !member_or_controller((#[trigger] self.index.definitions.defs()[n][i]).kind)
            implies labels(r).contains(self.index.definitions.defs()[n][i].name@) by {
            crate::index::snapshot::lemma_snapshot_flatten_holds(e, self.index.definitions.defs(), n, i);
            let x = self.index.definitions.defs()[n][i];
            let j = choose|j: int| 0 <= j < defs.len() && defs[j] == x;
            lemma_general_items_offer(defs, injected, j);
        }
    }
}

} // verus!
