//! What the template analysis records, per document: scope expressions, local
//! variables and their references, forms, directives, `ng-model` targets, `ui-sref`
//! states and component elements.
use vstd::prelude::*;

use crate::index::snapshot::{flatten, flatten_entries, list_at};
use crate::index::tables::{
    list_snapshot_of, component_usage_lists, component_usage_lists_entries, component_usage_lists_get, component_usage_lists_insert, component_usage_lists_new, component_usage_lists_remove, directive_reference_lists, directive_reference_lists_entries, directive_reference_lists_get, directive_reference_lists_insert, directive_reference_lists_new, directive_reference_lists_remove, form_binding_lists, form_binding_lists_entries, form_binding_lists_get, form_binding_lists_insert, form_binding_lists_new, form_binding_lists_remove, local_reference_lists, local_reference_lists_entries, local_reference_lists_get, local_reference_lists_insert, local_reference_lists_new, local_reference_lists_remove, local_variable_lists, local_variable_lists_entries, local_variable_lists_get, local_variable_lists_insert, local_variable_lists_new, local_variable_lists_remove, ng_model_target_lists, ng_model_target_lists_entries, ng_model_target_lists_get, ng_model_target_lists_insert, ng_model_target_lists_new, ng_model_target_lists_remove, scope_reference_lists, scope_reference_lists_entries, scope_reference_lists_get, scope_reference_lists_insert, scope_reference_lists_new, scope_reference_lists_remove, ui_sref_lists, ui_sref_lists_entries, ui_sref_lists_get, ui_sref_lists_insert, ui_sref_lists_new, ui_sref_lists_remove,
};
use crate::model::html::{
    directive_reference_span, form_name_span, local_reference_span, local_variable_name_span,
    ui_sref_span,
};
use crate::model::span::{span_contains, Span};
use crate::model::{
    HtmlComponentUsage, HtmlDirectiveReference, HtmlFormBinding, HtmlLocalVariable,
    HtmlLocalVariableReference, HtmlNgModelTarget, HtmlScopeReference, HtmlUiSrefReference,
};
use crate::text::str_eq;

verus! {

/// Everything the store holds, map by map.
pub struct HtmlIndexView {
    /// Scope expressions by document, in the order added.
    pub scope_references: Map<Seq<char>, Seq<HtmlScopeReference>>,
    /// Local variables by document, in the order added.
    pub local_variables: Map<Seq<char>, Seq<HtmlLocalVariable>>,
    /// Local variable references by variable name, in the order added.
    pub local_variable_references: Map<Seq<char>, Seq<HtmlLocalVariableReference>>,
    /// Form bindings by document, in the order added.
    pub form_bindings: Map<Seq<char>, Seq<HtmlFormBinding>>,
    /// Directive references by document, in the order added.
    pub directive_references: Map<Seq<char>, Seq<HtmlDirectiveReference>>,
    /// ng-model targets by document, in the order added.
    pub ng_model_targets: Map<Seq<char>, Seq<HtmlNgModelTarget>>,
    /// ui-sref references by document, in the order added.
    pub ui_sref_references: Map<Seq<char>, Seq<HtmlUiSrefReference>>,
    /// Component usages by document, in the order added.
    pub component_usages: Map<Seq<char>, Seq<HtmlComponentUsage>>,
}

/// The span of a scope expression.
pub open spec fn scope_reference_span(r: HtmlScopeReference) -> Span {
    Span { start_line: r.start_line, start_col: r.start_col, end_line: r.end_line, end_col: r.end_col }
}

/// `i` is the first element of `s` satisfying `p`.
pub open spec fn is_first<T>(s: Seq<T>, p: spec_fn(T) -> bool, i: int) -> bool {
    &&& 0 <= i < s.len()
    &&& p(s[i])
    &&& forall|j: int| 0 <= j < i ==> !p(#[trigger] s[j])
}

/// What a search for the first element of `s` satisfying `p` gives.
pub open spec fn first_found<T>(s: Seq<T>, p: spec_fn(T) -> bool, r: Option<T>) -> bool {
    match r {
        Some(x) => exists|i: int| is_first(s, p, i) && s[i] == x,
        None => forall|j: int| 0 <= j < s.len() ==> !p(#[trigger] s[j]),
    }
}

/// `i` is the last element of `s` satisfying `p` with the greatest `key`.
pub open spec fn is_last_max<T>(s: Seq<T>, p: spec_fn(T) -> bool, key: spec_fn(T) -> int, i: int) -> bool {
    &&& 0 <= i < s.len()
    &&& p(s[i])
    &&& forall|j: int| 0 <= j < s.len() && p(#[trigger] s[j]) ==> key(s[j]) <= key(s[i])
    &&& forall|j: int| i < j < s.len() && p(#[trigger] s[j]) ==> key(s[j]) < key(s[i])
}

/// What `max_by_key` over the elements of `s` satisfying `p` gives.
pub open spec fn max_found<T>(s: Seq<T>, p: spec_fn(T) -> bool, key: spec_fn(T) -> int, r: Option<T>) -> bool {
    match r {
        Some(x) => exists|i: int| is_last_max(s, p, key, i) && s[i] == x,
        None => forall|j: int| 0 <= j < s.len() ==> !p(#[trigger] s[j]),
    }
}

/// A scope expression of a document at a position.
pub open spec fn scope_reference_at(line: int, col: int) -> spec_fn(HtmlScopeReference) -> bool {
    |r: HtmlScopeReference| span_contains(scope_reference_span(r), line, col)
}

/// A local variable in scope at `line`.
pub open spec fn local_variable_in_scope(line: int) -> spec_fn(HtmlLocalVariable) -> bool {
    |v: HtmlLocalVariable| v.scope_start_line <= line <= v.scope_end_line
}

/// A local variable named `name` in scope at `line`.
pub open spec fn local_variable_named(name: Seq<char>, line: int) -> spec_fn(HtmlLocalVariable) -> bool {
    |v: HtmlLocalVariable| v.name@ == name && v.scope_start_line <= line <= v.scope_end_line
}

/// A local variable whose name is written at a position.
pub open spec fn local_variable_name_at(line: int, col: int) -> spec_fn(HtmlLocalVariable) -> bool {
    |v: HtmlLocalVariable| span_contains(local_variable_name_span(v), line, col)
}

/// The first line of a local variable's scope.
pub open spec fn local_variable_scope_start(v: HtmlLocalVariable) -> int {
    v.scope_start_line as int
}

/// A reference made in `uri` starting within lines `from..=to`.
pub open spec fn local_reference_within(uri: Seq<char>, from: int, to: int) -> spec_fn(HtmlLocalVariableReference) -> bool {
    |r: HtmlLocalVariableReference| r.uri@ == uri && from <= r.start_line <= to
}

/// A reference made in `uri` at a position.
pub open spec fn local_reference_at(uri: Seq<char>, line: int, col: int) -> spec_fn(HtmlLocalVariableReference) -> bool {
    |r: HtmlLocalVariableReference| r.uri@ == uri && span_contains(local_reference_span(r), line, col)
}

/// A reference made in `uri`.
pub open spec fn local_reference_in(uri: Seq<char>) -> spec_fn(HtmlLocalVariableReference) -> bool {
    |r: HtmlLocalVariableReference| r.uri@ == uri
}

/// A reference not made in `uri`.
pub open spec fn local_reference_outside(uri: Seq<char>) -> spec_fn(HtmlLocalVariableReference) -> bool {
    |r: HtmlLocalVariableReference| r.uri@ != uri
}

/// A form binding in scope at `line`.
pub open spec fn form_in_scope(line: int) -> spec_fn(HtmlFormBinding) -> bool {
    |b: HtmlFormBinding| b.scope_start_line <= line <= b.scope_end_line
}

/// A form named `name` in scope at `line`.
pub open spec fn form_named(name: Seq<char>, line: int) -> spec_fn(HtmlFormBinding) -> bool {
    |b: HtmlFormBinding| b.name@ == name && b.scope_start_line <= line <= b.scope_end_line
}

/// A form whose name is written at a position.
pub open spec fn form_name_at(line: int, col: int) -> spec_fn(HtmlFormBinding) -> bool {
    |b: HtmlFormBinding| span_contains(form_name_span(b), line, col)
}

/// The first line of a form binding's scope.
pub open spec fn form_scope_start(b: HtmlFormBinding) -> int {
    b.scope_start_line as int
}

/// A directive reference at a position.
pub open spec fn directive_at(line: int, col: int) -> spec_fn(HtmlDirectiveReference) -> bool {
    |r: HtmlDirectiveReference| span_contains(directive_reference_span(r), line, col)
}

/// A reference to the directive `name`.
pub open spec fn directive_named(name: Seq<char>) -> spec_fn(HtmlDirectiveReference) -> bool {
    |r: HtmlDirectiveReference| r.directive_name@ == name
}

/// A `ui-sref` state name at a position.
pub open spec fn ui_sref_at(line: int, col: int) -> spec_fn(HtmlUiSrefReference) -> bool {
    |r: HtmlUiSrefReference| span_contains(ui_sref_span(r), line, col)
}

/// A `ui-sref` naming the state `name`.
pub open spec fn ui_sref_named(name: Seq<char>) -> spec_fn(HtmlUiSrefReference) -> bool {
    |r: HtmlUiSrefReference| r.state_name@ == name
}

/// Every list of `m` without the references made in `uri`; the keys stay.
pub open spec fn without_uri_references(m: Map<Seq<char>, Seq<HtmlLocalVariableReference>>, uri: Seq<char>) -> Map<Seq<char>, Seq<HtmlLocalVariableReference>> {
    m.map_values(|l: Seq<HtmlLocalVariableReference>| l.filter(local_reference_outside(uri)))
}

/// The template analysis records.
pub struct HtmlStore {
    html_scope_references: dashmap::DashMap<String, Vec<HtmlScopeReference>>,
    html_local_variables: dashmap::DashMap<String, Vec<HtmlLocalVariable>>,
    html_local_variable_references: dashmap::DashMap<String, Vec<HtmlLocalVariableReference>>,
    html_form_bindings: dashmap::DashMap<String, Vec<HtmlFormBinding>>,
    html_directive_references: dashmap::DashMap<String, Vec<HtmlDirectiveReference>>,
    ng_model_targets: dashmap::DashMap<String, Vec<HtmlNgModelTarget>>,
    ui_sref_references: dashmap::DashMap<String, Vec<HtmlUiSrefReference>>,
    component_usages: dashmap::DashMap<String, Vec<HtmlComponentUsage>>,
}

impl HtmlStore {
    /// What the store holds.
    pub closed spec fn view(&self) -> HtmlIndexView {
        HtmlIndexView {
            scope_references: scope_reference_lists(self.html_scope_references),
            local_variables: local_variable_lists(self.html_local_variables),
            local_variable_references: local_reference_lists(self.html_local_variable_references),
            form_bindings: form_binding_lists(self.html_form_bindings),
            directive_references: directive_reference_lists(self.html_directive_references),
            ng_model_targets: ng_model_target_lists(self.ng_model_targets),
            ui_sref_references: ui_sref_lists(self.ui_sref_references),
            component_usages: component_usage_lists(self.component_usages),
        }
    }

    pub fn new() -> (r: Self)
        ensures
            r@.scope_references =~= Map::empty(),
            r@.local_variables =~= Map::empty(),
            r@.local_variable_references =~= Map::empty(),
            r@.form_bindings =~= Map::empty(),
            r@.directive_references =~= Map::empty(),
            r@.ng_model_targets =~= Map::empty(),
            r@.ui_sref_references =~= Map::empty(),
            r@.component_usages =~= Map::empty(),
    {
        HtmlStore {
            html_scope_references: scope_reference_lists_new(),
            html_local_variables: local_variable_lists_new(),
            html_local_variable_references: local_reference_lists_new(),
            html_form_bindings: form_binding_lists_new(),
            html_directive_references: directive_reference_lists_new(),
            ng_model_targets: ng_model_target_lists_new(),
            ui_sref_references: ui_sref_lists_new(),
            component_usages: component_usage_lists_new(),
        }
    }

    /// Appends a scope expression to those of its document.
    pub fn add_html_scope_reference(&mut self, x: HtmlScopeReference)
        ensures
            final(self)@.scope_references == old(self)@.scope_references.insert(x.uri@, list_at(old(self)@.scope_references, x.uri@).push(x)),
            final(self)@.local_variables == old(self)@.local_variables,
            final(self)@.local_variable_references == old(self)@.local_variable_references,
            final(self)@.form_bindings == old(self)@.form_bindings,
            final(self)@.directive_references == old(self)@.directive_references,
            final(self)@.ng_model_targets == old(self)@.ng_model_targets,
            final(self)@.ui_sref_references == old(self)@.ui_sref_references,
            final(self)@.component_usages == old(self)@.component_usages,
    {
        let key = x.uri.clone();
        let mut list = match scope_reference_lists_get(&self.html_scope_references, &key) {
            Some(l) => l,
            None => Vec::new(),
        };
        list.push(x);
        scope_reference_lists_insert(&mut self.html_scope_references, key, list);
    }

    /// The first scope expression of `uri` whose span holds `(line, col)`.
    pub fn find_html_scope_reference_at(&self, uri: &str, line: u32, col: u32) -> (r: Option<HtmlScopeReference>)
        ensures
            first_found(list_at(self@.scope_references, uri@), scope_reference_at(line as int, col as int), r),
    {
        let list = match scope_reference_lists_get(&self.html_scope_references, uri) {
            Some(l) => l,
            None => Vec::new(),
        };
        let mut i: usize = 0;
        while i < list.len()
            invariant
                i <= list@.len(),
                list@ == list_at(self@.scope_references, uri@),
                forall|j: int| 0 <= j < i ==> !(scope_reference_at(line as int, col as int))(#[trigger] list@[j]),
            decreases list.len() - i,
        {
            if list[i].span().contains(line, col) {
                let x = list[i].clone();
                proof { assert(is_first(list@, scope_reference_at(line as int, col as int), i as int)); }
                return Some(x);
            }
            i += 1;
        }
        None
    }

    /// The scope expressions of `uri`, in the order added.
    pub fn get_html_scope_references(&self, uri: &str) -> (r: Vec<HtmlScopeReference>)
        ensures
            r@ == list_at(self@.scope_references, uri@),
    {
        match scope_reference_lists_get(&self.html_scope_references, uri) {
            Some(v) => v,
            None => Vec::new(),
        }
    }

    /// Every scope expression; documents in the map's own order.
    pub fn get_all_html_scope_references_for_cache(&self) -> (r: Vec<HtmlScopeReference>)
        ensures
            exists|e: Seq<(String, Vec<HtmlScopeReference>)>| list_snapshot_of(e, self@.scope_references) && r@ == flatten(e),
    {
        let entries = scope_reference_lists_entries(&self.html_scope_references);
        let ghost e = entries@;
        let r = flatten_entries(entries);
        proof { assert(list_snapshot_of(e, self@.scope_references)); }
        r
    }

    /// Adds a local variable to its document unless one of the same name is already written at the same start.
    pub fn add_html_local_variable(&mut self, x: HtmlLocalVariable)
        ensures
            if exists|i: int| 0 <= i < list_at(old(self)@.local_variables, x.uri@).len()
                && (list_at(old(self)@.local_variables, x.uri@)[i].name@ == x.name@ && list_at(old(self)@.local_variables, x.uri@)[i].name_start_line == x.name_start_line && list_at(old(self)@.local_variables, x.uri@)[i].name_start_col == x.name_start_col) {
                final(self)@.local_variables == old(self)@.local_variables
            } else {
                final(self)@.local_variables == old(self)@.local_variables.insert(x.uri@, list_at(old(self)@.local_variables, x.uri@).push(x))
            },
            final(self)@.scope_references == old(self)@.scope_references,
            final(self)@.local_variable_references == old(self)@.local_variable_references,
            final(self)@.form_bindings == old(self)@.form_bindings,
            final(self)@.directive_references == old(self)@.directive_references,
            final(self)@.ng_model_targets == old(self)@.ng_model_targets,
            final(self)@.ui_sref_references == old(self)@.ui_sref_references,
            final(self)@.component_usages == old(self)@.component_usages,
    {
        let key = x.uri.clone();
        let mut list = match local_variable_lists_get(&self.html_local_variables, &key) {
            Some(l) => l,
            None => Vec::new(),
        };
        let mut i: usize = 0;
        while i < list.len()
            invariant
                i <= list@.len(),
                list@ == list_at(old(self)@.local_variables, x.uri@),
                *self == *old(self),
                forall|j: int| 0 <= j < i ==> !(list@[j].name@ == x.name@ && list@[j].name_start_line == x.name_start_line && list@[j].name_start_col == x.name_start_col),
            decreases list.len() - i,
        {
            if str_eq(&list[i].name, &x.name) && list[i].name_start_line == x.name_start_line && list[i].name_start_col == x.name_start_col {
                return;
            }
            i += 1;
        }
        list.push(x);
        local_variable_lists_insert(&mut self.html_local_variables, key, list);
    }

    /// Adds a reference under its variable's name unless the same document already has one at the same start.
    pub fn add_html_local_variable_reference(&mut self, x: HtmlLocalVariableReference)
        ensures
            if exists|i: int| 0 <= i < list_at(old(self)@.local_variable_references, x.variable_name@).len()
                && (list_at(old(self)@.local_variable_references, x.variable_name@)[i].uri@ == x.uri@ && list_at(old(self)@.local_variable_references, x.variable_name@)[i].start_line == x.start_line && list_at(old(self)@.local_variable_references, x.variable_name@)[i].start_col == x.start_col) {
                final(self)@.local_variable_references == old(self)@.local_variable_references
            } else {
                final(self)@.local_variable_references == old(self)@.local_variable_references.insert(x.variable_name@, list_at(old(self)@.local_variable_references, x.variable_name@).push(x))
            },
            final(self)@.scope_references == old(self)@.scope_references,
            final(self)@.local_variables == old(self)@.local_variables,
            final(self)@.form_bindings == old(self)@.form_bindings,
            final(self)@.directive_references == old(self)@.directive_references,
            final(self)@.ng_model_targets == old(self)@.ng_model_targets,
            final(self)@.ui_sref_references == old(self)@.ui_sref_references,
            final(self)@.component_usages == old(self)@.component_usages,
    {
        let key = x.variable_name.clone();
        let mut list = match local_reference_lists_get(&self.html_local_variable_references, &key) {
            Some(l) => l,
            None => Vec::new(),
        };
        let mut i: usize = 0;
        while i < list.len()
            invariant
                i <= list@.len(),
                list@ == list_at(old(self)@.local_variable_references, x.variable_name@),
                *self == *old(self),
                forall|j: int| 0 <= j < i ==> !(list@[j].uri@ == x.uri@ && list@[j].start_line == x.start_line && list@[j].start_col == x.start_col),
            decreases list.len() - i,
        {
            if str_eq(&list[i].uri, &x.uri) && list[i].start_line == x.start_line && list[i].start_col == x.start_col {
                return;
            }
            i += 1;
        }
        list.push(x);
        local_reference_lists_insert(&mut self.html_local_variable_references, key, list);
    }

    /// The local variables of `uri` in scope at `line`, in order.
    pub fn get_local_variables_at(&self, uri: &str, line: u32) -> (r: Vec<HtmlLocalVariable>)
        ensures
            r@ == list_at(self@.local_variables, uri@).filter(local_variable_in_scope(line as int)),
    {
        let list = match local_variable_lists_get(&self.html_local_variables, uri) {
            Some(l) => l,
            None => Vec::new(),
        };
        let mut r: Vec<HtmlLocalVariable> = Vec::new();
        let mut i: usize = 0;
        while i < list.len()
            invariant
                i <= list@.len(),
                list@ == list_at(self@.local_variables, uri@),
                r@ == list@.take(i as int).filter(local_variable_in_scope(line as int)),
            decreases list.len() - i,
        {
            proof {
                assert(list@.take(i + 1).drop_last() =~= list@.take(i as int));
                reveal_with_fuel(Seq::filter, 1);
            }
            if list[i].is_in_scope(line) {
                r.push(list[i].clone());
            }
            i += 1;
        }
        proof { assert(list@.take(i as int) =~= list@); }
        r
    }

    /// The innermost definition of `variable_name` in scope at `line`: the one whose scope starts last (the later one on a tie).
    pub fn find_local_variable_definition(&self, uri: &str, variable_name: &str, line: u32) -> (r: Option<HtmlLocalVariable>)
        ensures
            max_found(list_at(self@.local_variables, uri@), local_variable_named(variable_name@, line as int), |x: HtmlLocalVariable| local_variable_scope_start(x), r),
    {
        let list = match local_variable_lists_get(&self.html_local_variables, uri) {
            Some(l) => l,
            None => Vec::new(),
        };
        let mut best: Option<usize> = None;
        let mut i: usize = 0;
        while i < list.len()
            invariant
                i <= list@.len(),
                list@ == list_at(self@.local_variables, uri@),
                match best {
                    Some(b) => b < i && is_last_max(list@.take(i as int), local_variable_named(variable_name@, line as int), |x: HtmlLocalVariable| local_variable_scope_start(x), b as int),
                    None => forall|j: int| 0 <= j < i ==> !(local_variable_named(variable_name@, line as int))(#[trigger] list@[j]),
                },
            decreases list.len() - i,
        {
            proof { assert(forall|j: int| 0 <= j < i ==> list@.take(i + 1)[j] == #[trigger] list@.take(i as int)[j]); }
            if str_eq(&list[i].name, variable_name) && list[i].is_in_scope(line) {
                let replace = match best {
                    None => true,
                    Some(b) => list[i].scope_start_line >= list[b].scope_start_line,
                };
                if replace {
                    best = Some(i);
                }
            }
            i += 1;
        }
        proof { assert(list@.take(i as int) =~= list@); }
        match best {
            Some(b) => Some(list[b].clone()),
            None => None,
        }
    }

    /// The references of `variable_name` made in `uri` that start within the given lines.
    fn references_within(&self, variable_name: &str, uri: &str, scope_start_line: u32, scope_end_line: u32) -> (r: Vec<HtmlLocalVariableReference>)
        ensures
            r@ == list_at(self@.local_variable_references, variable_name@).filter(local_reference_within(uri@, scope_start_line as int, scope_end_line as int)),
    {
        let list = match local_reference_lists_get(&self.html_local_variable_references, variable_name) {
            Some(l) => l,
            None => Vec::new(),
        };
        let mut r: Vec<HtmlLocalVariableReference> = Vec::new();
        let mut i: usize = 0;
        while i < list.len()
            invariant
                i <= list@.len(),
                list@ == list_at(self@.local_variable_references, variable_name@),
                r@ == list@.take(i as int).filter(local_reference_within(uri@, scope_start_line as int, scope_end_line as int)),
            decreases list.len() - i,
        {
            proof {
                assert(list@.take(i + 1).drop_last() =~= list@.take(i as int));
                reveal_with_fuel(Seq::filter, 1);
            }
            if str_eq(&list[i].uri, uri) && list[i].start_line >= scope_start_line && list[i].start_line <= scope_end_line {
                r.push(list[i].clone());
            }
            i += 1;
        }
        proof { assert(list@.take(i as int) =~= list@); }
        r
    }

    /// The first local variable of `uri` whose name is written at `(line, col)`.
    pub fn find_html_local_variable_definition_at(&self, uri: &str, line: u32, col: u32) -> (r: Option<HtmlLocalVariable>)
        ensures
            first_found(list_at(self@.local_variables, uri@), local_variable_name_at(line as int, col as int), r),
    {
        let list = match local_variable_lists_get(&self.html_local_variables, uri) {
            Some(l) => l,
            None => Vec::new(),
        };
        let mut i: usize = 0;
        while i < list.len()
            invariant
                i <= list@.len(),
                list@ == list_at(self@.local_variables, uri@),
                forall|j: int| 0 <= j < i ==> !(local_variable_name_at(line as int, col as int))(#[trigger] list@[j]),
            decreases list.len() - i,
        {
            if list[i].name_span().contains(line, col) {
                let x = list[i].clone();
                proof { assert(is_first(list@, local_variable_name_at(line as int, col as int), i as int)); }
                return Some(x);
            }
            i += 1;
        }
        None
    }

    /// The local variables of `uri`, in the order added.
    pub fn get_all_local_variables(&self, uri: &str) -> (r: Vec<HtmlLocalVariable>)
        ensures
            r@ == list_at(self@.local_variables, uri@),
    {
        match local_variable_lists_get(&self.html_local_variables, uri) {
            Some(v) => v,
            None => Vec::new(),
        }
    }

    /// `r` is the local variable references made in `uri`, gathered from every name's list
    /// (names in the map's own order).
    pub open spec fn local_references_in_are(&self, uri: Seq<char>, r: Seq<HtmlLocalVariableReference>) -> bool {
        exists|e: Seq<(String, Vec<HtmlLocalVariableReference>)>| list_snapshot_of(e, self@.local_variable_references)
            && r == flatten(e).filter(local_reference_in(uri))
    }

    /// The local variable references made in `uri`; names in the map's own order.
    pub fn get_all_local_variable_references_for_uri(&self, uri: &str) -> (r: Vec<HtmlLocalVariableReference>)
        ensures
            self.local_references_in_are(uri@, r@),
    {
        let entries = local_reference_lists_entries(&self.html_local_variable_references);
        let ghost e = entries@;
        let all = flatten_entries(entries);
        let mut r: Vec<HtmlLocalVariableReference> = Vec::new();
        let mut i: usize = 0;
        while i < all.len()
            invariant
                i <= all@.len(),
                r@ == all@.take(i as int).filter(local_reference_in(uri@)),
            decreases all.len() - i,
        {
            proof {
                assert(all@.take(i + 1).drop_last() =~= all@.take(i as int));
                reveal_with_fuel(Seq::filter, 1);
            }
            if str_eq(&all[i].uri, uri) {
                r.push(all[i].clone());
            }
            i += 1;
        }
        proof {
            assert(all@.take(i as int) =~= all@);
            assert(list_snapshot_of(e, self@.local_variable_references));
        }
        r
    }

    /// Every local variable; documents in the map's own order.
    pub fn get_all_html_local_variables_for_cache(&self) -> (r: Vec<HtmlLocalVariable>)
        ensures
            exists|e: Seq<(String, Vec<HtmlLocalVariable>)>| list_snapshot_of(e, self@.local_variables) && r@ == flatten(e),
    {
        let entries = local_variable_lists_entries(&self.html_local_variables);
        let ghost e = entries@;
        let r = flatten_entries(entries);
        proof { assert(list_snapshot_of(e, self@.local_variables)); }
        r
    }

    /// Every local variable reference; names in the map's own order.
    pub fn get_all_html_local_variable_references_for_cache(&self) -> (r: Vec<HtmlLocalVariableReference>)
        ensures
            exists|e: Seq<(String, Vec<HtmlLocalVariableReference>)>| list_snapshot_of(e, self@.local_variable_references) && r@ == flatten(e),
    {
        let entries = local_reference_lists_entries(&self.html_local_variable_references);
        let ghost e = entries@;
        let r = flatten_entries(entries);
        proof { assert(list_snapshot_of(e, self@.local_variable_references)); }
        r
    }

    /// Adds a form binding to its document unless one of the same name is already written at the same start.
    pub fn add_html_form_binding(&mut self, x: HtmlFormBinding)
        ensures
            if exists|i: int| 0 <= i < list_at(old(self)@.form_bindings, x.uri@).len()
                && (list_at(old(self)@.form_bindings, x.uri@)[i].name@ == x.name@ && list_at(old(self)@.form_bindings, x.uri@)[i].name_start_line == x.name_start_line && list_at(old(self)@.form_bindings, x.uri@)[i].name_start_col == x.name_start_col) {
                final(self)@.form_bindings == old(self)@.form_bindings
            } else {
                final(self)@.form_bindings == old(self)@.form_bindings.insert(x.uri@, list_at(old(self)@.form_bindings, x.uri@).push(x))
            },
            final(self)@.scope_references == old(self)@.scope_references,
            final(self)@.local_variables == old(self)@.local_variables,
            final(self)@.local_variable_references == old(self)@.local_variable_references,
            final(self)@.directive_references == old(self)@.directive_references,
            final(self)@.ng_model_targets == old(self)@.ng_model_targets,
            final(self)@.ui_sref_references == old(self)@.ui_sref_references,
            final(self)@.component_usages == old(self)@.component_usages,
    {
        let key = x.uri.clone();
        let mut list = match form_binding_lists_get(&self.html_form_bindings, &key) {
            Some(l) => l,
            None => Vec::new(),
        };
        let mut i: usize = 0;
        while i < list.len()
            invariant
                i <= list@.len(),
                list@ == list_at(old(self)@.form_bindings, x.uri@),
                *self == *old(self),
                forall|j: int| 0 <= j < i ==> !(list@[j].name@ == x.name@ && list@[j].name_start_line == x.name_start_line && list@[j].name_start_col == x.name_start_col),
            decreases list.len() - i,
        {
            if str_eq(&list[i].name, &x.name) && list[i].name_start_line == x.name_start_line && list[i].name_start_col == x.name_start_col {
                return;
            }
            i += 1;
        }
        list.push(x);
        form_binding_lists_insert(&mut self.html_form_bindings, key, list);
    }

    /// The form bindings of `uri` in scope at `line`, in order.
    pub fn get_form_bindings_at(&self, uri: &str, line: u32) -> (r: Vec<HtmlFormBinding>)
        ensures
            r@ == list_at(self@.form_bindings, uri@).filter(form_in_scope(line as int)),
    {
        let list = match form_binding_lists_get(&self.html_form_bindings, uri) {
            Some(l) => l,
            None => Vec::new(),
        };
        let mut r: Vec<HtmlFormBinding> = Vec::new();
        let mut i: usize = 0;
        while i < list.len()
            invariant
                i <= list@.len(),
                list@ == list_at(self@.form_bindings, uri@),
                r@ == list@.take(i as int).filter(form_in_scope(line as int)),
            decreases list.len() - i,
        {
            proof {
                assert(list@.take(i + 1).drop_last() =~= list@.take(i as int));
                reveal_with_fuel(Seq::filter, 1);
            }
            if list[i].is_in_scope(line) {
                r.push(list[i].clone());
            }
            i += 1;
        }
        proof { assert(list@.take(i as int) =~= list@); }
        r
    }

    /// The innermost form named `form_name` in scope at `line`: the one whose scope starts last (the later one on a tie).
    pub fn find_form_binding_definition(&self, uri: &str, form_name: &str, line: u32) -> (r: Option<HtmlFormBinding>)
        ensures
            max_found(list_at(self@.form_bindings, uri@), form_named(form_name@, line as int), |x: HtmlFormBinding| form_scope_start(x), r),
    {
        let list = match form_binding_lists_get(&self.html_form_bindings, uri) {
            Some(l) => l,
            None => Vec::new(),
        };
        let mut best: Option<usize> = None;
        let mut i: usize = 0;
        while i < list.len()
            invariant
                i <= list@.len(),
                list@ == list_at(self@.form_bindings, uri@),
                match best {
                    Some(b) => b < i && is_last_max(list@.take(i as int), form_named(form_name@, line as int), |x: HtmlFormBinding| form_scope_start(x), b as int),
                    None => forall|j: int| 0 <= j < i ==> !(form_named(form_name@, line as int))(#[trigger] list@[j]),
                },
            decreases list.len() - i,
        {
            proof { assert(forall|j: int| 0 <= j < i ==> list@.take(i + 1)[j] == #[trigger] list@.take(i as int)[j]); }
            if str_eq(&list[i].name, form_name) && list[i].is_in_scope(line) {
                let replace = match best {
                    None => true,
                    Some(b) => list[i].scope_start_line >= list[b].scope_start_line,
                };
                if replace {
                    best = Some(i);
                }
            }
            i += 1;
        }
        proof { assert(list@.take(i as int) =~= list@); }
        match best {
            Some(b) => Some(list[b].clone()),
            None => None,
        }
    }

    /// The first form binding of `uri` whose name is written at `(line, col)`.
    pub fn find_html_form_binding_at(&self, uri: &str, line: u32, col: u32) -> (r: Option<HtmlFormBinding>)
        ensures
            first_found(list_at(self@.form_bindings, uri@), form_name_at(line as int, col as int), r),
    {
        let list = match form_binding_lists_get(&self.html_form_bindings, uri) {
            Some(l) => l,
            None => Vec::new(),
        };
        let mut i: usize = 0;
        while i < list.len()
            invariant
                i <= list@.len(),
                list@ == list_at(self@.form_bindings, uri@),
                forall|j: int| 0 <= j < i ==> !(form_name_at(line as int, col as int))(#[trigger] list@[j]),
            decreases list.len() - i,
        {
            if list[i].name_span().contains(line, col) {
                let x = list[i].clone();
                proof { assert(is_first(list@, form_name_at(line as int, col as int), i as int)); }
                return Some(x);
            }
            i += 1;
        }
        None
    }

    /// The form bindings of `uri`, in the order added.
    pub fn get_all_form_bindings(&self, uri: &str) -> (r: Vec<HtmlFormBinding>)
        ensures
            r@ == list_at(self@.form_bindings, uri@),
    {
        match form_binding_lists_get(&self.html_form_bindings, uri) {
            Some(v) => v,
            None => Vec::new(),
        }
    }

    /// Every form binding; documents in the map's own order.
    pub fn get_all_html_form_bindings_for_cache(&self) -> (r: Vec<HtmlFormBinding>)
        ensures
            exists|e: Seq<(String, Vec<HtmlFormBinding>)>| list_snapshot_of(e, self@.form_bindings) && r@ == flatten(e),
    {
        let entries = form_binding_lists_entries(&self.html_form_bindings);
        let ghost e = entries@;
        let r = flatten_entries(entries);
        proof { assert(list_snapshot_of(e, self@.form_bindings)); }
        r
    }

    /// Adds a directive reference to its document unless the same directive is already used at the same start.
    pub fn add_html_directive_reference(&mut self, x: HtmlDirectiveReference)
        ensures
            if exists|i: int| 0 <= i < list_at(old(self)@.directive_references, x.uri@).len()
                && (list_at(old(self)@.directive_references, x.uri@)[i].directive_name@ == x.directive_name@ && list_at(old(self)@.directive_references, x.uri@)[i].start_line == x.start_line && list_at(old(self)@.directive_references, x.uri@)[i].start_col == x.start_col) {
                final(self)@.directive_references == old(self)@.directive_references
            } else {
                final(self)@.directive_references == old(self)@.directive_references.insert(x.uri@, list_at(old(self)@.directive_references, x.uri@).push(x))
            },
            final(self)@.scope_references == old(self)@.scope_references,
            final(self)@.local_variables == old(self)@.local_variables,
            final(self)@.local_variable_references == old(self)@.local_variable_references,
            final(self)@.form_bindings == old(self)@.form_bindings,
            final(self)@.ng_model_targets == old(self)@.ng_model_targets,
            final(self)@.ui_sref_references == old(self)@.ui_sref_references,
            final(self)@.component_usages == old(self)@.component_usages,
    {
        let key = x.uri.clone();
        let mut list = match directive_reference_lists_get(&self.html_directive_references, &key) {
            Some(l) => l,
            None => Vec::new(),
        };
        let mut i: usize = 0;
        while i < list.len()
            invariant
                i <= list@.len(),
                list@ == list_at(old(self)@.directive_references, x.uri@),
                *self == *old(self),
                forall|j: int| 0 <= j < i ==> !(list@[j].directive_name@ == x.directive_name@ && list@[j].start_line == x.start_line && list@[j].start_col == x.start_col),
            decreases list.len() - i,
        {
            if str_eq(&list[i].directive_name, &x.directive_name) && list[i].start_line == x.start_line && list[i].start_col == x.start_col {
                return;
            }
            i += 1;
        }
        list.push(x);
        directive_reference_lists_insert(&mut self.html_directive_references, key, list);
    }

    /// The first directive reference of `uri` whose span holds `(line, col)`.
    pub fn find_html_directive_reference_at(&self, uri: &str, line: u32, col: u32) -> (r: Option<HtmlDirectiveReference>)
        ensures
            first_found(list_at(self@.directive_references, uri@), directive_at(line as int, col as int), r),
    {
        let list = match directive_reference_lists_get(&self.html_directive_references, uri) {
            Some(l) => l,
            None => Vec::new(),
        };
        let mut i: usize = 0;
        while i < list.len()
            invariant
                i <= list@.len(),
                list@ == list_at(self@.directive_references, uri@),
                forall|j: int| 0 <= j < i ==> !(directive_at(line as int, col as int))(#[trigger] list@[j]),
            decreases list.len() - i,
        {
            if list[i].span().contains(line, col) {
                let x = list[i].clone();
                proof { assert(is_first(list@, directive_at(line as int, col as int), i as int)); }
                return Some(x);
            }
            i += 1;
        }
        None
    }

    /// `r` is the uses of the directive `directive_name` in every template, documents in
    /// the map's own order.
    pub open spec fn directive_references_are(&self, directive_name: Seq<char>, r: Seq<HtmlDirectiveReference>) -> bool {
        exists|e: Seq<(String, Vec<HtmlDirectiveReference>)>| list_snapshot_of(e, self@.directive_references)
            && r == flatten(e).filter(directive_named(directive_name))
    }

    /// Every reference to `directive_name`; documents in the map's own order.
    pub fn get_html_directive_references(&self, directive_name: &str) -> (r: Vec<HtmlDirectiveReference>)
        ensures
            self.directive_references_are(directive_name@, r@),
    {
        let entries = directive_reference_lists_entries(&self.html_directive_references);
        let ghost e = entries@;
        let all = flatten_entries(entries);
        let mut r: Vec<HtmlDirectiveReference> = Vec::new();
        let mut i: usize = 0;
        while i < all.len()
            invariant
                i <= all@.len(),
                r@ == all@.take(i as int).filter(directive_named(directive_name@)),
            decreases all.len() - i,
        {
            proof {
                assert(all@.take(i + 1).drop_last() =~= all@.take(i as int));
                reveal_with_fuel(Seq::filter, 1);
            }
            if str_eq(&all[i].directive_name, directive_name) {
                r.push(all[i].clone());
            }
            i += 1;
        }
        proof {
            assert(all@.take(i as int) =~= all@);
            assert(list_snapshot_of(e, self@.directive_references));
        }
        r
    }

    /// The directive references of `uri`, in the order added.
    pub fn get_all_directive_references_for_uri(&self, uri: &str) -> (r: Vec<HtmlDirectiveReference>)
        ensures
            r@ == list_at(self@.directive_references, uri@),
    {
        match directive_reference_lists_get(&self.html_directive_references, uri) {
            Some(v) => v,
            None => Vec::new(),
        }
    }

    /// Every directive reference; documents in the map's own order.
    pub fn get_all_html_directive_references_for_cache(&self) -> (r: Vec<HtmlDirectiveReference>)
        ensures
            exists|e: Seq<(String, Vec<HtmlDirectiveReference>)>| list_snapshot_of(e, self@.directive_references) && r@ == flatten(e),
    {
        let entries = directive_reference_lists_entries(&self.html_directive_references);
        let ghost e = entries@;
        let r = flatten_entries(entries);
        proof { assert(list_snapshot_of(e, self@.directive_references)); }
        r
    }

    /// Adds a component element to its document unless the same component is already used at the same start.
    pub fn add_component_usage(&mut self, x: HtmlComponentUsage)
        ensures
            if exists|i: int| 0 <= i < list_at(old(self)@.component_usages, x.uri@).len()
                && (list_at(old(self)@.component_usages, x.uri@)[i].component_name@ == x.component_name@ && list_at(old(self)@.component_usages, x.uri@)[i].element_start_line == x.element_start_line && list_at(old(self)@.component_usages, x.uri@)[i].element_start_col == x.element_start_col) {
                final(self)@.component_usages == old(self)@.component_usages
            } else {
                final(self)@.component_usages == old(self)@.component_usages.insert(x.uri@, list_at(old(self)@.component_usages, x.uri@).push(x))
            },
            final(self)@.scope_references == old(self)@.scope_references,
            final(self)@.local_variables == old(self)@.local_variables,
            final(self)@.local_variable_references == old(self)@.local_variable_references,
            final(self)@.form_bindings == old(self)@.form_bindings,
            final(self)@.directive_references == old(self)@.directive_references,
            final(self)@.ng_model_targets == old(self)@.ng_model_targets,
            final(self)@.ui_sref_references == old(self)@.ui_sref_references,
    {
        let key = x.uri.clone();
        let mut list = match component_usage_lists_get(&self.component_usages, &key) {
            Some(l) => l,
            None => Vec::new(),
        };
        let mut i: usize = 0;
        while i < list.len()
            invariant
                i <= list@.len(),
                list@ == list_at(old(self)@.component_usages, x.uri@),
                *self == *old(self),
                forall|j: int| 0 <= j < i ==> !(list@[j].component_name@ == x.component_name@ && list@[j].element_start_line == x.element_start_line && list@[j].element_start_col == x.element_start_col),
            decreases list.len() - i,
        {
            if str_eq(&list[i].component_name, &x.component_name) && list[i].element_start_line == x.element_start_line && list[i].element_start_col == x.element_start_col {
                return;
            }
            i += 1;
        }
        list.push(x);
        component_usage_lists_insert(&mut self.component_usages, key, list);
    }

    /// The component elements of `uri`, in the order added.
    pub fn get_component_usages_for_uri(&self, uri: &str) -> (r: Vec<HtmlComponentUsage>)
        ensures
            r@ == list_at(self@.component_usages, uri@),
    {
        match component_usage_lists_get(&self.component_usages, uri) {
            Some(v) => v,
            None => Vec::new(),
        }
    }

    /// Appends an `ng-model` target to those of its document.
    pub fn add_ng_model_target(&mut self, x: HtmlNgModelTarget)
        ensures
            final(self)@.ng_model_targets == old(self)@.ng_model_targets.insert(x.uri@, list_at(old(self)@.ng_model_targets, x.uri@).push(x)),
            final(self)@.scope_references == old(self)@.scope_references,
            final(self)@.local_variables == old(self)@.local_variables,
            final(self)@.local_variable_references == old(self)@.local_variable_references,
            final(self)@.form_bindings == old(self)@.form_bindings,
            final(self)@.directive_references == old(self)@.directive_references,
            final(self)@.ui_sref_references == old(self)@.ui_sref_references,
            final(self)@.component_usages == old(self)@.component_usages,
    {
        let key = x.uri.clone();
        let mut list = match ng_model_target_lists_get(&self.ng_model_targets, &key) {
            Some(l) => l,
            None => Vec::new(),
        };
        list.push(x);
        ng_model_target_lists_insert(&mut self.ng_model_targets, key, list);
    }

    /// The `ng-model` targets of `uri`, in the order added.
    pub fn get_ng_model_targets_for_uri(&self, uri: &str) -> (r: Vec<HtmlNgModelTarget>)
        ensures
            r@ == list_at(self@.ng_model_targets, uri@),
    {
        match ng_model_target_lists_get(&self.ng_model_targets, uri) {
            Some(v) => v,
            None => Vec::new(),
        }
    }

    /// Every `ng-model` target; documents in the map's own order.
    pub fn get_all_ng_model_targets_for_cache(&self) -> (r: Vec<HtmlNgModelTarget>)
        ensures
            exists|e: Seq<(String, Vec<HtmlNgModelTarget>)>| list_snapshot_of(e, self@.ng_model_targets) && r@ == flatten(e),
    {
        let entries = ng_model_target_lists_entries(&self.ng_model_targets);
        let ghost e = entries@;
        let r = flatten_entries(entries);
        proof { assert(list_snapshot_of(e, self@.ng_model_targets)); }
        r
    }

    /// Appends a `ui-sref` reference to those of its document.
    pub fn add_ui_sref_reference(&mut self, x: HtmlUiSrefReference)
        ensures
            final(self)@.ui_sref_references == old(self)@.ui_sref_references.insert(x.uri@, list_at(old(self)@.ui_sref_references, x.uri@).push(x)),
            final(self)@.scope_references == old(self)@.scope_references,
            final(self)@.local_variables == old(self)@.local_variables,
            final(self)@.local_variable_references == old(self)@.local_variable_references,
            final(self)@.form_bindings == old(self)@.form_bindings,
            final(self)@.directive_references == old(self)@.directive_references,
            final(self)@.ng_model_targets == old(self)@.ng_model_targets,
            final(self)@.component_usages == old(self)@.component_usages,
    {
        let key = x.uri.clone();
        let mut list = match ui_sref_lists_get(&self.ui_sref_references, &key) {
            Some(l) => l,
            None => Vec::new(),
        };
        list.push(x);
        ui_sref_lists_insert(&mut self.ui_sref_references, key, list);
    }

    /// The first `ui-sref` of `uri` whose state name holds `(line, col)`.
    pub fn find_ui_sref_reference_at(&self, uri: &str, line: u32, col: u32) -> (r: Option<HtmlUiSrefReference>)
        ensures
            first_found(list_at(self@.ui_sref_references, uri@), ui_sref_at(line as int, col as int), r),
    {
        let list = match ui_sref_lists_get(&self.ui_sref_references, uri) {
            Some(l) => l,
            None => Vec::new(),
        };
        let mut i: usize = 0;
        while i < list.len()
            invariant
                i <= list@.len(),
                list@ == list_at(self@.ui_sref_references, uri@),
                forall|j: int| 0 <= j < i ==> !(ui_sref_at(line as int, col as int))(#[trigger] list@[j]),
            decreases list.len() - i,
        {
            if list[i].span().contains(line, col) {
                let x = list[i].clone();
                proof { assert(is_first(list@, ui_sref_at(line as int, col as int), i as int)); }
                return Some(x);
            }
            i += 1;
        }
        None
    }

    /// The `ui-sref` references of `uri`, in the order added.
    pub fn get_ui_sref_references_for_uri(&self, uri: &str) -> (r: Vec<HtmlUiSrefReference>)
        ensures
            r@ == list_at(self@.ui_sref_references, uri@),
    {
        match ui_sref_lists_get(&self.ui_sref_references, uri) {
            Some(v) => v,
            None => Vec::new(),
        }
    }

    /// Every `ui-sref` naming `state_name`; documents in the map's own order.
    pub fn get_ui_sref_references_by_state(&self, state_name: &str) -> (r: Vec<HtmlUiSrefReference>)
        ensures
            exists|e: Seq<(String, Vec<HtmlUiSrefReference>)>| list_snapshot_of(e, self@.ui_sref_references) && r@ == flatten(e).filter(ui_sref_named(state_name@)),
    {
        let entries = ui_sref_lists_entries(&self.ui_sref_references);
        let ghost e = entries@;
        let all = flatten_entries(entries);
        let mut r: Vec<HtmlUiSrefReference> = Vec::new();
        let mut i: usize = 0;
        while i < all.len()
            invariant
                i <= all@.len(),
                r@ == all@.take(i as int).filter(ui_sref_named(state_name@)),
            decreases all.len() - i,
        {
            proof {
                assert(all@.take(i + 1).drop_last() =~= all@.take(i as int));
                reveal_with_fuel(Seq::filter, 1);
            }
            if str_eq(&all[i].state_name, state_name) {
                r.push(all[i].clone());
            }
            i += 1;
        }
        proof {
            assert(all@.take(i as int) =~= all@);
            assert(list_snapshot_of(e, self@.ui_sref_references));
        }
        r
    }

    /// Every `ui-sref` reference; documents in the map's own order.
    pub fn get_all_ui_sref_references_for_cache(&self) -> (r: Vec<HtmlUiSrefReference>)
        ensures
            exists|e: Seq<(String, Vec<HtmlUiSrefReference>)>| list_snapshot_of(e, self@.ui_sref_references) && r@ == flatten(e),
    {
        let entries = ui_sref_lists_entries(&self.ui_sref_references);
        let ghost e = entries@;
        let r = flatten_entries(entries);
        proof { assert(list_snapshot_of(e, self@.ui_sref_references)); }
        r
    }

    /// Every reference to the local variable `variable_name`, in the order added.
    pub fn html_local_variable_references_raw(&self, variable_name: &str) -> (r: Vec<HtmlLocalVariableReference>)
        ensures
            r@ == list_at(self@.local_variable_references, variable_name@),
    {
        match local_reference_lists_get(&self.html_local_variable_references, variable_name) {
            Some(l) => l,
            None => Vec::new(),
        }
    }

    /// The references of `variable_name` made in `uri` that start within lines
    /// `scope_start_line..=scope_end_line`, in the order added.
    pub fn get_local_variable_references(&self, uri: &str, variable_name: &str, scope_start_line: u32, scope_end_line: u32) -> (r: Vec<HtmlLocalVariableReference>)
        ensures
            r@ == list_at(self@.local_variable_references, variable_name@).filter(local_reference_within(uri@, scope_start_line as int, scope_end_line as int)),
    {
        self.references_within(variable_name, uri, scope_start_line, scope_end_line)
    }

    /// `r` is the first local variable reference made in `uri` whose span holds
    /// `(line, col)`, variable names in the map's own order.
    pub open spec fn local_reference_at_is(&self, uri: Seq<char>, line: int, col: int, r: Option<HtmlLocalVariableReference>) -> bool {
        exists|e: Seq<(String, Vec<HtmlLocalVariableReference>)>| list_snapshot_of(e, self@.local_variable_references)
            && first_found(flatten(e), local_reference_at(uri, line, col), r)
    }

    /// The first local variable reference made in `uri` whose span holds `(line, col)`;
    /// variable names in the map's own order.
    pub fn find_html_local_variable_at(&self, uri: &str, line: u32, col: u32) -> (r: Option<HtmlLocalVariableReference>)
        ensures
            self.local_reference_at_is(uri@, line as int, col as int, r),
    {
        let entries = local_reference_lists_entries(&self.html_local_variable_references);
        let ghost e = entries@;
        let all = flatten_entries(entries);
        let mut i: usize = 0;
        while i < all.len()
            invariant
                i <= all@.len(),
                all@ == flatten(e),
                list_snapshot_of(e, self@.local_variable_references),
                forall|j: int| 0 <= j < i ==> !(local_reference_at(uri@, line as int, col as int))(#[trigger] all@[j]),
            decreases all.len() - i,
        {
            if str_eq(&all[i].uri, uri) && all[i].span().contains(line, col) {
                let x = all[i].clone();
                proof { assert(is_first(all@, local_reference_at(uri@, line as int, col as int), i as int)); }
                return Some(x);
            }
            i += 1;
        }
        None
    }

    /// Every document with its scope expressions, in the map's own order.
    pub fn iter_all_html_scope_references(&self) -> (r: Vec<(String, Vec<HtmlScopeReference>)>)
        ensures
            list_snapshot_of(r@, self@.scope_references),
    {
        scope_reference_lists_entries(&self.html_scope_references)
    }

    /// Removes from every variable's list the references made in `uri`.
    fn drop_local_references_of(&mut self, uri: &str)
        ensures
            final(self)@.local_variable_references == without_uri_references(old(self)@.local_variable_references, uri@),
            final(self)@.scope_references == old(self)@.scope_references,
            final(self)@.local_variables == old(self)@.local_variables,
            final(self)@.form_bindings == old(self)@.form_bindings,
            final(self)@.directive_references == old(self)@.directive_references,
            final(self)@.ng_model_targets == old(self)@.ng_model_targets,
            final(self)@.ui_sref_references == old(self)@.ui_sref_references,
            final(self)@.component_usages == old(self)@.component_usages,
    {
        let ghost m0 = self@.local_variable_references;
        let entries = local_reference_lists_entries(&self.html_local_variable_references);
        let mut i: usize = 0;
        while i < entries.len()
            invariant
                i <= entries@.len(),
                list_snapshot_of(entries@, m0),
                m0 == old(self)@.local_variable_references,
                self@.local_variable_references.dom() == m0.dom(),
                forall|k: Seq<char>| #[trigger] m0.contains_key(k) ==> self@.local_variable_references[k] == (
                    if exists|j: int| 0 <= j < i && entries@[j].0@ == k { m0[k].filter(local_reference_outside(uri@)) } else { m0[k] }),
                self@.scope_references == old(self)@.scope_references,
                self@.local_variables == old(self)@.local_variables,
                self@.form_bindings == old(self)@.form_bindings,
                self@.directive_references == old(self)@.directive_references,
                self@.ng_model_targets == old(self)@.ng_model_targets,
                self@.ui_sref_references == old(self)@.ui_sref_references,
                self@.component_usages == old(self)@.component_usages,
            decreases entries.len() - i,
        {
            let ghost before = self@.local_variable_references;
            let list = &entries[i].1;
            let mut kept: Vec<HtmlLocalVariableReference> = Vec::new();
            let mut j: usize = 0;
            while j < list.len()
                invariant
                    j <= list@.len(),
                    kept@ == list@.take(j as int).filter(local_reference_outside(uri@)),
                decreases list.len() - j,
            {
                proof {
                    assert(list@.take(j + 1).drop_last() =~= list@.take(j as int));
                    reveal_with_fuel(Seq::filter, 1);
                }
                if !str_eq(&list[j].uri, uri) {
                    kept.push(list[j].clone());
                }
                j += 1;
            }
            proof {
                assert(list@.take(j as int) =~= list@);
                assert(m0.contains_key(entries@[i as int].0@));
            }
            local_reference_lists_insert(&mut self.html_local_variable_references, entries[i].0.clone(), kept);
            proof {
                let k0 = entries@[i as int].0@;
                assert(self@.local_variable_references.dom() =~= m0.dom());
                assert forall|k: Seq<char>| #[trigger] m0.contains_key(k) implies self@.local_variable_references[k] == (
                    if exists|j: int| 0 <= j < i + 1 && entries@[j].0@ == k { m0[k].filter(local_reference_outside(uri@)) } else { m0[k] }) by {
                    if k == k0 {
                        assert(entries@[i as int].0@ == k);
                    } else {
                        if exists|j: int| 0 <= j < i + 1 && entries@[j].0@ == k {
                            let j = choose|j: int| 0 <= j < i + 1 && entries@[j].0@ == k;
                            assert(j < i);
                        }
                    }
                }
            }
            i += 1;
        }
        proof {
            assert forall|k: Seq<char>| #[trigger] m0.contains_key(k) implies exists|j: int| 0 <= j < i && entries@[j].0@ == k by {
                let j = choose|j: int| 0 <= j < entries@.len() && #[trigger] entries@[j].0@ == k;
            }
            assert(self@.local_variable_references =~= without_uri_references(m0, uri@));
        }
    }

    /// Drops what the template pass recorded for `uri` (its form bindings stay).
    pub fn clear_html_references(&mut self, uri: &str)
        ensures
            final(self)@.scope_references == old(self)@.scope_references.remove(uri@),
            final(self)@.local_variables == old(self)@.local_variables.remove(uri@),
            final(self)@.local_variable_references == without_uri_references(old(self)@.local_variable_references, uri@),
            final(self)@.form_bindings == old(self)@.form_bindings,
            final(self)@.directive_references == old(self)@.directive_references.remove(uri@),
            final(self)@.ng_model_targets == old(self)@.ng_model_targets.remove(uri@),
            final(self)@.ui_sref_references == old(self)@.ui_sref_references.remove(uri@),
            final(self)@.component_usages == old(self)@.component_usages.remove(uri@),
    {
        scope_reference_lists_remove(&mut self.html_scope_references, uri);
        local_variable_lists_remove(&mut self.html_local_variables, uri);
        self.drop_local_references_of(uri);
        directive_reference_lists_remove(&mut self.html_directive_references, uri);
        ng_model_target_lists_remove(&mut self.ng_model_targets, uri);
        ui_sref_lists_remove(&mut self.ui_sref_references, uri);
        component_usage_lists_remove(&mut self.component_usages, uri);
    }

    /// Drops everything recorded for `uri`.
    pub fn clear_document(&mut self, uri: &str)
        ensures
            final(self)@.scope_references == old(self)@.scope_references.remove(uri@),
            final(self)@.local_variables == old(self)@.local_variables.remove(uri@),
            final(self)@.local_variable_references == without_uri_references(old(self)@.local_variable_references, uri@),
            final(self)@.form_bindings == old(self)@.form_bindings.remove(uri@),
            final(self)@.directive_references == old(self)@.directive_references.remove(uri@),
            final(self)@.ng_model_targets == old(self)@.ng_model_targets.remove(uri@),
            final(self)@.ui_sref_references == old(self)@.ui_sref_references.remove(uri@),
            final(self)@.component_usages == old(self)@.component_usages.remove(uri@),
    {
        self.clear_html_references(uri);
        form_binding_lists_remove(&mut self.html_form_bindings, uri);
    }

    pub fn clear_all(&mut self)
        ensures
            final(self)@.scope_references =~= Map::empty(),
            final(self)@.local_variables =~= Map::empty(),
            final(self)@.local_variable_references =~= Map::empty(),
            final(self)@.form_bindings =~= Map::empty(),
            final(self)@.directive_references =~= Map::empty(),
            final(self)@.ng_model_targets =~= Map::empty(),
            final(self)@.ui_sref_references =~= Map::empty(),
            final(self)@.component_usages =~= Map::empty(),
    {
        *self = HtmlStore::new();
    }
}

} // verus!
