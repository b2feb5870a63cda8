//! Queries that span several stores: which controllers are in effect at a template
//! position, where local variables and forms are defined, what a symbol name denotes,
//! and which template expressions refer to a symbol.
use vstd::prelude::*;
use vstd::string::StrSliceExecFns;
use crate::util::normalized_template_path;

use crate::index::controller_store::{covering, innermost, local_controllers, sort_scopes};
use crate::index::snapshot::{list_at, with_name};
use crate::index::Index;
use crate::model::span::Span;
use crate::model::{
    ComponentTemplateUrl, HtmlControllerScope, HtmlFormBinding, HtmlLocalVariable,
    HtmlNgModelTarget, HtmlScopeReference, InheritedFormBinding, InheritedLocalVariable, Symbol,
    SymbolKind, SymbolReference,
};
use crate::text::{
    chars_of, contains_str, find_char, find_str, first_index, last_index, lemma_first_index,
    lemma_last_index, occurs, occurs_at, rfind_char, str_eq, string_from_chars, views,
};

verus! {

/// The last segment of an `ng-model` target: what follows its last `.`.
pub open spec fn target_tail(p: Seq<char>) -> Seq<char> {
    match last_index(p, '.') {
        Some(i) => p.skip(i + 1),
        None => p,
    }
}

/// The alias an `ng-model` target starts with: what precedes its first `.`, if any.
pub open spec fn target_alias(p: Seq<char>) -> Option<Seq<char>> {
    match first_index(p, '.') {
        Some(i) => Some(p.take(i)),
        None => None,
    }
}

/// The last segment of an `ng-model` target (`vm.currentPage` gives `currentPage`).
pub fn ng_model_target_tail(property_path: &str) -> (r: &str)
    ensures
        r@ == target_tail(property_path@),
{
    let cs = chars_of(property_path);
    match rfind_char(&cs, '.') {
        Some(i) => {
            proof { lemma_last_index(cs@, '.', i as int); }
            let r = property_path.substring_char(i + 1, cs.len());
            proof { assert(r@ =~= property_path@.skip(i + 1)); }
            r
        },
        None => {
            proof { assert(!(exists|i: int| 0 <= i < property_path@.len() && property_path@[i] == '.')); }
            property_path
        },
    }
}

/// The alias an `ng-model` target starts with (`vm.currentPage` gives `vm`; none without a `.`).
pub fn ng_model_target_alias(property_path: &str) -> (r: Option<&str>)
    ensures
        match r {
            Some(a) => target_alias(property_path@) == Some(a@),
            None => target_alias(property_path@) is None,
        },
{
    let cs = chars_of(property_path);
    match find_char(&cs, '.') {
        Some(i) => {
            proof { lemma_first_index(cs@, '.', i as int); }
            let r = property_path.substring_char(0, i);
            proof { assert(r@ =~= property_path@.take(i as int)); }
            Some(r)
        },
        None => {
            proof { assert(!(exists|i: int| 0 <= i < property_path@.len() && property_path@[i] == '.')); }
            None
        },
    }
}

/// The first occurrence of `marker` in `s`.
pub open spec fn first_occurrence(s: Seq<char>, marker: Seq<char>, i: int) -> bool {
    occurs_at(s, marker, i) && forall|j: int| 0 <= j < i ==> !occurs_at(s, marker, j)
}

/// `s` split around the first occurrence of `marker`: what precedes and what follows.
pub open spec fn split_at_marker(s: Seq<char>, marker: Seq<char>) -> Option<(Seq<char>, Seq<char>)> {
    if occurs(s, marker) {
        let i = choose|i: int| first_occurrence(s, marker, i);
        Some((s.take(i), s.skip(i + marker.len())))
    } else {
        None
    }
}

/// The names in `s`, each once, where it first occurs.
pub open spec fn distinct(s: Seq<Seq<char>>) -> Seq<Seq<char>>
    decreases s.len(),
{
    if s.len() == 0 { Seq::empty() } else { with_name(distinct(s.drop_last()), s.last()) }
}

/// An optional string taken by its characters.
pub open spec fn opt_view(o: Option<String>) -> Option<Seq<char>> {
    match o {
        Some(s) => Some(s@),
        None => None,
    }
}

/// The controller of a component template when `alias` is its `controllerAs` name.
pub open spec fn component_alias_controller(b: Option<ComponentTemplateUrl>, alias: Seq<char>) -> Option<Seq<char>> {
    match b {
        Some(t) => if t.controller_as@ == alias { opt_view(t.controller_name) } else { None },
        None => None,
    }
}

/// The controller of a component template, as a list.
pub open spec fn component_controller(b: Option<ComponentTemplateUrl>) -> Seq<Seq<char>> {
    match b {
        Some(t) => match t.controller_name {
            Some(c) => seq![c@],
            None => Seq::empty(),
        },
        None => Seq::empty(),
    }
}

/// `c` with `t` appended when given and not already there.
pub open spec fn with_optional(c: Seq<Seq<char>>, t: Option<Seq<char>>) -> Seq<Seq<char>> {
    match t {
        Some(x) => with_name(c, x),
        None => c,
    }
}

/// An inherited local variable as a local variable.
pub open spec fn as_local_variable(v: InheritedLocalVariable) -> HtmlLocalVariable {
    HtmlLocalVariable {
        name: v.name,
        source: v.source,
        uri: v.uri,
        scope_start_line: v.scope_start_line,
        scope_end_line: v.scope_end_line,
        name_start_line: v.name_start_line,
        name_start_col: v.name_start_col,
        name_end_line: v.name_end_line,
        name_end_col: v.name_end_col,
    }
}

/// An inherited form binding as a form binding.
pub open spec fn as_form_binding(b: InheritedFormBinding) -> HtmlFormBinding {
    HtmlFormBinding {
        name: b.name,
        uri: b.uri,
        scope_start_line: b.scope_start_line,
        scope_end_line: b.scope_end_line,
        name_start_line: b.name_start_line,
        name_start_col: b.name_start_col,
        name_end_line: b.name_end_line,
        name_end_col: b.name_end_col,
    }
}

impl Index {
    /// `r` is what `resolve_controller_by_alias` gives: the innermost template scope at
    /// `line` written with `alias`, else the component whose template `uri` is, when
    /// `alias` is its `controllerAs` name.
    pub open spec fn alias_resolution_is(&self, uri: Seq<char>, line: int, alias: Seq<char>, r: Option<Seq<char>>) -> bool {
        match innermost(list_at(self.controllers.html_scopes(), uri), line, Some(alias)) {
            Some(s) => r == Some(s.controller_name@),
            None => exists|b: Option<ComponentTemplateUrl>| self.components.binding_for_template_is(uri, b)
                && r == component_alias_controller(b, alias),
        }
    }

    /// `r` is what `resolve_controllers_for_html` gives: the inherited controllers, then
    /// the template scopes at `line` outermost first, then the controller the template is
    /// bound to; failing all of them the component's controller; each name once.
    pub open spec fn controllers_are(&self, uri: Seq<char>, line: int, r: Seq<Seq<char>>) -> bool {
        exists|inh: Seq<Seq<char>>, tpl: Option<Seq<char>>|
            self.templates.inherited_controllers_are(uri, inh) && self.templates.controller_for_template_is(uri, tpl) && {
                let c = with_optional(inh + local_controllers(list_at(self.controllers.html_scopes(), uri), line), tpl);
                if c.len() > 0 {
                    r == distinct(c)
                } else {
                    exists|b: Option<ComponentTemplateUrl>| self.components.binding_for_template_is(uri, b)
                        && r == distinct(component_controller(b))
                }
            }
    }

    /// The controller `alias` names at `line` of `uri`: an `ng-controller="X as alias"`
    /// in effect there, else the component whose template `uri` is.
    pub fn resolve_controller_by_alias(&self, uri: &str, line: u32, alias: &str) -> (r: Option<String>)
        ensures
            self.alias_resolution_is(uri@, line as int, alias@, opt_view(r)),
    {
        match self.controllers.resolve_controller_by_alias(uri, line, alias) {
            Some(name) => Some(name),
            None => {
                let r = self.components.resolve_component_controller_by_alias(uri, alias);
                proof {
                    let b = choose|b: Option<ComponentTemplateUrl>| self.components.binding_for_template_is(uri@, b)
                        && r == match b {
                            Some(t) => if t.controller_as@ == alias@ { t.controller_name } else { None },
                            None => None,
                        };
                    assert(opt_view(r) == component_alias_controller(b, alias@));
                }
                r
            },
        }
    }

    /// `r` is the controller in effect at `line` of `uri`: that of the innermost template
    /// scope, else the one the template is bound to.
    pub open spec fn controller_for_html_is(&self, uri: Seq<char>, line: int, r: Option<Seq<char>>) -> bool {
        match innermost(list_at(self.controllers.html_scopes(), uri), line, None) {
            Some(s) => r == Some(s.controller_name@),
            None => self.templates.controller_for_template_is(uri, r),
        }
    }

    /// The controller in effect at `line` of `uri`: the innermost template scope, else
    /// the controller the template is bound to.
    pub fn resolve_controller_for_html(&self, uri: &str, line: u32) -> (r: Option<String>)
        ensures
            self.controller_for_html_is(uri@, line as int, opt_view(r)),
    {
        match self.controllers.get_html_controller_at(uri, line) {
            Some(c) => Some(c),
            None => self.templates.get_controller_for_template(uri),
        }
    }

    /// Every controller in effect at `line` of `uri`, outermost first, each once.
    pub fn resolve_controllers_for_html(&self, uri: &str, line: u32) -> (r: Vec<String>)
        ensures
            self.controllers_are(uri@, line as int, views(r@)),
    {
        let mut controllers = self.templates.get_inherited_controllers_for_template(uri);
        let ghost inh = views(controllers@);
        let mut local = self.controllers.get_html_controllers_at(uri, line);
        let ghost loc = views(local@);
        controllers.append(&mut local);
        proof { assert(views(controllers@) =~= inh + loc); }
        let tpl = self.templates.get_controller_for_template(uri);
        let ghost before = views(controllers@);
        match tpl {
            Some(c) => {
                if !contains_str(&controllers, &c) {
                    controllers.push(c);
                    proof { assert(views(controllers@) =~= before.push(opt_view(tpl).unwrap())); }
                }
            },
            None => {},
        }
        proof { assert(views(controllers@) == with_optional(inh + loc, opt_view(tpl))); }
        let ghost c = views(controllers@);
        let ghost mut comp: Option<ComponentTemplateUrl> = None;
        if controllers.len() == 0 {
            let found = self.components.get_component_binding_for_template(uri);
            proof { comp = found; }
            match found {
                Some(binding) => {
                    match binding.controller_name {
                        Some(name) => {
                            controllers.push(name);
                            proof { assert(views(controllers@) =~= component_controller(comp)); }
                        },
                        None => {
                            proof { assert(views(controllers@) =~= component_controller(comp)); }
                        },
                    }
                },
                None => {
                    proof { assert(views(controllers@) =~= component_controller(comp)); }
                },
            }
        }
        let r = distinct_strings(&controllers);
        proof {
            assert(self.templates.inherited_controllers_are(uri@, inh));
            assert(self.templates.controller_for_template_is(uri@, opt_view(tpl)));
            assert(loc == local_controllers(list_at(self.controllers.html_scopes(), uri@), line as int));
            let cc = with_optional(inh + local_controllers(list_at(self.controllers.html_scopes(), uri@), line as int), opt_view(tpl));
            assert(cc == c);
            if c.len() == 0 {
                assert(self.components.binding_for_template_is(uri@, comp));
            }
        }
        r
    }

    /// `r` is the local variable `name` means at `line` of `uri`: the innermost one defined
    /// in the template (the later one on a tie), else the first inherited one of that name.
    pub open spec fn local_definition_is(&self, uri: Seq<char>, name: Seq<char>, line: int, r: Option<HtmlLocalVariable>) -> bool {
        let own = list_at(self.html@.local_variables, uri);
        let p = crate::index::html_store::local_variable_named(name, line);
        if exists|j: int| 0 <= j < own.len() && p(#[trigger] own[j]) {
            crate::index::html_store::max_found(own, p, |x: HtmlLocalVariable| crate::index::html_store::local_variable_scope_start(x), r)
        } else {
            exists|inh: Seq<InheritedLocalVariable>| self.templates.inherited_variables_are(uri, inh) && match r {
                Some(v) => exists|i: int| 0 <= i < inh.len() && inh[i].name@ == name && v == as_local_variable(inh[i])
                    && forall|j: int| 0 <= j < i ==> (#[trigger] inh[j]).name@ != name,
                None => forall|j: int| 0 <= j < inh.len() ==> (#[trigger] inh[j]).name@ != name,
            }
        }
    }

    /// `r` is the form `name` means at `line` of `uri`: the innermost one defined in the
    /// template (the later one on a tie), else the first inherited one of that name.
    pub open spec fn form_definition_is(&self, uri: Seq<char>, name: Seq<char>, line: int, r: Option<HtmlFormBinding>) -> bool {
        let own = list_at(self.html@.form_bindings, uri);
        let p = crate::index::html_store::form_named(name, line);
        if exists|j: int| 0 <= j < own.len() && p(#[trigger] own[j]) {
            crate::index::html_store::max_found(own, p, |x: HtmlFormBinding| crate::index::html_store::form_scope_start(x), r)
        } else {
            exists|inh: Seq<InheritedFormBinding>| self.templates.inherited_forms_are(uri, inh) && match r {
                Some(b) => exists|i: int| 0 <= i < inh.len() && inh[i].name@ == name && b == as_form_binding(inh[i])
                    && forall|j: int| 0 <= j < i ==> (#[trigger] inh[j]).name@ != name,
                None => forall|j: int| 0 <= j < inh.len() ==> (#[trigger] inh[j]).name@ != name,
            }
        }
    }

    /// The local variable `variable_name` means at `line` of `uri`: the innermost one
    /// defined in the template, else the first inherited one of that name.
    pub fn find_local_variable_definition(&self, uri: &str, variable_name: &str, line: u32) -> (r: Option<HtmlLocalVariable>)
        ensures
            self.local_definition_is(uri@, variable_name@, line as int, r),
    {
        match self.html.find_local_variable_definition(uri, variable_name, line) {
            Some(v) => {
                return Some(v);
            },
            None => {},
        }
        let inherited = self.templates.get_inherited_local_variables_for_template(uri);
        let ghost own = list_at(self.html@.local_variables, uri@);
        let ghost p = crate::index::html_store::local_variable_named(variable_name@, line as int);
        proof { assert(!(exists|j: int| 0 <= j < own.len() && p(#[trigger] own[j]))); }
        let mut i: usize = 0;
        while i < inherited.len()
            invariant
                i <= inherited@.len(),
                self.templates.inherited_variables_are(uri@, inherited@),
                own == list_at(self.html@.local_variables, uri@),
                p == crate::index::html_store::local_variable_named(variable_name@, line as int),
                !(exists|j: int| 0 <= j < own.len() && p(#[trigger] own[j])),
                forall|j: int| 0 <= j < i ==> (#[trigger] inherited@[j]).name@ != variable_name@,
            decreases inherited.len() - i,
        {
            if str_eq(&inherited[i].name, variable_name) {
                let v = &inherited[i];
                return Some(HtmlLocalVariable {
                    name: v.name.clone(),
                    source: v.source,
                    uri: v.uri.clone(),
                    scope_start_line: v.scope_start_line,
                    scope_end_line: v.scope_end_line,
                    name_start_line: v.name_start_line,
                    name_start_col: v.name_start_col,
                    name_end_line: v.name_end_line,
                    name_end_col: v.name_end_col,
                });
            }
            i += 1;
        }
        None
    }

    /// The form `form_name` means at `line` of `uri`: the innermost one defined in the
    /// template, else the first inherited one of that name.
    pub fn find_form_binding_definition(&self, uri: &str, form_name: &str, line: u32) -> (r: Option<HtmlFormBinding>)
        ensures
            self.form_definition_is(uri@, form_name@, line as int, r),
    {
        match self.html.find_form_binding_definition(uri, form_name, line) {
            Some(b) => {
                return Some(b);
            },
            None => {},
        }
        let inherited = self.templates.get_inherited_form_bindings_for_template(uri);
        let ghost own = list_at(self.html@.form_bindings, uri@);
        let ghost p = crate::index::html_store::form_named(form_name@, line as int);
        proof { assert(!(exists|j: int| 0 <= j < own.len() && p(#[trigger] own[j]))); }
        let mut i: usize = 0;
        while i < inherited.len()
            invariant
                i <= inherited@.len(),
                self.templates.inherited_forms_are(uri@, inherited@),
                own == list_at(self.html@.form_bindings, uri@),
                p == crate::index::html_store::form_named(form_name@, line as int),
                !(exists|j: int| 0 <= j < own.len() && p(#[trigger] own[j])),
                forall|j: int| 0 <= j < i ==> (#[trigger] inherited@[j]).name@ != form_name@,
            decreases inherited.len() - i,
        {
            if str_eq(&inherited[i].name, form_name) {
                let b = &inherited[i];
                return Some(HtmlFormBinding {
                    name: b.name.clone(),
                    uri: b.uri.clone(),
                    scope_start_line: b.scope_start_line,
                    scope_end_line: b.scope_end_line,
                    name_start_line: b.name_start_line,
                    name_start_col: b.name_start_col,
                    name_end_line: b.name_end_line,
                    name_end_col: b.name_end_col,
                });
            }
            i += 1;
        }
        None
    }
}

/// A symbol name split at its first `.$scope.`: controller and property path.
pub open spec fn scope_symbol_parts(n: Seq<char>) -> Option<(Seq<char>, Seq<char>)> {
    split_at_marker(n, ".$scope."@)
}

/// A symbol name split at its first `.$rootScope.`: module and property path.
pub open spec fn root_scope_symbol_parts(n: Seq<char>) -> Option<(Seq<char>, Seq<char>)> {
    split_at_marker(n, ".$rootScope."@)
}

/// A symbol name `Controller.method` (neither `$scope` nor `$rootScope` in it, a
/// non-empty method after the first `.`).
pub open spec fn method_symbol_parts(n: Seq<char>) -> Option<(Seq<char>, Seq<char>)> {
    if occurs(n, ".$scope."@) || occurs(n, ".$rootScope."@) {
        None
    } else {
        match first_index(n, '.') {
            Some(i) => if i + 1 == n.len() { None } else { Some((n.take(i), n.skip(i + 1))) },
            None => None,
        }
    }
}

/// The first occurrence is unique.
proof fn lemma_first_occurrence_unique(s: Seq<char>, m: Seq<char>, i: int, j: int)
    requires
        first_occurrence(s, m, i),
        first_occurrence(s, m, j),
    ensures
        i == j,
{
}

/// Splits `s` at the first `marker`.
pub fn split_first_pub(s: &str, marker: &str) -> (r: Option<(String, String)>)
    ensures
        match r {
            Some(p) => split_at_marker(s@, marker@) == Some((p.0@, p.1@)),
            None => split_at_marker(s@, marker@) is None,
        },
{
    split_first(s, marker)
}

/// Splits `s` at the first `marker`.
fn split_first(s: &str, marker: &str) -> (r: Option<(String, String)>)
    ensures
        match r {
            Some(p) => split_at_marker(s@, marker@) == Some((p.0@, p.1@)),
            None => split_at_marker(s@, marker@) is None,
        },
{
    match find_str(s, marker) {
        Some(i) => {
            let cs = chars_of(s);
            let m = chars_of(marker);
            assert(i + m.len() <= cs.len());
            let head = string_from_chars(&cs, 0, i);
            let tail = string_from_chars(&cs, i + m.len(), cs.len());
            proof {
                assert(first_occurrence(s@, marker@, i as int));
                let k = choose|k: int| first_occurrence(s@, marker@, k);
                lemma_first_occurrence_unique(s@, marker@, i as int, k);
                assert(head@ =~= s@.take(i as int));
                assert(tail@ =~= s@.skip(i + marker@.len()));
            }
            Some((head, tail))
        },
        None => None,
    }
}

impl Index {
    /// `"Ctrl.$scope.path"` as `("Ctrl", "path")`, split at the first `.$scope.`.
    pub fn parse_scope_symbol_name(&self, symbol_name: &str) -> (r: Option<(String, String)>)
        ensures
            match r {
                Some(p) => scope_symbol_parts(symbol_name@) == Some((p.0@, p.1@)),
                None => scope_symbol_parts(symbol_name@) is None,
            },
    {
        split_first(symbol_name, ".$scope.")
    }

    /// `"app.$rootScope.path"` as `("app", "path")`, split at the first `.$rootScope.`.
    pub fn parse_root_scope_symbol_name(&self, symbol_name: &str) -> (r: Option<(String, String)>)
        ensures
            match r {
                Some(p) => root_scope_symbol_parts(symbol_name@) == Some((p.0@, p.1@)),
                None => root_scope_symbol_parts(symbol_name@) is None,
            },
    {
        split_first(symbol_name, ".$rootScope.")
    }

    /// `"Ctrl.method"` as `("Ctrl", "method")`, split at the first `.`; none for scope
    /// and root scope names and for an empty method.
    pub fn parse_controller_method_name(&self, symbol_name: &str) -> (r: Option<(String, String)>)
        ensures
            match r {
                Some(p) => method_symbol_parts(symbol_name@) == Some((p.0@, p.1@)),
                None => method_symbol_parts(symbol_name@) is None,
            },
    {
        let has_scope = find_str(symbol_name, ".$scope.").is_some();
        let has_root = find_str(symbol_name, ".$rootScope.").is_some();
        if has_scope || has_root {
            proof {
                if has_scope {
                    let i = choose|i: int| occurs_at(symbol_name@, ".$scope."@, i);
                } 
            }
            return None;
        }
        let cs = chars_of(symbol_name);
        match find_char(&cs, '.') {
            Some(i) => {
                proof { lemma_first_index(cs@, '.', i as int); }
                if i + 1 == cs.len() {
                    return None;
                }
                let head = string_from_chars(&cs, 0, i);
                let tail = string_from_chars(&cs, i + 1, cs.len());
                proof {
                    assert(head@ =~= symbol_name@.take(i as int));
                    assert(tail@ =~= symbol_name@.skip(i + 1));
                }
                Some((head, tail))
            },
            None => {
                proof { assert(!(exists|k: int| 0 <= k < symbol_name@.len() && symbol_name@[k] == '.')); }
                None
            },
        }
    }

    /// The controllers an `ng-model` target of `uri` writes to: the controller its alias
    /// names when the alias resolves, else every controller in effect at its line.
    pub open spec fn target_controllers_are(&self, uri: Seq<char>, t: HtmlNgModelTarget, cs: Seq<Seq<char>>) -> bool {
        match target_alias(t.property_path@) {
            Some(a) => exists|res: Option<Seq<char>>| #[trigger] self.alias_resolution_is(uri, t.start_line as int, a, res) && match res {
                Some(c) => cs == seq![c],
                None => self.controllers_are(uri, t.start_line as int, cs),
            },
            None => self.controllers_are(uri, t.start_line as int, cs),
        }
    }

    /// The controllers the `ng-model` target `t` of `uri` writes to.
    fn controllers_for_target(&self, uri: &str, t: &HtmlNgModelTarget) -> (r: Vec<String>)
        ensures
            self.target_controllers_are(uri@, *t, views(r@)),
    {
        match ng_model_target_alias(&t.property_path) {
            Some(alias) => {
                let res = self.resolve_controller_by_alias(uri, t.start_line, alias);
                let ghost w = opt_view(res);
                let v = match res {
                    Some(ctrl) => {
                        let mut v: Vec<String> = Vec::new();
                        v.push(ctrl);
                        proof { assert(views(v@) =~= seq![w.unwrap()]); }
                        v
                    },
                    None => self.resolve_controllers_for_html(uri, t.start_line),
                };
                proof {
                    assert(target_alias(t.property_path@) == Some(alias@));
                    assert(self.alias_resolution_is(uri@, t.start_line as int, alias@, w));
                    assert(match w {
                        Some(c) => views(v@) == seq![c],
                        None => self.controllers_are(uri@, t.start_line as int, views(v@)),
                    });
                    let a = target_alias(t.property_path@).unwrap();
                    assert(a == alias@);
                    assert(self.alias_resolution_is(uri@, t.start_line as int, a, w));
                    assert(self.target_controllers_are(uri@, *t, views(v@)));
                }
                v
            },
            None => {
                let v = self.resolve_controllers_for_html(uri, t.start_line);
                proof { assert(self.target_controllers_are(uri@, *t, views(v@))); }
                v
            },
        }
    }

    /// `r` is what `has_ng_model_implicit_def` answers: true when a target of `uri` whose
    /// last segment is `property` writes to `controller`, false when none does.
    pub open spec fn ng_model_defines(&self, uri: Seq<char>, controller: Seq<char>, property: Seq<char>, r: bool) -> bool {
        let ts = list_at(self.html@.ng_model_targets, uri);
        &&& r ==> exists|i: int, cs: Seq<Seq<char>>| 0 <= i < ts.len() && target_tail(ts[i].property_path@) == property
            && self.target_controllers_are(uri, ts[i], cs) && cs.contains(controller)
        &&& !r ==> forall|i: int| 0 <= i < ts.len() && target_tail((#[trigger] ts[i]).property_path@) == property
            ==> exists|cs: Seq<Seq<char>>| self.target_controllers_are(uri, ts[i], cs) && !cs.contains(controller)
    }

    /// Whether an `ng-model` of `uri` makes `property` a scope property of
    /// `controller_name`: a target whose last segment is `property` and that writes to
    /// that controller.
    pub fn has_ng_model_implicit_def(&self, uri: &str, controller_name: &str, property: &str) -> (r: bool)
        ensures
            self.ng_model_defines(uri@, controller_name@, property@, r),
    {
        let targets = self.html.get_ng_model_targets_for_uri(uri);
        let mut i: usize = 0;
        while i < targets.len()
            invariant
                i <= targets@.len(),
                targets@ == list_at(self.html@.ng_model_targets, uri@),
                forall|j: int| 0 <= j < i && target_tail((#[trigger] targets@[j]).property_path@) == property@
                    ==> exists|cs: Seq<Seq<char>>| self.target_controllers_are(uri@, targets@[j], cs) && !cs.contains(controller_name@),
            decreases targets.len() - i,
        {
            let tail = ng_model_target_tail(&targets[i].property_path);
            if str_eq(tail, property) {
                let cs = self.controllers_for_target(uri, &targets[i]);
                if contains_str(&cs, controller_name) {
                    proof { assert(self.target_controllers_are(uri@, targets@[i as int], views(cs@))); }
                    return true;
                }
                proof { assert(self.target_controllers_are(uri@, targets@[i as int], views(cs@))); }
            }
            i += 1;
        }
        false
    }

    /// `r` is the first `ng-model` target of `uri` whose last segment is `property` and
    /// that writes to `controller`, or none when no target does.
    pub open spec fn ng_model_target_is(&self, uri: Seq<char>, controller: Seq<char>, property: Seq<char>, r: Option<HtmlNgModelTarget>) -> bool {
        let ts = list_at(self.html@.ng_model_targets, uri);
        match r {
            Some(t) => exists|i: int, cs: Seq<Seq<char>>| 0 <= i < ts.len() && ts[i] == t && target_tail(t.property_path@) == property
                && self.target_controllers_are(uri, ts[i], cs) && cs.contains(controller)
                && forall|j: int| 0 <= j < i && target_tail((#[trigger] ts[j]).property_path@) == property
                    ==> exists|cs2: Seq<Seq<char>>| self.target_controllers_are(uri, ts[j], cs2) && !cs2.contains(controller),
            None => forall|i: int| 0 <= i < ts.len() && target_tail((#[trigger] ts[i]).property_path@) == property
                ==> exists|cs: Seq<Seq<char>>| self.target_controllers_are(uri, ts[i], cs) && !cs.contains(controller),
        }
    }

    /// The `ng-model` target of `uri` that makes `property` a scope property of
    /// `controller_name`: the first whose last segment is `property` and that writes to
    /// that controller.
    pub fn find_ng_model_implicit_def_target(&self, uri: &str, controller_name: &str, property: &str) -> (r: Option<HtmlNgModelTarget>)
        ensures
            self.ng_model_target_is(uri@, controller_name@, property@, r),
    {
        let targets = self.html.get_ng_model_targets_for_uri(uri);
        let mut i: usize = 0;
        while i < targets.len()
            invariant
                i <= targets@.len(),
                targets@ == list_at(self.html@.ng_model_targets, uri@),
                forall|j: int| 0 <= j < i && target_tail((#[trigger] targets@[j]).property_path@) == property@
                    ==> exists|cs: Seq<Seq<char>>| self.target_controllers_are(uri@, targets@[j], cs) && !cs.contains(controller_name@),
            decreases targets.len() - i,
        {
            let tail = ng_model_target_tail(&targets[i].property_path);
            if str_eq(tail, property) {
                let cs = self.controllers_for_target(uri, &targets[i]);
                if contains_str(&cs, controller_name) {
                    proof { assert(self.target_controllers_are(uri@, targets@[i as int], views(cs@))); }
                    return Some(targets[i].clone());
                }
                proof { assert(self.target_controllers_are(uri@, targets@[i as int], views(cs@))); }
            }
            i += 1;
        }
        None
    }

    /// Each of `r` is a reference named `symbol_name` at the span of a template expression.
    pub open spec fn html_references_hold(&self, symbol_name: Seq<char>, r: Seq<SymbolReference>) -> bool {
        forall|i: int| 0 <= i < r.len() ==> (#[trigger] r[i]).name@ == symbol_name
            && self.html@.scope_references.contains_key(r[i].uri@)
            && exists|j: int| 0 <= j < self.html@.scope_references[r[i].uri@].len()
                && crate::index::html_store::scope_reference_span(self.html@.scope_references[r[i].uri@][j]) == r[i].span
    }

    /// `h` is what `is_scope_variable_referenced` answers: whether the template references
    /// it collects for `symbol_name` are any.
    pub open spec fn scope_variable_referenced_is(&self, symbol_name: Seq<char>, h: bool) -> bool {
        exists|r: Seq<SymbolReference>| self.html_references_hold(symbol_name, r) && h == (r.len() > 0)
    }

    /// The template expressions that refer to the symbol `symbol_name` (a `$rootScope`,
    /// `$scope` or controller-method symbol), each as a reference of that name with the
    /// expression's span.
    pub fn get_html_references_for_symbol(&self, symbol_name: &str) -> (r: Vec<SymbolReference>)
        ensures
            self.html_references_hold(symbol_name@, r@),
            self.html_references_for_symbol_are(symbol_name@, ref_views(r@)),
    {
        match self.parse_root_scope_symbol_name(symbol_name) {
            Some((_, property_path)) => {
                return self.get_html_references_for_root_scope(&property_path, symbol_name);
            },
            None => {},
        }
        let parsed = match self.parse_scope_symbol_name(symbol_name) {
            Some(p) => p,
            None => match self.parse_controller_method_name(symbol_name) {
                Some(p) => p,
                None => {
                    proof { assert(ref_views(Seq::<SymbolReference>::empty()) =~= Seq::<RefView>::empty()); }
                    return Vec::new();
                },
            },
        };
        let controller_name = parsed.0;
        let property_path = parsed.1;
        let ghost c = controller_name@;
        let ghost p = property_path@;
        let entries = self.html.iter_all_html_scope_references();
        let ghost e = entries@;
        let ghost mut sels: Seq<Seq<bool>> = Seq::empty();
        let mut references: Vec<SymbolReference> = Vec::new();
        let mut i: usize = 0;
        proof { assert(ref_views(references@) =~= picked_all(symbol_name@, e.take(0), sels)); }
        while i < entries.len()
            invariant
                i <= entries@.len(),
                e == entries@,
                c == controller_name@,
                p == property_path@,
                crate::index::tables::list_snapshot_of(entries@, self.html@.scope_references),
                forall|x: int| 0 <= x < references@.len() ==> (#[trigger] references@[x]).name@ == symbol_name@
                    && self.html@.scope_references.contains_key(references@[x].uri@)
                    && exists|j: int| 0 <= j < self.html@.scope_references[references@[x].uri@].len()
                        && crate::index::html_store::scope_reference_span(self.html@.scope_references[references@[x].uri@][j]) == references@[x].span,
                sels.len() == i,
                forall|x: int| 0 <= x < i ==> (#[trigger] sels[x]).len() == e[x].1@.len(),
                forall|x: int, y: int| 0 <= x < i && 0 <= y < e[x].1@.len()
                    ==> self.ref_selected(e[x].0@, e[x].1@[y], false, c, p, #[trigger] sels[x][y]),
                ref_views(references@) == picked_all(symbol_name@, e.take(i as int), sels),
            decreases entries.len() - i,
        {
            let uri = &entries[i].0;
            let refs = &entries[i].1;
            let ghost base = ref_views(references@);
            let ghost mut cur: Seq<bool> = Seq::empty();
            proof {
                assert(self.html@.scope_references.contains_key(entries@[i as int].0@));
                assert(picked_refs(symbol_name@, uri@, refs@.take(0), cur) =~= Seq::<RefView>::empty());
                assert(ref_views(references@) =~= base + picked_refs(symbol_name@, uri@, refs@.take(0), cur));
            }
            let mut k: usize = 0;
            while k < refs.len()
                invariant
                    k <= refs@.len(),
                    i < entries@.len(),
                    e == entries@,
                    c == controller_name@,
                    p == property_path@,
                    uri == &entries@[i as int].0,
                    refs == &entries@[i as int].1,
                    crate::index::tables::list_snapshot_of(entries@, self.html@.scope_references),
                    self.html@.scope_references.contains_key(uri@),
                    refs@ == self.html@.scope_references[uri@],
                    forall|x: int| 0 <= x < references@.len() ==> (#[trigger] references@[x]).name@ == symbol_name@
                        && self.html@.scope_references.contains_key(references@[x].uri@)
                        && exists|j: int| 0 <= j < self.html@.scope_references[references@[x].uri@].len()
                            && crate::index::html_store::scope_reference_span(self.html@.scope_references[references@[x].uri@][j]) == references@[x].span,
                    cur.len() == k,
                    forall|y: int| 0 <= y < k ==> self.ref_selected(uri@, refs@[y], false, c, p, #[trigger] cur[y]),
                    ref_views(references@) == base + picked_refs(symbol_name@, uri@, refs@.take(k as int), cur),
                decreases refs.len() - k,
            {
                let h = &refs[k];
                let direct_match = str_eq(&h.property_path, &property_path);
                let mut alias_match = false;
                match split_first(&h.property_path, ".") {
                    Some((alias, prop)) => {
                        let resolved = self.resolve_controller_by_alias(uri, h.start_line, &alias);
                        let ghost res_w = opt_view(resolved);
                        match resolved {
                            Some(r) => {
                                let same_controller = str_eq(r.as_str(), controller_name.as_str());
                                let same_property = str_eq(prop.as_str(), property_path.as_str());
                                alias_match = same_controller && same_property;
                                proof {
                                    assert(res_w == Some(r@));
                                    assert(same_controller == (r@ == c));
                                }
                            },
                            None => {},
                        }
                        proof {
                            assert(split_at_marker(h.property_path@, "."@) == Some((alias@, prop@)));
                            assert(self.alias_resolution_is(uri@, h.start_line as int, alias@, res_w));
                            assert(alias_match == (res_w == Some(c) && prop@ == p));
                            let sp = split_at_marker(h.property_path@, "."@).unwrap();
                            assert(self.alias_resolution_is(uri@, h.start_line as int, sp.0, res_w)
                                && alias_match == (res_w == Some(c) && sp.1 == p));
                            assert(self.alias_match_is(uri@, *h, c, p, alias_match));
                        }
                    },
                    None => {
                        proof { assert(self.alias_match_is(uri@, *h, c, p, alias_match)); }
                    },
                }
                let ghost before = references@;
                let mut picked = false;
                if direct_match || alias_match {
                    let controllers = self.resolve_controllers_for_html(uri, h.start_line);
                    if contains_str(&controllers, &controller_name) || alias_match {
                        references.push(SymbolReference {
                            name: symbol_name.to_owned(),
                            uri: uri.clone(),
                            span: Span::new(h.start_line, h.start_col, h.end_line, h.end_col),
                        });
                        picked = true;
                        proof {
                            assert(crate::index::html_store::scope_reference_span(self.html@.scope_references[uri@][k as int])
                                == references@[before.len() as int].span);
                            assert forall|x: int| 0 <= x < references@.len() implies (#[trigger] references@[x]).name@ == symbol_name@
                                && self.html@.scope_references.contains_key(references@[x].uri@)
                                && exists|j: int| 0 <= j < self.html@.scope_references[references@[x].uri@].len()
                                    && crate::index::html_store::scope_reference_span(self.html@.scope_references[references@[x].uri@][j]) == references@[x].span by {
                                if x < before.len() {
                                    assert(references@[x] == before[x]);
                                } else {
                                    assert(references@[x].uri@ == uri@);
                                    assert(0 <= k < self.html@.scope_references[uri@].len());
                                    assert(crate::index::html_store::scope_reference_span(self.html@.scope_references[references@[x].uri@][k as int]) == references@[x].span);
                                }
                            }
                        }
                    }
                    proof { assert(self.ref_selected(uri@, *h, false, c, p, picked)); }
                } else {
                    proof { assert(self.ref_selected(uri@, *h, false, c, p, picked)); }
                }
                proof {
                    let cur2 = cur.push(picked);
                    assert(refs@.take(k + 1).drop_last() =~= refs@.take(k as int));
                    assert(cur2.drop_last() =~= cur);
                    assert(refs@.take(k + 1).last() == *h);
                    if picked {
                        assert(ref_views(references@) =~= ref_views(before).push((symbol_name@, uri@, crate::index::html_store::scope_reference_span(*h))));
                    } else {
                        assert(references@ == before);
                    }
                    assert(ref_views(references@) =~= base + picked_refs(symbol_name@, uri@, refs@.take(k + 1), cur2));
                    cur = cur2;
                }
                k += 1;
            }
            proof {
                assert(refs@.take(k as int) =~= refs@);
                let s2 = sels.push(cur);
                assert(e.take(i + 1).drop_last() =~= e.take(i as int));
                assert(s2.drop_last() =~= sels);
                assert(ref_views(references@) =~= picked_all(symbol_name@, e.take(i + 1), s2));
                sels = s2;
            }
            i += 1;
        }
        proof {
            assert(e.take(i as int) =~= e);
            assert(root_scope_symbol_parts(symbol_name@) is None);
        }
        references
    }

    /// The template expressions `property_path` that refer to the `$rootScope` symbol
    /// `symbol_name`: those where no controller in effect defines `$scope.<property_path>`.
    fn get_html_references_for_root_scope(&self, property_path: &str, symbol_name: &str) -> (r: Vec<SymbolReference>)
        ensures
            forall|i: int| 0 <= i < r@.len() ==> (#[trigger] r@[i]).name@ == symbol_name@
                && self.html@.scope_references.contains_key(r@[i].uri@)
                && exists|j: int| 0 <= j < self.html@.scope_references[r@[i].uri@].len()
                    && crate::index::html_store::scope_reference_span(self.html@.scope_references[r@[i].uri@][j]) == r@[i].span
                    && self.html@.scope_references[r@[i].uri@][j].property_path@ == property_path@,
            self.selected_references_are(symbol_name@, true, Seq::empty(), property_path@, ref_views(r@)),
    {
        let ghost c = Seq::<char>::empty();
        let ghost p = property_path@;
        let entries = self.html.iter_all_html_scope_references();
        let ghost e = entries@;
        let ghost mut sels: Seq<Seq<bool>> = Seq::empty();
        let mut references: Vec<SymbolReference> = Vec::new();
        let mut i: usize = 0;
        proof { assert(ref_views(references@) =~= picked_all(symbol_name@, e.take(0), sels)); }
        while i < entries.len()
            invariant
                i <= entries@.len(),
                e == entries@,
                p == property_path@,
                crate::index::tables::list_snapshot_of(entries@, self.html@.scope_references),
                forall|x: int| 0 <= x < references@.len() ==> (#[trigger] references@[x]).name@ == symbol_name@
                    && self.html@.scope_references.contains_key(references@[x].uri@)
                    && exists|j: int| 0 <= j < self.html@.scope_references[references@[x].uri@].len()
                        && crate::index::html_store::scope_reference_span(self.html@.scope_references[references@[x].uri@][j]) == references@[x].span
                        && self.html@.scope_references[references@[x].uri@][j].property_path@ == property_path@,
                sels.len() == i,
                forall|x: int| 0 <= x < i ==> (#[trigger] sels[x]).len() == e[x].1@.len(),
                forall|x: int, y: int| 0 <= x < i && 0 <= y < e[x].1@.len()
                    ==> self.ref_selected(e[x].0@, e[x].1@[y], true, c, p, #[trigger] sels[x][y]),
                ref_views(references@) == picked_all(symbol_name@, e.take(i as int), sels),
            decreases entries.len() - i,
        {
            let uri = &entries[i].0;
            let refs = &entries[i].1;
            let ghost base = ref_views(references@);
            let ghost mut cur: Seq<bool> = Seq::empty();
            proof {
                assert(self.html@.scope_references.contains_key(entries@[i as int].0@));
                assert(picked_refs(symbol_name@, uri@, refs@.take(0), cur) =~= Seq::<RefView>::empty());
                assert(ref_views(references@) =~= base + picked_refs(symbol_name@, uri@, refs@.take(0), cur));
            }
            let mut k: usize = 0;
            while k < refs.len()
                invariant
                    k <= refs@.len(),
                    i < entries@.len(),
                    e == entries@,
                    p == property_path@,
                    uri == &entries@[i as int].0,
                    refs == &entries@[i as int].1,
                    self.html@.scope_references.contains_key(uri@),
                    refs@ == self.html@.scope_references[uri@],
                    forall|x: int| 0 <= x < references@.len() ==> (#[trigger] references@[x]).name@ == symbol_name@
                        && self.html@.scope_references.contains_key(references@[x].uri@)
                        && exists|j: int| 0 <= j < self.html@.scope_references[references@[x].uri@].len()
                            && crate::index::html_store::scope_reference_span(self.html@.scope_references[references@[x].uri@][j]) == references@[x].span
                            && self.html@.scope_references[references@[x].uri@][j].property_path@ == property_path@,
                    cur.len() == k,
                    forall|y: int| 0 <= y < k ==> self.ref_selected(uri@, refs@[y], true, c, p, #[trigger] cur[y]),
                    ref_views(references@) == base + picked_refs(symbol_name@, uri@, refs@.take(k as int), cur),
                decreases refs.len() - k,
            {
                let h = &refs[k];
                let ghost before = references@;
                let mut picked = false;
                if str_eq(&h.property_path, property_path) {
                    let controllers = self.resolve_controllers_for_html(uri, h.start_line);
                    let mut has_scope_property = false;
                    let mut ci: usize = 0;
                    while ci < controllers.len()
                        invariant
                            ci <= controllers@.len(),
                            p == property_path@,
                            has_scope_property == exists|j: int| 0 <= j < ci
                                && self.definitions.defs().contains_key(#[trigger] views(controllers@)[j] + ".$scope."@ + p),
                        decreases controllers.len() - ci,
                    {
                        let mut name = controllers[ci].clone();
                        name.append(".$scope.");
                        name.append(property_path);
                        proof { reveal_strlit(".$scope."); }
                        let has = self.definitions.has_definition(&name);
                        proof {
                            assert(name@ == views(controllers@)[ci as int] + ".$scope."@ + p);
                            if has {
                                assert(self.definitions.defs().contains_key(views(controllers@)[ci as int] + ".$scope."@ + p));
                            }
                        }
                        if has {
                            has_scope_property = true;
                        }
                        ci += 1;
                    }
                    if !has_scope_property {
                        references.push(SymbolReference {
                            name: symbol_name.to_owned(),
                            uri: uri.clone(),
                            span: Span::new(h.start_line, h.start_col, h.end_line, h.end_col),
                        });
                        picked = true;
                        proof {
                            assert(crate::index::html_store::scope_reference_span(self.html@.scope_references[uri@][k as int])
                                == references@[before.len() as int].span);
                            assert forall|x: int| 0 <= x < references@.len() implies (#[trigger] references@[x]).name@ == symbol_name@
                                && self.html@.scope_references.contains_key(references@[x].uri@)
                                && exists|j: int| 0 <= j < self.html@.scope_references[references@[x].uri@].len()
                                    && crate::index::html_store::scope_reference_span(self.html@.scope_references[references@[x].uri@][j]) == references@[x].span
                                    && self.html@.scope_references[references@[x].uri@][j].property_path@ == property_path@ by {
                                if x < before.len() {
                                    assert(references@[x] == before[x]);
                                } else {
                                    assert(references@[x].uri@ == uri@);
                                    assert(0 <= k < self.html@.scope_references[uri@].len());
                                    assert(crate::index::html_store::scope_reference_span(self.html@.scope_references[references@[x].uri@][k as int]) == references@[x].span);
                                }
                            }
                        }
                    }
                    proof {
                        let cs = views(controllers@);
                        assert(self.controllers_are(uri@, h.start_line as int, cs));
                        assert(picked == forall|j: int| 0 <= j < cs.len() ==> !self.definitions.defs().contains_key(#[trigger] cs[j] + ".$scope."@ + p));
                        assert(self.ref_selected(uri@, *h, true, c, p, picked));
                    }
                } else {
                    proof { assert(self.ref_selected(uri@, *h, true, c, p, picked)); }
                }
                proof {
                    let cur2 = cur.push(picked);
                    assert(refs@.take(k + 1).drop_last() =~= refs@.take(k as int));
                    assert(cur2.drop_last() =~= cur);
                    assert(refs@.take(k + 1).last() == *h);
                    if picked {
                        assert(ref_views(references@) =~= ref_views(before).push((symbol_name@, uri@, crate::index::html_store::scope_reference_span(*h))));
                    } else {
                        assert(references@ == before);
                    }
                    assert(ref_views(references@) =~= base + picked_refs(symbol_name@, uri@, refs@.take(k + 1), cur2));
                    cur = cur2;
                }
                k += 1;
            }
            proof {
                assert(refs@.take(k as int) =~= refs@);
                let s2 = sels.push(cur);
                assert(e.take(i + 1).drop_last() =~= e.take(i as int));
                assert(s2.drop_last() =~= sels);
                assert(ref_views(references@) =~= picked_all(symbol_name@, e.take(i + 1), s2));
                sels = s2;
            }
            i += 1;
        }
        proof { assert(e.take(i as int) =~= e); }
        references
    }

    /// Whether `h`, an expression of the template `uri`, names the symbol's target: for a
    /// `$rootScope` symbol (`root`) the path `p` where no controller in effect defines
    /// `$scope.p`; else the path `p` itself, where the controller `c` is in effect, or
    /// `alias.p` with `alias` naming `c`.
    pub open spec fn ref_selected(&self, uri: Seq<char>, h: HtmlScopeReference, root: bool, c: Seq<char>, p: Seq<char>, b: bool) -> bool {
        if root {
            if h.property_path@ == p {
                exists|cs: Seq<Seq<char>>| #[trigger] self.controllers_are(uri, h.start_line as int, cs)
                    && b == forall|j: int| 0 <= j < cs.len() ==> !self.definitions.defs().contains_key(#[trigger] cs[j] + ".$scope."@ + p)
            } else {
                !b
            }
        } else {
            exists|am: bool| #[trigger] self.alias_match_is(uri, h, c, p, am) && if h.property_path@ == p || am {
                exists|cs: Seq<Seq<char>>| #[trigger] self.controllers_are(uri, h.start_line as int, cs) && b == (cs.contains(c) || am)
            } else {
                !b
            }
        }
    }

    /// `am`: `h`'s path is `alias.p`, and `alias` names the controller `c` there.
    pub open spec fn alias_match_is(&self, uri: Seq<char>, h: HtmlScopeReference, c: Seq<char>, p: Seq<char>, am: bool) -> bool {
        match split_at_marker(h.property_path@, "."@) {
            Some((alias, rest)) => exists|res: Option<Seq<char>>| #[trigger] self.alias_resolution_is(uri, h.start_line as int, alias, res)
                && am == (res == Some(c) && rest == p),
            None => !am,
        }
    }

    /// `r` is, over the documents in the map's own order, each expression that
    /// [`Self::ref_selected`] picks, as a reference named `name`.
    pub open spec fn selected_references_are(&self, name: Seq<char>, root: bool, c: Seq<char>, p: Seq<char>, r: Seq<RefView>) -> bool {
        exists|e: Seq<(String, Vec<HtmlScopeReference>)>, sel: Seq<Seq<bool>>|
            #[trigger] crate::index::tables::list_snapshot_of(e, self.html@.scope_references)
            && #[trigger] sel.len() == e.len()
            && (forall|x: int| 0 <= x < e.len() ==> (#[trigger] sel[x]).len() == e[x].1@.len())
            && (forall|x: int, y: int| 0 <= x < e.len() && 0 <= y < e[x].1@.len() ==> self.ref_selected(e[x].0@, e[x].1@[y], root, c, p, #[trigger] sel[x][y]))
            && r == picked_all(name, e, sel)
    }

    /// `r` is what `get_html_references_for_symbol` gives for `name`: for a `$rootScope`
    /// symbol the expressions of its path no controller shadows; for a `$scope` or
    /// controller-method symbol those naming its controller's property; else none.
    pub open spec fn html_references_for_symbol_are(&self, name: Seq<char>, r: Seq<RefView>) -> bool {
        match root_scope_symbol_parts(name) {
            Some((_, path)) => self.selected_references_are(name, true, Seq::empty(), path, r),
            None => match scope_symbol_parts(name) {
                Some((c, p)) => self.selected_references_are(name, false, c, p, r),
                None => match method_symbol_parts(name) {
                    Some((c, p)) => self.selected_references_are(name, false, c, p, r),
                    None => r.len() == 0,
                },
            },
        }
    }

    /// The references of `name` in scripts, followed by those in templates.
    pub fn get_all_references(&self, name: &str) -> (r: Vec<SymbolReference>)
        ensures
            self.all_references_are(name@, r@),
    {
        let mut refs = self.definitions.get_references(name);
        let mut html = self.get_html_references_for_symbol(name);
        let ghost h = html@;
        refs.append(&mut html);
        assert(self.html_references_hold(name@, h));
        refs
    }

    /// `r` is the script references of `name`, then the template references collected
    /// for it.
    pub open spec fn all_references_are(&self, name: Seq<char>, r: Seq<SymbolReference>) -> bool {
        exists|h: Seq<SymbolReference>| #[trigger] self.html_references_hold(name, h)
            && r == list_at(self.definitions.refs(), name) + h
    }

    /// Whether some template expression refers to the scope symbol `symbol_name`.
    pub fn is_scope_variable_referenced(&self, symbol_name: &str) -> (r: bool)
        ensures
            self.scope_variable_referenced_is(symbol_name@, r),
    {
        let refs = self.get_html_references_for_symbol(symbol_name);
        assert(self.html_references_hold(symbol_name@, refs@));
        refs.len() > 0
    }

    /// The template paths bound to `controller_name` by scripts, then those of templates
    /// with an `ng-controller` of it, each once.
    pub fn get_templates_for_controller(&self, controller_name: &str) -> (r: Vec<String>)
        ensures
            self.templates_for_controller_are(controller_name@, views(r@)),
    {
        let mut templates = self.templates.get_templates_for_controller(controller_name);
        let ghost a = views(templates@);
        let html_templates = self.controllers.get_html_templates_for_controller(controller_name);
        let ghost b = views(html_templates@);
        let mut i: usize = 0;
        while i < html_templates.len()
            invariant
                i <= html_templates@.len(),
                views(templates@) == crate::index::template_store::merge_names_seq(a, b.take(i as int)),
                b == views(html_templates@),
            decreases html_templates.len() - i,
        {
            proof { assert(b.take(i + 1).drop_last() =~= b.take(i as int)); }
            if !contains_str(&templates, &html_templates[i]) {
                let ghost before = templates@;
                templates.push(html_templates[i].clone());
                proof { assert(views(templates@) =~= views(before).push(b[i as int])); }
            }
            i += 1;
        }
        proof { assert(b.take(i as int) =~= b); }
        templates
    }

    /// `r` is the template paths of the controller `name`: those its bindings give, then
    /// those of templates with scopes of it, each once.
    pub open spec fn templates_for_controller_are(&self, name: Seq<char>, r: Seq<Seq<char>>) -> bool {
        exists|a: Seq<Seq<char>>, b: Seq<Seq<char>>|
            (exists|e: Seq<(String, crate::model::TemplateBinding)>| crate::index::tables::snapshot_of(e, self.templates.bindings())
                && a == crate::index::template_store::paths_of_controller(e, name))
            && (exists|e: Seq<(String, Vec<HtmlControllerScope>)>| crate::index::tables::list_snapshot_of(e, self.controllers.html_scopes())
                && b == crate::index::controller_store::template_paths_for(e, name))
            && r == crate::index::template_store::merge_names_seq(a, b)
    }

    /// `r` is the symbols of `uri` in the order the outline lists them: its definitions,
    /// template scopes, scope expressions and directive uses, sorted by position.
    pub open spec fn document_symbols_are(&self, uri: Seq<char>, r: Seq<Symbol>) -> bool {
        r.map_values(|s: Symbol| symbol_view(s)) == sort_views(
            crate::index::definition_store::definitions_in(self.definitions.defs(), list_at(self.definitions.docs(), uri), uri, false).map_values(|s: Symbol| symbol_view(s))
            + list_at(self.controllers.html_scopes(), uri).map_values(|s: HtmlControllerScope| scope_symbol_view(s))
            + list_at(self.html@.scope_references, uri).map_values(|x: HtmlScopeReference| scope_reference_symbol_view(x))
            + list_at(self.html@.directive_references, uri).map_values(|x: crate::model::HtmlDirectiveReference| directive_symbol_view(x)))
    }

    /// `r` is every document with template scopes, each once.
    pub open spec fn scope_documents_are(&self, r: Seq<Seq<char>>) -> bool {
        &&& forall|i: int, j: int| 0 <= i < j < r.len() ==> r[i] != r[j]
        &&& forall|k: Seq<char>| self.controllers.html_scopes().contains_key(k) <==> r.contains(k)
    }

    /// `r` is the document the template path `p` names: of the documents with template
    /// scopes (in the map's own order), the first whose path ends with it; else as
    /// [`Self::analyzed_fallback_is`] says.
    pub open spec fn template_uri_is(&self, p: Seq<char>, r: Option<Seq<char>>) -> bool {
        exists|us: Seq<Seq<char>>| #[trigger] self.scope_documents_are(us)
            && match first_naming(us, normalized_template_path(p)) {
                Some(k) => r == Some(us[k]),
                None => self.analyzed_fallback_is(p, r),
            }
    }

    /// `r` is, of the analysed templates, the first whose path ends with the template
    /// path `p`; else what the includes resolve it to.
    pub open spec fn analyzed_fallback_is(&self, p: Seq<char>, r: Option<Seq<char>>) -> bool {
        exists|an: Seq<Seq<char>>| #[trigger] self.templates.analyzed_documents_are(an)
            && match first_naming(an, normalized_template_path(p)) {
                Some(k) => r == Some(an[k]),
                None => self.templates.include_resolution_is(p, r),
            }
    }

    /// The template `template_path` names: the first template with controller scopes
    /// whose path ends with it (with or without a leading `/`), else the first analysed
    /// template that does, else what the includes resolve it to.
    pub fn resolve_template_uri(&self, template_path: &str) -> (r: Option<String>)
        ensures
            self.template_uri_is(template_path@, opt_view(r)),
    {
        let normalized = crate::util::normalize_template_path(template_path);
        let uris = self.controllers.html_controller_scope_uris();
        let ghost us = views(uris@);
        proof {
            assert forall|k: Seq<char>| self.controllers.html_scopes().contains_key(k) <==> us.contains(k) by {
                if self.controllers.html_scopes().contains_key(k) {
                    let i = choose|i: int| 0 <= i < uris@.len() && #[trigger] uris@[i]@ == k;
                    assert(us[i] == k);
                }
                if us.contains(k) {
                    let i = choose|i: int| 0 <= i < us.len() && us[i] == k;
                    assert(uris@[i]@ == k);
                }
            }
            assert(self.scope_documents_are(us));
        }
        let mut i: usize = 0;
        while i < uris.len()
            invariant
                i <= uris@.len(),
                us == views(uris@),
                self.scope_documents_are(us),
                normalized@ == normalized_template_path(template_path@),
                first_naming(us.take(i as int), normalized@) is None,
            decreases uris.len() - i,
        {
            proof { assert(us.take(i + 1).drop_last() =~= us.take(i as int)); }
            let path = crate::uri::uri_path(&uris[i]);
            if crate::text::str_ends_with_segment(&path, &normalized) || crate::text::str_ends_with(&path, &normalized) {
                proof {
                    assert(first_naming(us.take(i + 1), normalized@) == Some(i as int));
                    lemma_first_naming_prefix(us, normalized@, i + 1);
                }
                let found = uris[i].clone();
                proof { assert(found@ == us[i as int]); }
                return Some(found);
            }
            i += 1;
        }
        proof { assert(us.take(uris@.len() as int) =~= us); }
        let analyzed = self.templates.analyzed_html_uris();
        let ghost an = views(analyzed@);
        proof {
            assert forall|k: Seq<char>| self.templates.analyzed().contains(k) <==> an.contains(k) by {
                if self.templates.analyzed().contains(k) {
                    let i = choose|i: int| 0 <= i < analyzed@.len() && #[trigger] analyzed@[i]@ == k;
                    assert(an[i] == k);
                }
                if an.contains(k) {
                    let i = choose|i: int| 0 <= i < an.len() && an[i] == k;
                    assert(analyzed@[i]@ == k);
                }
            }
            assert(self.templates.analyzed_documents_are(an));
        }
        let mut i: usize = 0;
        while i < analyzed.len()
            invariant
                i <= analyzed@.len(),
                an == views(analyzed@),
                self.scope_documents_are(us),
                first_naming(us, normalized@) is None,
                self.templates.analyzed_documents_are(an),
                normalized@ == normalized_template_path(template_path@),
                first_naming(an.take(i as int), normalized@) is None,
            decreases analyzed.len() - i,
        {
            proof { assert(an.take(i + 1).drop_last() =~= an.take(i as int)); }
            let path = crate::uri::uri_path(&analyzed[i]);
            if crate::text::str_ends_with_segment(&path, &normalized) || crate::text::str_ends_with(&path, &normalized) {
                proof {
                    assert(first_naming(an.take(i + 1), normalized@) == Some(i as int));
                    lemma_first_naming_prefix(an, normalized@, i + 1);
                }
                let found = analyzed[i].clone();
                proof {
                    assert(found@ == an[i as int]);
                    assert(self.analyzed_fallback_is(template_path@, opt_view(Some(found))));
                }
                return Some(found);
            }
            i += 1;
        }
        proof { assert(an.take(analyzed@.len() as int) =~= an); }
        let r = self.templates.resolve_template_uri(template_path);
        proof { assert(self.analyzed_fallback_is(template_path@, opt_view(r))); }
        r
    }
}

/// The document path `p` names the template path `n`: it ends with `/n` or with `n`.
pub open spec fn names_template(p: Seq<char>, n: Seq<char>) -> bool {
    crate::text::ends_with_segment(p, n) || crate::text::ends_with(p, n)
}

/// Where in `us` the first document whose path names `n` is.
pub open spec fn first_naming(us: Seq<Seq<char>>, n: Seq<char>) -> Option<int>
    decreases us.len(),
{
    if us.len() == 0 {
        None
    } else {
        match first_naming(us.drop_last(), n) {
            Some(k) => Some(k),
            None => if names_template(crate::uri::path_of(us.last()), n) { Some(us.len() - 1) } else { None },
        }
    }
}

/// Once a prefix has a document naming `n`, the whole list finds the same one.
pub proof fn lemma_first_naming_prefix(us: Seq<Seq<char>>, n: Seq<char>, j: int)
    requires
        0 <= j <= us.len(),
        first_naming(us.take(j), n) is Some,
    ensures
        first_naming(us, n) == first_naming(us.take(j), n),
    decreases us.len() - j,
{
    if j < us.len() {
        assert(us.take(j + 1).drop_last() =~= us.take(j));
        lemma_first_naming_prefix(us, n, j + 1);
    } else {
        assert(us.take(j) =~= us);
    }
}

/// What a document symbol shows: name, kind, document, spans and documentation.
pub type SymbolView = (Seq<char>, SymbolKind, Seq<char>, Span, Span, Option<Seq<char>>);

/// A symbol as a document symbol shows it.
pub open spec fn symbol_view(s: Symbol) -> SymbolView {
    (s.name@, s.kind, s.uri@, s.definition_span, s.name_span, opt_view(s.docs))
}

/// An `ng-controller` scope as a document symbol: the controller over the scope's lines,
/// its name on the first line.
pub open spec fn scope_symbol_view(s: HtmlControllerScope) -> SymbolView {
    (s.controller_name@, SymbolKind::Controller, s.uri@,
        Span { start_line: s.start_line, start_col: 0, end_line: s.end_line, end_col: 0 },
        Span { start_line: s.start_line, start_col: 0, end_line: s.start_line,
            end_col: crate::handler::inlay_hints::utf8_len(s.controller_name@) as u32 },
        Some("ng-controller"@))
}

/// A scope expression as a document symbol.
pub open spec fn scope_reference_symbol_view(r: HtmlScopeReference) -> SymbolView {
    (r.property_path@, SymbolKind::ScopeProperty, r.uri@,
        crate::index::html_store::scope_reference_span(r), crate::index::html_store::scope_reference_span(r), None)
}

/// A directive reference as a document symbol.
pub open spec fn directive_symbol_view(r: crate::model::HtmlDirectiveReference) -> SymbolView {
    (r.directive_name@, SymbolKind::Directive, r.uri@,
        crate::model::html::directive_reference_span(r), crate::model::html::directive_reference_span(r), None)
}

/// `a` starts strictly before `b`.
pub open spec fn view_before(a: SymbolView, b: SymbolView) -> bool {
    a.3.start_line < b.3.start_line || (a.3.start_line == b.3.start_line && a.3.start_col < b.3.start_col)
}

/// `x` inserted into `s` before the first element that `x` starts strictly before.
pub open spec fn insert_view(s: Seq<SymbolView>, x: SymbolView) -> Seq<SymbolView>
    decreases s.len(),
{
    if s.len() == 0 {
        seq![x]
    } else if view_before(x, s.last()) {
        insert_view(s.drop_last(), x).push(s.last())
    } else {
        s.push(x)
    }
}

/// `s` by start, ties keeping their order.
pub open spec fn sort_views(s: Seq<SymbolView>) -> Seq<SymbolView>
    decreases s.len(),
{
    if s.len() == 0 { Seq::empty() } else { insert_view(sort_views(s.drop_last()), s.last()) }
}

/// Inserts `x` into `sorted` where `insert_view` puts it.
fn insert_symbol_into(sorted: &mut Vec<Symbol>, x: Symbol)
    ensures
        final(sorted)@.map_values(|s: Symbol| symbol_view(s)) == insert_view(old(sorted)@.map_values(|s: Symbol| symbol_view(s)), symbol_view(x)),
{
    let ghost s0 = sorted@.map_values(|s: Symbol| symbol_view(s));
    let ghost xv = symbol_view(x);
    let mut pos: usize = sorted.len();
    proof {
        assert(s0.take(s0.len() as int) =~= s0);
        assert(insert_view(s0, xv) =~= insert_view(s0.take(s0.len() as int), xv) + s0.skip(s0.len() as int));
    }
    while pos > 0
        invariant
            pos <= s0.len(),
            s0.len() == sorted@.len(),
            s0 == sorted@.map_values(|s: Symbol| symbol_view(s)),
            xv == symbol_view(x),
            insert_view(s0, xv) == insert_view(s0.take(pos as int), xv) + s0.skip(pos as int),
        ensures
            pos <= s0.len(),
            s0 == sorted@.map_values(|s: Symbol| symbol_view(s)),
            insert_view(s0, xv) == insert_view(s0.take(pos as int), xv) + s0.skip(pos as int),
            pos > 0 ==> !view_before(xv, s0[pos - 1]),
        decreases pos,
    {
        let y = &sorted[pos - 1];
        let before = x.definition_span.start_line < y.definition_span.start_line
            || (x.definition_span.start_line == y.definition_span.start_line && x.definition_span.start_col < y.definition_span.start_col);
        if !before {
            proof { assert(!view_before(xv, s0[pos - 1])); }
            break;
        }
        proof {
            let t = s0.take(pos as int);
            assert(t.drop_last() =~= s0.take(pos - 1));
            assert(t.last() == s0[pos - 1]);
            assert(s0.skip(pos - 1) =~= seq![s0[pos - 1]] + s0.skip(pos as int));
            assert(insert_view(t.drop_last(), xv).push(t.last()) + s0.skip(pos as int)
                =~= insert_view(s0.take(pos - 1), xv) + s0.skip(pos - 1));
        }
        pos -= 1;
    }
    proof {
        let t = s0.take(pos as int);
        if pos > 0 {
            assert(t.last() == s0[pos - 1]);
            assert(insert_view(t, xv) == t.push(xv));
        } else {
            assert(insert_view(t, xv) =~= seq![xv]);
        }
        assert(t.push(xv) + s0.skip(pos as int) =~= s0.insert(pos as int, xv));
    }
    let ghost old_s = sorted@;
    sorted.insert(pos, x);
    proof {
        assert(sorted@.map_values(|s: Symbol| symbol_view(s)) =~= s0.insert(pos as int, xv));
    }
}

impl Index {
    /// The symbols of the document `uri`: its definitions, its `ng-controller` scopes,
    /// its scope expressions and its directive references, ordered by where they start
    /// (ties in that order).
    pub fn get_document_symbols(&self, uri: &str) -> (r: Vec<Symbol>)
        ensures
            self.document_symbols_are(uri@, r@),
            r@.map_values(|s: Symbol| symbol_view(s)) == sort_views(
                crate::index::definition_store::definitions_in(self.definitions.defs(), list_at(self.definitions.docs(), uri@), uri@, false).map_values(|s: Symbol| symbol_view(s))
                + list_at(self.controllers.html_scopes(), uri@).map_values(|s: HtmlControllerScope| scope_symbol_view(s))
                + list_at(self.html@.scope_references, uri@).map_values(|x: HtmlScopeReference| scope_reference_symbol_view(x))
                + list_at(self.html@.directive_references, uri@).map_values(|x: crate::model::HtmlDirectiveReference| directive_symbol_view(x))),
    {
        let mut base = self.definitions.get_definitions_for_uri(uri);
        let ghost b0 = base@.map_values(|s: Symbol| symbol_view(s));
        let scopes = self.controllers.get_all_html_controller_scopes(uri);
        let mut i: usize = 0;
        while i < scopes.len()
            invariant
                i <= scopes@.len(),
                base@.map_values(|s: Symbol| symbol_view(s)) == b0 + scopes@.take(i as int).map_values(|s: HtmlControllerScope| scope_symbol_view(s)),
            decreases scopes.len() - i,
        {
            let sc = &scopes[i];
            let len = crate::text::byte_len(&sc.controller_name);
            let ghost before = base@;
            base.push(Symbol {
                name: sc.controller_name.clone(),
                kind: SymbolKind::Controller,
                uri: sc.uri.clone(),
                definition_span: Span::new(sc.start_line, 0, sc.end_line, 0),
                name_span: Span::new(sc.start_line, 0, sc.start_line, len as u32),
                docs: Some("ng-controller".to_owned()),
                parameters: None,
            });
            proof {
                reveal_strlit("ng-controller");
                assert(base@.map_values(|s: Symbol| symbol_view(s)) =~= before.map_values(|s: Symbol| symbol_view(s)).push(scope_symbol_view(scopes@[i as int])));
                assert(scopes@.take(i + 1).map_values(|s: HtmlControllerScope| scope_symbol_view(s))
                    =~= scopes@.take(i as int).map_values(|s: HtmlControllerScope| scope_symbol_view(s)).push(scope_symbol_view(scopes@[i as int])));
            }
            i += 1;
        }
        proof { assert(scopes@.take(i as int) =~= scopes@); }
        let ghost b1 = base@.map_values(|s: Symbol| symbol_view(s));
        let refs = self.html.get_html_scope_references(uri);
        let mut i: usize = 0;
        while i < refs.len()
            invariant
                i <= refs@.len(),
                base@.map_values(|s: Symbol| symbol_view(s)) == b1 + refs@.take(i as int).map_values(|x: HtmlScopeReference| scope_reference_symbol_view(x)),
            decreases refs.len() - i,
        {
            let x = &refs[i];
            let ghost before = base@;
            base.push(Symbol {
                name: x.property_path.clone(),
                kind: SymbolKind::ScopeProperty,
                uri: x.uri.clone(),
                definition_span: Span::new(x.start_line, x.start_col, x.end_line, x.end_col),
                name_span: Span::new(x.start_line, x.start_col, x.end_line, x.end_col),
                docs: None,
                parameters: None,
            });
            proof {
                assert(base@.map_values(|s: Symbol| symbol_view(s)) =~= before.map_values(|s: Symbol| symbol_view(s)).push(scope_reference_symbol_view(refs@[i as int])));
                assert(refs@.take(i + 1).map_values(|x: HtmlScopeReference| scope_reference_symbol_view(x))
                    =~= refs@.take(i as int).map_values(|x: HtmlScopeReference| scope_reference_symbol_view(x)).push(scope_reference_symbol_view(refs@[i as int])));
            }
            i += 1;
        }
        proof { assert(refs@.take(i as int) =~= refs@); }
        let ghost b2 = base@.map_values(|s: Symbol| symbol_view(s));
        let dirs = self.html.get_all_directive_references_for_uri(uri);
        let mut i: usize = 0;
        while i < dirs.len()
            invariant
                i <= dirs@.len(),
                base@.map_values(|s: Symbol| symbol_view(s)) == b2 + dirs@.take(i as int).map_values(|x: crate::model::HtmlDirectiveReference| directive_symbol_view(x)),
            decreases dirs.len() - i,
        {
            let x = &dirs[i];
            let ghost before = base@;
            base.push(Symbol {
                name: x.directive_name.clone(),
                kind: SymbolKind::Directive,
                uri: x.uri.clone(),
                definition_span: Span::new(x.start_line, x.start_col, x.end_line, x.end_col),
                name_span: Span::new(x.start_line, x.start_col, x.end_line, x.end_col),
                docs: None,
                parameters: None,
            });
            proof {
                assert(base@.map_values(|s: Symbol| symbol_view(s)) =~= before.map_values(|s: Symbol| symbol_view(s)).push(directive_symbol_view(dirs@[i as int])));
                assert(dirs@.take(i + 1).map_values(|x: crate::model::HtmlDirectiveReference| directive_symbol_view(x))
                    =~= dirs@.take(i as int).map_values(|x: crate::model::HtmlDirectiveReference| directive_symbol_view(x)).push(directive_symbol_view(dirs@[i as int])));
            }
            i += 1;
        }
        proof { assert(dirs@.take(i as int) =~= dirs@); }
        let ghost all = base@.map_values(|s: Symbol| symbol_view(s));
        let mut sorted: Vec<Symbol> = Vec::new();
        let mut rest = base;
        let ghost n = all.len();
        proof { assert(sorted@.map_values(|s: Symbol| symbol_view(s)) =~= sort_views(all.take(0))); }
        while rest.len() > 0
            invariant
                rest@.len() <= n,
                n == all.len(),
                rest@.map_values(|s: Symbol| symbol_view(s)) == all.skip(n - rest@.len()),
                sorted@.map_values(|s: Symbol| symbol_view(s)) == sort_views(all.take(n - rest@.len())),
            decreases rest.len(),
        {
            let ghost k = n - rest@.len();
            let ghost rv = rest@.map_values(|s: Symbol| symbol_view(s));
            let ghost r0 = rest@;
            let x = rest.remove(0);
            proof {
                assert(rest@ =~= r0.skip(1));
                assert(rest@.map_values(|s: Symbol| symbol_view(s)) =~= rv.skip(1));
                assert(rv[0] == symbol_view(x));
                assert(all[k] == symbol_view(x));
                assert(rest@.map_values(|s: Symbol| symbol_view(s)) =~= all.skip(k + 1));
                assert(all.take(k + 1).drop_last() =~= all.take(k));
            }
            insert_symbol_into(&mut sorted, x);
        }
        proof { assert(all.take(n as int) =~= all); }
        sorted
    }
}

/// The strings of `v`, each once, where it first occurs.
fn distinct_strings(v: &Vec<String>) -> (r: Vec<String>)
    ensures
        views(r@) == distinct(views(v@)),
{
    let mut r: Vec<String> = Vec::new();
    let mut i: usize = 0;
    while i < v.len()
        invariant
            i <= v@.len(),
            views(r@) == distinct(views(v@).take(i as int)),
        decreases v.len() - i,
    {
        proof { assert(views(v@).take(i + 1).drop_last() =~= views(v@).take(i as int)); }
        if !contains_str(&r, &v[i]) {
            let ghost before = r@;
            r.push(v[i].clone());
            proof { assert(views(r@) =~= views(before).push(v@[i as int]@)); }
        }
        i += 1;
    }
    proof { assert(views(v@).take(i as int) =~= views(v@)); }
    r
}


/// A reference as its name, document and span.
pub type RefView = (Seq<char>, Seq<char>, Span);

pub open spec fn ref_views(r: Seq<SymbolReference>) -> Seq<RefView> {
    r.map_values(|x: SymbolReference| (x.name@, x.uri@, x.span))
}

/// The expressions of `hs` (in the template `uri`) that `sel` picks, as references
/// named `name`.
pub open spec fn picked_refs(name: Seq<char>, uri: Seq<char>, hs: Seq<HtmlScopeReference>, sel: Seq<bool>) -> Seq<RefView>
    decreases hs.len(),
{
    if hs.len() == 0 {
        Seq::empty()
    } else {
        let prev = picked_refs(name, uri, hs.drop_last(), sel.drop_last());
        if sel.last() { prev.push((name, uri, crate::index::html_store::scope_reference_span(hs.last()))) } else { prev }
    }
}

/// Over the documents of `e` in order, the expressions `sel` picks.
pub open spec fn picked_all(name: Seq<char>, e: Seq<(String, Vec<HtmlScopeReference>)>, sel: Seq<Seq<bool>>) -> Seq<RefView>
    decreases e.len(),
{
    if e.len() == 0 {
        Seq::empty()
    } else {
        picked_all(name, e.drop_last(), sel.drop_last()) + picked_refs(name, e.last().0@, e.last().1@, sel.last())
    }
}


} // verus!
