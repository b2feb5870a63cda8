//! Find references: from a script, the definitions and uses of the symbol at the cursor;
//! from a template, those of the directive, local variable, form or scope property there.
use vstd::prelude::*;

use crate::handler::code_action::split_alias_and_property;
use crate::handler::definition::definition_locations;
use crate::handler::diagnostics::{path_alias, path_property};
use crate::handler::resolve::{first_segment, alias_step, controllers_step};
use crate::index::html_store::{directive_at, first_found, form_name_at, local_reference_within, local_variable_name_at, scope_reference_at};
use crate::index::query::opt_view;
use crate::index::snapshot::list_at;
use crate::index::Index;
use crate::lsp::{location_view, locations_view, Location, Position, Range};
use crate::model::html::{directive_reference_span, form_name_span, local_reference_span, local_variable_name_span};
use crate::model::span::{span_range, Span};
use crate::model::{HtmlDirectiveReference, HtmlFormBinding, HtmlLocalVariable, HtmlLocalVariableReference, HtmlScopeReference, Symbol, SymbolKind, SymbolReference};
use crate::text::{chars_of, concat, find_char, lemma_first_index, string_from_chars, views};
use crate::uri::path_of;
use crate::util::{html_path, is_html_file};

verus! {

/// Each reference's document and span.
pub open spec fn ref_locations(refs: Seq<SymbolReference>) -> Seq<(Seq<char>, Range)> {
    refs.map_values(|x: SymbolReference| (x.uri@, span_range(x.span)))
}

/// Each local variable reference's document and span.
pub open spec fn local_ref_locations(refs: Seq<HtmlLocalVariableReference>) -> Seq<(Seq<char>, Range)> {
    refs.map_values(|x: HtmlLocalVariableReference| (x.uri@, span_range(local_reference_span(x))))
}

/// Each directive use's document and span.
pub open spec fn directive_ref_locations(refs: Seq<HtmlDirectiveReference>) -> Seq<(Seq<char>, Range)> {
    refs.map_values(|x: HtmlDirectiveReference| (x.uri@, span_range(directive_reference_span(x))))
}

/// `l`, or nothing when it is empty.
pub open spec fn nonempty(l: Seq<(Seq<char>, Range)>) -> Option<Seq<(Seq<char>, Range)>> {
    if l.len() == 0 { None } else { Some(l) }
}

/// The locations of an optional list.
pub open spec fn opt_locations(r: Option<Vec<Location>>) -> Option<Seq<(Seq<char>, Range)>> {
    match r {
        Some(v) => Some(locations_view(v@)),
        None => None,
    }
}

/// A template reference within the lines of the form `f`'s scope.
pub open spec fn in_form_scope(f: HtmlFormBinding) -> spec_fn(SymbolReference) -> bool {
    |x: SymbolReference| f.scope_start_line <= x.span.start_line <= f.scope_end_line
}

/// The symbol a form is as a property of controller `c`.
pub open spec fn form_symbol(c: Seq<char>, name: Seq<char>) -> Seq<char> {
    c + ".$scope."@ + name
}

/// For each controller `cs[k]` in turn: the template references `hs[k]` of its form
/// symbol within the form's scope, then the script references of that symbol.
pub open spec fn form_locations(refs: Map<Seq<char>, Seq<SymbolReference>>, f: HtmlFormBinding, cs: Seq<Seq<char>>, hs: Seq<Seq<SymbolReference>>) -> Seq<(Seq<char>, Range)>
    decreases cs.len(),
{
    if cs.len() == 0 || hs.len() < cs.len() {
        Seq::empty()
    } else {
        let k = cs.len() - 1;
        form_locations(refs, f, cs.drop_last(), hs.take(k))
            + ref_locations(hs[k].filter(in_form_scope(f)))
            + ref_locations(list_at(refs, form_symbol(cs[k], f.name@)))
    }
}

/// Appends a location per element.
fn push_symbol_refs(locs: &mut Vec<Location>, refs: &Vec<SymbolReference>)
    ensures
        locations_view(final(locs)@) == locations_view(old(locs)@) + ref_locations(refs@),
{
    let ghost start = locations_view(locs@);
    let mut i: usize = 0;
    while i < refs.len()
        invariant
            i <= refs@.len(),
            locations_view(locs@) == start + ref_locations(refs@.take(i as int)),
        decreases refs.len() - i,
    {
        let ghost before = locs@;
        locs.push(Location { uri: refs[i].uri.clone(), range: refs[i].span.to_lsp_range() });
        proof {
            assert(locations_view(locs@) =~= locations_view(before).push(location_view(locs@.last())));
            assert(ref_locations(refs@.take(i + 1)) =~= ref_locations(refs@.take(i as int)).push(
                (refs@[i as int].uri@, span_range(refs@[i as int].span))));
        }
        i += 1;
    }
    proof { assert(refs@.take(refs@.len() as int) =~= refs@); }
}

/// Appends a location per local variable reference.
fn push_local_refs(locs: &mut Vec<Location>, refs: &Vec<HtmlLocalVariableReference>)
    ensures
        locations_view(final(locs)@) == locations_view(old(locs)@) + local_ref_locations(refs@),
{
    let ghost start = locations_view(locs@);
    let mut i: usize = 0;
    while i < refs.len()
        invariant
            i <= refs@.len(),
            locations_view(locs@) == start + local_ref_locations(refs@.take(i as int)),
        decreases refs.len() - i,
    {
        let ghost before = locs@;
        locs.push(Location { uri: refs[i].uri.clone(), range: refs[i].span().to_lsp_range() });
        proof {
            assert(locations_view(locs@) =~= locations_view(before).push(location_view(locs@.last())));
            assert(local_ref_locations(refs@.take(i + 1)) =~= local_ref_locations(refs@.take(i as int)).push(
                (refs@[i as int].uri@, span_range(local_reference_span(refs@[i as int])))));
        }
        i += 1;
    }
    proof { assert(refs@.take(refs@.len() as int) =~= refs@); }
}

/// Appends a location per directive use.
fn push_directive_refs(locs: &mut Vec<Location>, refs: &Vec<HtmlDirectiveReference>)
    ensures
        locations_view(final(locs)@) == locations_view(old(locs)@) + directive_ref_locations(refs@),
{
    let ghost start = locations_view(locs@);
    let mut i: usize = 0;
    while i < refs.len()
        invariant
            i <= refs@.len(),
            locations_view(locs@) == start + directive_ref_locations(refs@.take(i as int)),
        decreases refs.len() - i,
    {
        let ghost before = locs@;
        locs.push(Location { uri: refs[i].uri.clone(), range: refs[i].span().to_lsp_range() });
        proof {
            assert(locations_view(locs@) =~= locations_view(before).push(location_view(locs@.last())));
            assert(directive_ref_locations(refs@.take(i + 1)) =~= directive_ref_locations(refs@.take(i as int)).push(
                (refs@[i as int].uri@, span_range(directive_reference_span(refs@[i as int])))));
        }
        i += 1;
    }
    proof { assert(refs@.take(refs@.len() as int) =~= refs@); }
}

/// Appends a location per definition, at its whole span.
fn push_definitions(locs: &mut Vec<Location>, defs: &Vec<Symbol>)
    ensures
        locations_view(final(locs)@) == locations_view(old(locs)@) + definition_locations(defs@),
{
    let ghost start = locations_view(locs@);
    let mut i: usize = 0;
    while i < defs.len()
        invariant
            i <= defs@.len(),
            locations_view(locs@) == start + definition_locations(defs@.take(i as int)),
        decreases defs.len() - i,
    {
        let ghost before = locs@;
        locs.push(Location { uri: defs[i].uri.clone(), range: defs[i].definition_span.to_lsp_range() });
        proof {
            assert(locations_view(locs@) =~= locations_view(before).push(location_view(locs@.last())));
            assert(definition_locations(defs@.take(i + 1)) =~= definition_locations(defs@.take(i as int)).push(
                (defs@[i as int].uri@, span_range(defs@[i as int].definition_span))));
        }
        i += 1;
    }
    proof { assert(defs@.take(defs@.len() as int) =~= defs@); }
}

/// The template references of `refs` within the lines of the form `f`'s scope, in order.
pub fn keep_in_form_scope(refs: Vec<SymbolReference>, f: &HtmlFormBinding) -> (r: Vec<SymbolReference>)
    ensures
        r@ == refs@.filter(in_form_scope(*f)),
{
    let ghost all = refs@;
    let mut rest = refs;
    let mut r: Vec<SymbolReference> = Vec::new();
    while rest.len() > 0
        invariant
            rest@.len() <= all.len(),
            rest@ == all.skip(all.len() - rest@.len()),
            r@ == all.take(all.len() - rest@.len()).filter(in_form_scope(*f)),
        decreases rest.len(),
    {
        let ghost k = all.len() - rest@.len();
        let s = rest.remove(0);
        proof {
            assert(all.take(k + 1).drop_last() =~= all.take(k));
            assert(rest@ =~= all.skip(k + 1));
            reveal_with_fuel(Seq::filter, 1);
        }
        if s.span.start_line >= f.scope_start_line && s.span.start_line <= f.scope_end_line {
            r.push(s);
        }
    }
    proof { assert(all.take(all.len() as int) =~= all); }
    r
}

/// The property a scope path means: after its alias when the alias named a controller
/// (`res`), else the whole path.
pub open spec fn scope_prop(p: Seq<char>, res: Option<Seq<char>>) -> Seq<char> {
    if res is Some { path_property(p) } else { p }
}

/// Whether some of `defs` is a directive or a component.
fn any_directive(defs: &Vec<Symbol>) -> (r: bool)
    ensures
        r == exists|i: int| 0 <= i < defs@.len() && (defs@[i].kind == SymbolKind::Directive || defs@[i].kind == SymbolKind::Component),
{
    let mut i: usize = 0;
    while i < defs.len()
        invariant
            i <= defs@.len(),
            forall|j: int| 0 <= j < i ==> !(defs@[j].kind == SymbolKind::Directive || defs@[j].kind == SymbolKind::Component),
        decreases defs.len() - i,
    {
        if defs[i].kind == SymbolKind::Directive || defs[i].kind == SymbolKind::Component {
            return true;
        }
        i += 1;
    }
    false
}

/// Find references over an index.
pub struct ReferencesHandler<'a> {
    pub index: &'a Index,
}

impl<'a> ReferencesHandler<'a> {
    pub fn new(index: &'a Index) -> (r: Self)
        ensures
            r.index == index,
    {
        ReferencesHandler { index }
    }

    /// `r` is what collecting the symbol `name` gives: its definitions (when declarations
    /// are included), then its script and template references; nothing when empty.
    pub open spec fn references_collected(&self, name: Seq<char>, inc: bool, r: Option<Seq<(Seq<char>, Range)>>) -> bool {
        exists|refs: Seq<SymbolReference>| #[trigger] self.index.all_references_are(name, refs)
            && r == nonempty((if inc { definition_locations(list_at(self.index.definitions.defs(), name)) } else { Seq::empty() })
                + ref_locations(refs))
    }

    /// `r` is what collecting the directive `name` gives: its directive and component
    /// definitions (when declarations are included), its uses in templates, then its
    /// script and template references; nothing when empty.
    pub open spec fn directive_collected(&self, name: Seq<char>, inc: bool, r: Option<Seq<(Seq<char>, Range)>>) -> bool {
        exists|h: Seq<HtmlDirectiveReference>, refs: Seq<SymbolReference>|
            #![trigger self.index.html.directive_references_are(name, h), self.index.all_references_are(name, refs)]
            self.index.html.directive_references_are(name, h) && self.index.all_references_are(name, refs)
            && r == nonempty((if inc {
                definition_locations(list_at(self.index.definitions.defs(), name).filter(|d: Symbol| d.kind == SymbolKind::Directive || d.kind == SymbolKind::Component))
            } else {
                Seq::empty()
            }) + directive_ref_locations(h) + ref_locations(refs))
    }

    /// `r` is what collecting the local variable `v` gives: its name (when declarations
    /// are included), its references in its own template within its scope, then those in
    /// the templates that inherit it; nothing when empty.
    pub open spec fn local_collected(&self, v: HtmlLocalVariable, inc: bool, r: Option<Seq<(Seq<char>, Range)>>) -> bool {
        let all = list_at(self.index.html@.local_variable_references, v.name@);
        let within = all.filter(local_reference_within(v.uri@, v.scope_start_line as int, v.scope_end_line as int));
        exists|inh: Seq<HtmlLocalVariableReference>| #[trigger] self.index.templates.inherited_references_are(v.uri@, v.name@, all, inh)
            && r == nonempty((if inc { seq![(v.uri@, span_range(local_variable_name_span(v)))] } else { Seq::empty() })
                + local_ref_locations(within) + local_ref_locations(inh))
    }

    /// `r` is what collecting the form `f` gives: its name (when declarations are
    /// included), then, for each controller in effect where its scope starts, the
    /// references of the form as that controller's scope property; nothing when empty.
    pub open spec fn form_collected(&self, f: HtmlFormBinding, inc: bool, r: Option<Seq<(Seq<char>, Range)>>) -> bool {
        exists|cs: Seq<Seq<char>>, hs: Seq<Seq<SymbolReference>>|
            #![trigger self.index.controllers_are(f.uri@, f.scope_start_line as int, cs), form_locations(self.index.definitions.refs(), f, cs, hs)]
            self.index.controllers_are(f.uri@, f.scope_start_line as int, cs) && hs.len() == cs.len()
            && (forall|k: int| 0 <= k < cs.len() ==> self.index.html_references_hold(form_symbol(#[trigger] cs[k], f.name@), hs[k]))
            && r == nonempty((if inc { seq![(f.uri@, span_range(form_name_span(f)))] } else { Seq::empty() })
                + form_locations(self.index.definitions.refs(), f, cs, hs))
    }

    /// `r` is what trying the controllers `cs` in turn gives: the references of the
    /// first whose `c + mid + prop` is defined and has any, or nothing when none has.
    pub open spec fn first_collected(&self, cs: Seq<Seq<char>>, mid: Seq<char>, prop: Seq<char>, inc: bool, r: Option<Seq<(Seq<char>, Range)>>) -> bool {
        let defs = self.index.definitions.defs();
        match r {
            Some(l) => exists|k: int| 0 <= k < cs.len() && defs.contains_key(#[trigger] cs[k] + mid + prop)
                && self.references_collected(cs[k] + mid + prop, inc, Some(l))
                && forall|j: int| 0 <= j < k && defs.contains_key(#[trigger] cs[j] + mid + prop)
                    ==> self.references_collected(cs[j] + mid + prop, inc, None),
            None => forall|k: int| 0 <= k < cs.len() && defs.contains_key(#[trigger] cs[k] + mid + prop)
                ==> self.references_collected(cs[k] + mid + prop, inc, None),
        }
    }

    /// `r` is what the scope path `p` at `line` of `uri` gives: the references of the
    /// first controller it can mean that defines it on `$scope`, else (for an alias) on
    /// `this`; else those of a `$rootScope` symbol of that property; else nothing.
    pub open spec fn scope_references_found(&self, uri: Seq<char>, line: int, p: Seq<char>, inc: bool, r: Option<Seq<(Seq<char>, Range)>>) -> bool {
        exists|res: Option<Seq<char>>| #[trigger] alias_step(self.index, uri, line, p, res) && {
            exists|cs: Seq<Seq<char>>| #[trigger] controllers_step(self.index, uri, line, res, cs)
                && exists|a: Option<Seq<(Seq<char>, Range)>>| #[trigger] self.first_collected(cs, ".$scope."@, scope_prop(p, res), inc, a) && match a {
                    Some(l) => r == Some(l),
                    None => exists|b: Option<Seq<(Seq<char>, Range)>>| #[trigger] self.alias_step_collected(cs, scope_prop(p, res), inc, res is Some, b) && match b {
                        Some(l) => r == Some(l),
                        None => exists|rs: Option<Seq<char>>| #[trigger] self.index.definitions.root_scope_symbol_is(scope_prop(p, res), rs) && match rs {
                            Some(n) => self.references_collected(n, inc, r),
                            None => r is None,
                        },
                    },
                }
        }
    }

    /// For an alias (`is_as`), what trying the controllers' `this` properties gives;
    /// nothing otherwise.
    pub open spec fn alias_step_collected(&self, cs: Seq<Seq<char>>, prop: Seq<char>, inc: bool, is_as: bool, b: Option<Seq<(Seq<char>, Range)>>) -> bool {
        if is_as { self.first_collected(cs, "."@, prop, inc, b) } else { b is None }
    }

    /// `r` is what find references gives at `(line, col)` of the template `uri`: for a
    /// directive there, its references; for a local variable defined or used there, its;
    /// for a form's name, the form's; for a scope expression, those of the form or local
    /// variable its first segment names, else of its scope property; nothing elsewhere.
    pub open spec fn html_references_found(&self, uri: Seq<char>, line: int, col: int, inc: bool, r: Option<Seq<(Seq<char>, Range)>>) -> bool {
        let ix = self.index;
        let dirs = list_at(ix.html@.directive_references, uri);
        let vars = list_at(ix.html@.local_variables, uri);
        let forms = list_at(ix.html@.form_bindings, uri);
        let scopes = list_at(ix.html@.scope_references, uri);
        exists|d: Option<HtmlDirectiveReference>| #[trigger] first_found(dirs, directive_at(line, col), d) && match d {
            Some(x) => self.directive_collected(x.directive_name@, inc, r),
            None => exists|vd: Option<HtmlLocalVariable>| #[trigger] first_found(vars, local_variable_name_at(line, col), vd) && match vd {
                Some(x) => self.local_collected(x, inc, r),
                None => exists|lr: Option<HtmlLocalVariableReference>| #[trigger] ix.html.local_reference_at_is(uri, line, col, lr)
                    && exists|def: Option<HtmlLocalVariable>| #[trigger] self.used_variable(uri, line, lr, def) && match def {
                    Some(x) => self.local_collected(x, inc, r),
                    None => exists|fb: Option<HtmlFormBinding>| #[trigger] first_found(forms, form_name_at(line, col), fb) && match fb {
                        Some(x) => self.form_collected(x, inc, r),
                        None => exists|h: Option<HtmlScopeReference>| #[trigger] first_found(scopes, scope_reference_at(line, col), h) && match h {
                            None => r is None,
                            Some(h) => {
                                let base = first_segment(h.property_path@);
                                exists|f: Option<HtmlFormBinding>| #[trigger] ix.form_definition_is(uri, base, line, f) && match f {
                                    Some(x) => self.form_collected(x, inc, r),
                                    None => exists|v: Option<HtmlLocalVariable>| #[trigger] ix.local_definition_is(uri, base, line, v) && match v {
                                        Some(x) => self.local_collected(x, inc, r),
                                        None => self.scope_references_found(uri, line, h.property_path@, inc, r),
                                    },
                                }
                            },
                        },
                    },
                },
            },
        }
    }

    /// `def` is the definition of the local variable used at the reference `lr` (none
    /// without a reference there).
    pub open spec fn used_variable(&self, uri: Seq<char>, line: int, lr: Option<HtmlLocalVariableReference>, def: Option<HtmlLocalVariable>) -> bool {
        match lr {
            Some(v) => self.index.local_definition_is(uri, v.variable_name@, line, def),
            None => def is None,
        }
    }

    /// `r` is what find references gives at `position` of `uri`: in a template, as
    /// [`Self::html_references_found`] says; in a script, for the symbol at the cursor, the
    /// directive references when it is a directive or component, else its references.
    pub open spec fn references_found(&self, uri: Seq<char>, position: Position, inc: bool, r: Option<Seq<(Seq<char>, Range)>>) -> bool {
        let line = position.line as int;
        let col = position.character as int;
        if html_path(path_of(uri)) {
            self.html_references_found(uri, line, col, inc, r)
        } else if self.index.definitions.hits_at(uri, line, col).len() == 0 {
            r is None
        } else {
            exists|n: Seq<char>| #[trigger] self.index.definitions.symbol_at_is(uri, line, col, n) && {
                let ds = list_at(self.index.definitions.defs(), n);
                if exists|i: int| 0 <= i < ds.len() && (ds[i].kind == SymbolKind::Directive || ds[i].kind == SymbolKind::Component) {
                    self.directive_collected(n, inc, r)
                } else {
                    self.references_collected(n, inc, r)
                }
            }
        }
    }

    /// The definitions and references of what the cursor at `position` of `uri` is on
    /// (definitions only when `include_declaration`).
    pub fn find_references(&self, uri: &str, position: Position, include_declaration: bool) -> (r: Option<Vec<Location>>)
        requires
            !html_path(path_of(uri@)) ==> self.index.definitions.hits_measurable(uri@, position.line as int, position.character as int),
        ensures
            self.references_found(uri@, position, include_declaration, opt_locations(r)),
    {
        if is_html_file(uri) {
            return self.find_references_from_html(uri, position, include_declaration);
        }
        let name = self.index.definitions.find_symbol_at_position(uri, position.line, position.character);
        let symbol_name = match name {
            Some(n) => n,
            None => return None,
        };
        assert(self.index.definitions.symbol_at_is(uri@, position.line as int, position.character as int, symbol_name@));
        let definitions = self.index.definitions.get_definitions(symbol_name.as_str());
        if any_directive(&definitions) {
            return self.collect_directive_all_references(symbol_name.as_str(), include_declaration);
        }
        self.collect_references(symbol_name.as_str(), include_declaration)
    }

    fn find_references_from_html(&self, uri: &str, position: Position, include_declaration: bool) -> (r: Option<Vec<Location>>)
        ensures
            self.html_references_found(uri@, position.line as int, position.character as int, include_declaration, opt_locations(r)),
    {
        let line = position.line;
        let col = position.character;
        let d = self.index.html.find_html_directive_reference_at(uri, line, col);
        assert(first_found(list_at(self.index.html@.directive_references, uri@), directive_at(line as int, col as int), d));
        match d {
            Some(x) => {
                return self.collect_directive_all_references(x.directive_name.as_str(), include_declaration);
            },
            None => {},
        }
        let vd = self.index.html.find_html_local_variable_definition_at(uri, line, col);
        assert(first_found(list_at(self.index.html@.local_variables, uri@), local_variable_name_at(line as int, col as int), vd));
        match vd {
            Some(x) => {
                return self.collect_local_variable_references(&x, include_declaration);
            },
            None => {},
        }
        let lr = self.index.html.find_html_local_variable_at(uri, line, col);
        assert(self.index.html.local_reference_at_is(uri@, line as int, col as int, lr));
        let def = match &lr {
            Some(v) => self.index.find_local_variable_definition(uri, v.variable_name.as_str(), line),
            None => None,
        };
        assert(self.used_variable(uri@, line as int, lr, def));
        match def {
            Some(x) => {
                return self.collect_local_variable_references(&x, include_declaration);
            },
            None => {},
        }
        self.from_html_after_locals(uri, line, col, include_declaration)
    }

    fn from_html_after_locals(&self, uri: &str, line: u32, col: u32, include_declaration: bool) -> (r: Option<Vec<Location>>)
        ensures
            ({
                let forms = list_at(self.index.html@.form_bindings, uri@);
                let scopes = list_at(self.index.html@.scope_references, uri@);
                exists|fb: Option<HtmlFormBinding>| #[trigger] first_found(forms, form_name_at(line as int, col as int), fb) && match fb {
                    Some(x) => self.form_collected(x, include_declaration, opt_locations(r)),
                    None => exists|h: Option<HtmlScopeReference>| #[trigger] first_found(scopes, scope_reference_at(line as int, col as int), h) && match h {
                        None => opt_locations(r) is None,
                        Some(h) => {
                            let base = first_segment(h.property_path@);
                            exists|f: Option<HtmlFormBinding>| #[trigger] self.index.form_definition_is(uri@, base, line as int, f) && match f {
                                Some(x) => self.form_collected(x, include_declaration, opt_locations(r)),
                                None => exists|v: Option<HtmlLocalVariable>| #[trigger] self.index.local_definition_is(uri@, base, line as int, v) && match v {
                                    Some(x) => self.local_collected(x, include_declaration, opt_locations(r)),
                                    None => self.scope_references_found(uri@, line as int, h.property_path@, include_declaration, opt_locations(r)),
                                },
                            }
                        },
                    },
                }
            }),
    {
        let fb = self.index.html.find_html_form_binding_at(uri, line, col);
        assert(first_found(list_at(self.index.html@.form_bindings, uri@), form_name_at(line as int, col as int), fb));
        match fb {
            Some(b) => {
                return self.collect_form_binding_references(&b, include_declaration);
            },
            None => {},
        }
        let h = self.index.html.find_html_scope_reference_at(uri, line, col);
        assert(first_found(list_at(self.index.html@.scope_references, uri@), scope_reference_at(line as int, col as int), h));
        let html_ref = match h {
            Some(x) => x,
            None => return None,
        };
        let base = crate::handler::resolve::first_segment_of(html_ref.property_path.as_str());
        let f = self.index.find_form_binding_definition(uri, base.as_str(), line);
        assert(self.index.form_definition_is(uri@, base@, line as int, f));
        match f {
            Some(b) => {
                return self.collect_form_binding_references(&b, include_declaration);
            },
            None => {},
        }
        let v = self.index.find_local_variable_definition(uri, base.as_str(), line);
        assert(self.index.local_definition_is(uri@, base@, line as int, v));
        match v {
            Some(d) => {
                return self.collect_local_variable_references(&d, include_declaration);
            },
            None => {},
        }
        self.scope_references(uri, line, html_ref.property_path.as_str(), include_declaration)
    }

    /// The references of the first of `controllers` whose `c + mid + prop` is defined and
    /// has any.
    fn first_collected_exec(&self, controllers: &Vec<String>, mid: &str, prop: &str, include_declaration: bool) -> (r: Option<Vec<Location>>)
        ensures
            self.first_collected(views(controllers@), mid@, prop@, include_declaration, opt_locations(r)),
    {
        let ghost cs = views(controllers@);
        let ghost defs = self.index.definitions.defs();
        let mut k: usize = 0;
        while k < controllers.len()
            invariant
                k <= controllers@.len(),
                cs == views(controllers@),
                defs == self.index.definitions.defs(),
                forall|j: int| 0 <= j < k && defs.contains_key(#[trigger] cs[j] + mid@ + prop@)
                    ==> self.references_collected(cs[j] + mid@ + prop@, include_declaration, None),
            decreases controllers.len() - k,
        {
            let name = concat(concat(controllers[k].as_str(), mid).as_str(), prop);
            assert(name@ == cs[k as int] + mid@ + prop@);
            if self.index.definitions.has_definition(name.as_str()) {
                let found = self.collect_references(name.as_str(), include_declaration);
                match found {
                    Some(l) => {
                        return Some(l);
                    },
                    None => {},
                }
            }
            k += 1;
        }
        None
    }

    fn scope_references(&self, uri: &str, line: u32, path: &str, include_declaration: bool) -> (r: Option<Vec<Location>>)
        ensures
            self.scope_references_found(uri@, line as int, path@, include_declaration, opt_locations(r)),
    {
        let (alias, rest) = split_alias_and_property(path);
        assert(opt_view(alias) == path_alias(path@));
        let resolved: Option<String> = match &alias {
            Some(a) => self.index.resolve_controller_by_alias(uri, line, a.as_str()),
            None => None,
        };
        assert(alias_step(self.index, uri@, line as int, path@, opt_view(resolved)));
        let is_controller_as = resolved.is_some();
        let property_path: String = if is_controller_as {
            rest
        } else {
            let cs = chars_of(path);
            let p = string_from_chars(&cs, 0, cs.len());
            assert(p@ =~= path@);
            p
        };
        let controllers: Vec<String> = match resolved {
            Some(c) => {
                let mut v: Vec<String> = Vec::new();
                let ghost cv = c@;
                v.push(c);
                assert(views(v@) =~= seq![cv]);
                v
            },
            None => self.index.resolve_controllers_for_html(uri, line),
        };
        assert(controllers_step(self.index, uri@, line as int, opt_view(resolved), views(controllers@)));
        assert(property_path@ == scope_prop(path@, opt_view(resolved)));
        let r = self.scope_references_among(&controllers, property_path.as_str(), is_controller_as, include_declaration);
        proof {
            let res = opt_view(resolved);
            let cs = views(controllers@);
            assert(is_controller_as == (res is Some));
            assert(alias_step(self.index, uri@, line as int, path@, res) && controllers_step(self.index, uri@, line as int, res, cs));
        }
        r
    }

    fn scope_references_among(&self, controllers: &Vec<String>, prop: &str, is_as: bool, include_declaration: bool) -> (r: Option<Vec<Location>>)
        ensures
            exists|a: Option<Seq<(Seq<char>, Range)>>| #[trigger] self.first_collected(views(controllers@), ".$scope."@, prop@, include_declaration, a) && match a {
                Some(l) => opt_locations(r) == Some(l),
                None => exists|b: Option<Seq<(Seq<char>, Range)>>| #[trigger] self.alias_step_collected(views(controllers@), prop@, include_declaration, is_as, b) && match b {
                    Some(l) => opt_locations(r) == Some(l),
                    None => exists|rs: Option<Seq<char>>| #[trigger] self.index.definitions.root_scope_symbol_is(prop@, rs) && match rs {
                        Some(n) => self.references_collected(n, include_declaration, opt_locations(r)),
                        None => opt_locations(r) is None,
                    },
                },
            },
    {
        let a = self.first_collected_exec(controllers, ".$scope.", prop, include_declaration);
        assert(self.first_collected(views(controllers@), ".$scope."@, prop@, include_declaration, opt_locations(a)));
        if a.is_some() {
            return a;
        }
        let b = if is_as {
            self.first_collected_exec(controllers, ".", prop, include_declaration)
        } else {
            None
        };
        assert(self.alias_step_collected(views(controllers@), prop@, include_declaration, is_as, opt_locations(b)));
        if b.is_some() {
            return b;
        }
        let rs = self.index.definitions.find_root_scope_symbol_name_by_property(prop);
        assert(self.index.definitions.root_scope_symbol_is(prop@, opt_view(rs)));
        match rs {
            Some(n) => self.collect_references(n.as_str(), include_declaration),
            None => None,
        }
    }

    fn collect_references(&self, symbol_name: &str, include_declaration: bool) -> (r: Option<Vec<Location>>)
        ensures
            self.references_collected(symbol_name@, include_declaration, opt_locations(r)),
    {
        let mut locations: Vec<Location> = Vec::new();
        if include_declaration {
            let defs = self.index.definitions.get_definitions(symbol_name);
            push_definitions(&mut locations, &defs);
        }
        let refs = self.index.get_all_references(symbol_name);
        assert(self.index.all_references_are(symbol_name@, refs@));
        push_symbol_refs(&mut locations, &refs);
        proof { assert(locations_view(locations@) =~= (if include_declaration { definition_locations(list_at(self.index.definitions.defs(), symbol_name@)) } else { Seq::empty() }) + ref_locations(refs@)); }
        if locations.len() == 0 {
            None
        } else {
            Some(locations)
        }
    }

    fn collect_directive_all_references(&self, directive_name: &str, include_declaration: bool) -> (r: Option<Vec<Location>>)
        ensures
            self.directive_collected(directive_name@, include_declaration, opt_locations(r)),
    {
        let mut locations: Vec<Location> = Vec::new();
        if include_declaration {
            let defs = crate::handler::definition::keep_directives(self.index.definitions.get_definitions(directive_name));
            push_definitions(&mut locations, &defs);
        }
        let ghost a = locations_view(locations@);
        let h = self.index.html.get_html_directive_references(directive_name);
        assert(self.index.html.directive_references_are(directive_name@, h@));
        push_directive_refs(&mut locations, &h);
        let refs = self.index.get_all_references(directive_name);
        assert(self.index.all_references_are(directive_name@, refs@));
        push_symbol_refs(&mut locations, &refs);
        if locations.len() == 0 {
            None
        } else {
            Some(locations)
        }
    }

    fn collect_local_variable_references(&self, var_def: &HtmlLocalVariable, include_declaration: bool) -> (r: Option<Vec<Location>>)
        ensures
            self.local_collected(*var_def, include_declaration, opt_locations(r)),
    {
        let mut locations: Vec<Location> = Vec::new();
        if include_declaration {
            locations.push(Location { uri: var_def.uri.clone(), range: var_def.name_span().to_lsp_range() });
            proof { assert(locations_view(locations@) =~= seq![(var_def.uri@, span_range(local_variable_name_span(*var_def)))]); }
        } else {
            proof { assert(locations_view(locations@) =~= Seq::empty()); }
        }
        let within = self.index.html.get_local_variable_references(var_def.uri.as_str(), var_def.name.as_str(),
            var_def.scope_start_line, var_def.scope_end_line);
        push_local_refs(&mut locations, &within);
        let all = self.index.html.html_local_variable_references_raw(var_def.name.as_str());
        let inherited = self.index.templates.get_inherited_local_variable_references(var_def.uri.as_str(), var_def.name.as_str(), &all);
        assert(self.index.templates.inherited_references_are(var_def.uri@, var_def.name@, all@, inherited@));
        push_local_refs(&mut locations, &inherited);
        if locations.len() == 0 {
            None
        } else {
            Some(locations)
        }
    }

    fn collect_form_binding_references(&self, form_binding: &HtmlFormBinding, include_declaration: bool) -> (r: Option<Vec<Location>>)
        ensures
            self.form_collected(*form_binding, include_declaration, opt_locations(r)),
    {
        let mut locations: Vec<Location> = Vec::new();
        if include_declaration {
            locations.push(Location { uri: form_binding.uri.clone(), range: form_binding.name_span().to_lsp_range() });
            proof { assert(locations_view(locations@) =~= seq![(form_binding.uri@, span_range(form_name_span(*form_binding)))]); }
        } else {
            proof { assert(locations_view(locations@) =~= Seq::empty()); }
        }
        let ghost head = locations_view(locations@);
        let controllers = self.index.resolve_controllers_for_html(form_binding.uri.as_str(), form_binding.scope_start_line);
        let ghost cs = views(controllers@);
        assert(self.index.controllers_are(form_binding.uri@, form_binding.scope_start_line as int, cs));
        let ghost refs_map = self.index.definitions.refs();
        let ghost mut hs: Seq<Seq<SymbolReference>> = Seq::empty();
        let mut k: usize = 0;
        while k < controllers.len()
            invariant
                k <= controllers@.len(),
                cs == views(controllers@),
                refs_map == self.index.definitions.refs(),
                hs.len() == k,
                forall|j: int| 0 <= j < k ==> self.index.html_references_hold(form_symbol(#[trigger] cs[j], form_binding.name@), hs[j]),
                locations_view(locations@) == head + form_locations(refs_map, *form_binding, cs.take(k as int), hs),
            decreases controllers.len() - k,
        {
            let symbol_name = concat(concat(controllers[k].as_str(), ".$scope.").as_str(), form_binding.name.as_str());
            assert(symbol_name@ == form_symbol(cs[k as int], form_binding.name@));
            let html = self.index.get_html_references_for_symbol(symbol_name.as_str());
            let ghost hk = html@;
            let scoped = keep_in_form_scope(html, form_binding);
            push_symbol_refs(&mut locations, &scoped);
            let js = self.index.definitions.get_references(symbol_name.as_str());
            push_symbol_refs(&mut locations, &js);
            proof {
                assert(cs.take(k + 1).drop_last() =~= cs.take(k as int));
                assert(hs.push(hk).take(k as int) =~= hs);
                assert(cs.take(k + 1)[k as int] == cs[k as int]);
                hs = hs.push(hk);
                assert(locations_view(locations@) =~= head + form_locations(refs_map, *form_binding, cs.take(k + 1), hs));
            }
            k += 1;
        }
        proof { assert(cs.take(cs.len() as int) =~= cs); }
        if locations.len() == 0 {
            None
        } else {
            Some(locations)
        }
    }
}


impl<'a> ReferencesHandler<'a> {
    /// Finding the references of a directive lists every use of it recorded in a
    /// template, at that use's span (whether declarations are included or not).
    pub proof fn law_directive_references_list_every_template_use(&self, name: Seq<char>, inc: bool, r: Option<Seq<(Seq<char>, Range)>>)
        requires
            self.directive_collected(name, inc, r),
        ensures
            forall|u: Seq<char>, j: int| self.index.html@.directive_references.contains_key(u)
                && 0 <= j < self.index.html@.directive_references[u].len()
                && (#[trigger] self.index.html@.directive_references[u][j]).directive_name@ == name
                ==> r is Some && r->0.contains((self.index.html@.directive_references[u][j].uri@,
                    span_range(Span {
                        start_line: self.index.html@.directive_references[u][j].start_line,
                        start_col: self.index.html@.directive_references[u][j].start_col,
                        end_line: self.index.html@.directive_references[u][j].end_line,
                        end_col: self.index.html@.directive_references[u][j].end_col,
                    }))),
    {
        let (h, refs) = choose|h: Seq<HtmlDirectiveReference>, refs: Seq<SymbolReference>|
            #![trigger self.index.html.directive_references_are(name, h), self.index.all_references_are(name, refs)]
            self.index.html.directive_references_are(name, h) && self.index.all_references_are(name, refs)
            && r == nonempty((if inc {
                definition_locations(list_at(self.index.definitions.defs(), name).filter(|d: Symbol| d.kind == SymbolKind::Directive || d.kind == SymbolKind::Component))
            } else {
                Seq::empty()
            }) + directive_ref_locations(h) + ref_locations(refs));
        let e = choose|e: Seq<(String, Vec<HtmlDirectiveReference>)>| crate::index::tables::list_snapshot_of(e, self.index.html@.directive_references)
            && h == crate::index::snapshot::flatten(e).filter(crate::index::html_store::directive_named(name));
        let a = (if inc {
                definition_locations(list_at(self.index.definitions.defs(), name).filter(|d: Symbol| d.kind == SymbolKind::Directive || d.kind == SymbolKind::Component))
            } else {
                Seq::empty()
            });
        let all = a + directive_ref_locations(h) + ref_locations(refs);
        assert forall|u: Seq<char>, j: int| self.index.html@.directive_references.contains_key(u)
            && 0 <= j < self.index.html@.directive_references[u].len()
            && (#[trigger] self.index.html@.directive_references[u][j]).directive_name@ == name
            implies r is Some && r->0.contains((self.index.html@.directive_references[u][j].uri@,
                span_range(Span {
                    start_line: self.index.html@.directive_references[u][j].start_line,
                    start_col: self.index.html@.directive_references[u][j].start_col,
                    end_line: self.index.html@.directive_references[u][j].end_line,
                    end_col: self.index.html@.directive_references[u][j].end_col,
                }))) by {
            let x = self.index.html@.directive_references[u][j];
            crate::index::snapshot::lemma_snapshot_flatten_holds(e, self.index.html@.directive_references, u, j);
            let fl = crate::index::snapshot::flatten(e);
            let k = choose|k: int| 0 <= k < fl.len() && fl[k] == x;
            fl.lemma_filter_contains(crate::index::html_store::directive_named(name), k);
            let m = choose|m: int| 0 <= m < h.len() && h[m] == x;
            let loc = (x.uri@, span_range(directive_reference_span(x)));
            assert(directive_ref_locations(h)[m] == loc);
            assert(all[a.len() + m] == loc);
            assert(directive_reference_span(x) == Span { start_line: x.start_line, start_col: x.start_col, end_line: x.end_line, end_col: x.end_col });
        }
    }
}

} // verus!
