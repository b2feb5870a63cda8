//! Go to definition: from a script, the definitions of the symbol at the cursor; from a
//! template, what the resolution at the cursor names.
use vstd::prelude::*;

use crate::index::html_resolve::{cuttable_at, HtmlResolution};
use crate::index::snapshot::list_at;
use crate::index::Index;
use crate::lsp::{location_view, locations_view, Location, Position, Range};
use crate::model::html::{form_name_span, local_variable_name_span};
use crate::model::span::{span_range, Span};
use crate::model::{HtmlDirectiveReference, HtmlNgModelTarget, HtmlUiSrefReference, Symbol, SymbolKind};
use crate::text::{concat, views};
use crate::uri::path_of;
use crate::util::{html_path, is_html_file};

verus! {

/// One location or several.
pub enum DefinitionResponse {
    Scalar(Location),
    Array(Vec<Location>),
}

/// The locations of a response, and whether it is a single one.
pub open spec fn response_view(r: DefinitionResponse) -> (bool, Seq<(Seq<char>, Range)>) {
    match r {
        DefinitionResponse::Scalar(l) => (true, seq![location_view(l)]),
        DefinitionResponse::Array(v) => (false, locations_view(v@)),
    }
}

/// The optional response's view.
pub open spec fn opt_response_view(r: Option<DefinitionResponse>) -> Option<(bool, Seq<(Seq<char>, Range)>)> {
    match r {
        Some(x) => Some(response_view(x)),
        None => None,
    }
}

/// Each definition's document and whole span.
pub open spec fn definition_locations(defs: Seq<Symbol>) -> Seq<(Seq<char>, Range)> {
    defs.map_values(|d: Symbol| (d.uri@, span_range(d.definition_span)))
}

/// Each definition's document and name span.
pub open spec fn name_locations(defs: Seq<Symbol>) -> Seq<(Seq<char>, Range)> {
    defs.map_values(|d: Symbol| (d.uri@, span_range(d.name_span)))
}

/// The response listing `locs`, or none when there are none.
pub open spec fn array_or_none(locs: Seq<(Seq<char>, Range)>) -> Option<(bool, Seq<(Seq<char>, Range)>)> {
    if locs.len() == 0 { None } else { Some((false, locs)) }
}

/// Where in `cs` the first controller `c` with definitions of `c + mid + prop` is.
pub open spec fn first_with_definitions(defs: Map<Seq<char>, Seq<Symbol>>, cs: Seq<Seq<char>>, mid: Seq<char>, prop: Seq<char>) -> Option<int> {
    if exists|k: int| 0 <= k < cs.len() && list_at(defs, #[trigger] cs[k] + mid + prop).len() > 0 {
        Some(choose|k: int| 0 <= k < cs.len() && list_at(defs, #[trigger] cs[k] + mid + prop).len() > 0
            && forall|j: int| 0 <= j < k ==> list_at(defs, #[trigger] cs[j] + mid + prop).len() == 0)
    } else {
        None
    }
}

pub proof fn lemma_first_with_definitions(defs: Map<Seq<char>, Seq<Symbol>>, cs: Seq<Seq<char>>, mid: Seq<char>, prop: Seq<char>, k: int)
    requires
        0 <= k < cs.len(),
        list_at(defs, cs[k] + mid + prop).len() > 0,
        forall|j: int| 0 <= j < k ==> list_at(defs, #[trigger] cs[j] + mid + prop).len() == 0,
    ensures
        first_with_definitions(defs, cs, mid, prop) == Some(k),
{
    let c = choose|x: int| 0 <= x < cs.len() && list_at(defs, #[trigger] cs[x] + mid + prop).len() > 0
        && forall|j: int| 0 <= j < x ==> list_at(defs, #[trigger] cs[j] + mid + prop).len() == 0;
    if c < k {
        assert(list_at(defs, cs[c] + mid + prop).len() == 0);
    }
    if c > k {
        assert(list_at(defs, cs[k] + mid + prop).len() == 0);
    }
}

/// The locations of `defs`, each at its whole span.
fn to_locations(defs: Vec<Symbol>) -> (r: Vec<Location>)
    ensures
        locations_view(r@) == definition_locations(defs@),
{
    let mut r: Vec<Location> = Vec::new();
    let mut i: usize = 0;
    while i < defs.len()
        invariant
            i <= defs@.len(),
            locations_view(r@) == definition_locations(defs@.take(i as int)),
        decreases defs.len() - i,
    {
        let ghost before = r@;
        r.push(Location { uri: defs[i].uri.clone(), range: defs[i].definition_span.to_lsp_range() });
        proof {
            assert(locations_view(r@) =~= locations_view(before).push(location_view(r@.last())));
            assert(definition_locations(defs@.take(i + 1)) =~= definition_locations(defs@.take(i as int)).push(
                (defs@[i as int].uri@, span_range(defs@[i as int].definition_span))));
        }
        i += 1;
    }
    proof { assert(defs@.take(defs@.len() as int) =~= defs@); }
    r
}

/// The definitions of `defs` of kind `k1` or `k2`, in order.
fn keep_kinds(defs: Vec<Symbol>, k1: SymbolKind, k2: SymbolKind) -> (r: Vec<Symbol>)
    ensures
        r@ == defs@.filter(|d: Symbol| d.kind == k1 || d.kind == k2),
{
    let ghost all = defs@;
    let mut rest = defs;
    let mut r: Vec<Symbol> = Vec::new();
    while rest.len() > 0
        invariant
            rest@.len() <= all.len(),
            rest@ == all.skip(all.len() - rest@.len()),
            r@ == all.take(all.len() - rest@.len()).filter(|d: Symbol| d.kind == k1 || d.kind == k2),
        decreases rest.len(),
    {
        let ghost k = all.len() - rest@.len();
        let s = rest.remove(0);
        proof {
            assert(all.take(k + 1).drop_last() =~= all.take(k));
            assert(rest@ =~= all.skip(k + 1));
            reveal_with_fuel(Seq::filter, 1);
        }
        if s.kind == k1 || s.kind == k2 {
            r.push(s);
        }
    }
    proof { assert(all.take(all.len() as int) =~= all); }
    r
}

/// The directive and component definitions of `defs`, in order.
pub fn keep_directives(defs: Vec<Symbol>) -> (r: Vec<Symbol>)
    ensures
        r@ == defs@.filter(|d: Symbol| d.kind == SymbolKind::Directive || d.kind == SymbolKind::Component),
{
    keep_kinds(defs, SymbolKind::Directive, SymbolKind::Component)
}

/// The definitions of `defs` of kind `k`, in order.
pub fn keep_kind(defs: Vec<Symbol>, k: SymbolKind) -> (r: Vec<Symbol>)
    ensures
        r@ == defs@.filter(|d: Symbol| d.kind == k),
{
    let ghost all = defs@;
    let mut rest = defs;
    let mut r: Vec<Symbol> = Vec::new();
    while rest.len() > 0
        invariant
            rest@.len() <= all.len(),
            rest@ == all.skip(all.len() - rest@.len()),
            r@ == all.take(all.len() - rest@.len()).filter(|d: Symbol| d.kind == k),
        decreases rest.len(),
    {
        let ghost j = all.len() - rest@.len();
        let s = rest.remove(0);
        proof {
            assert(all.take(j + 1).drop_last() =~= all.take(j));
            assert(rest@ =~= all.skip(j + 1));
            reveal_with_fuel(Seq::filter, 1);
        }
        if s.kind == k {
            r.push(s);
        }
    }
    proof { assert(all.take(all.len() as int) =~= all); }
    r
}

/// Go to definition over an index.
pub struct DefinitionHandler<'a> {
    pub index: &'a Index,
}

impl<'a> DefinitionHandler<'a> {
    pub fn new(index: &'a Index) -> (r: Self)
        ensures
            r.index == index,
    {
        DefinitionHandler { index }
    }

    /// `t` is the `ng-model` target the controllers `cs` are asked for in turn: the first
    /// one found, or none when none of them has one.
    pub open spec fn ng_target_among(&self, uri: Seq<char>, cs: Seq<Seq<char>>, prop: Seq<char>, t: Option<HtmlNgModelTarget>) -> bool {
        match t {
            Some(x) => exists|k: int| 0 <= k < cs.len() && #[trigger] self.index.ng_model_target_is(uri, cs[k], prop, Some(x))
                && forall|j: int| 0 <= j < k ==> self.index.ng_model_target_is(uri, #[trigger] cs[j], prop, None),
            None => forall|k: int| 0 <= k < cs.len() ==> self.index.ng_model_target_is(uri, #[trigger] cs[k], prop, None),
        }
    }

    /// `r` is where the scope property `prop` of the controllers `cs` is defined: the
    /// definitions of the first controller that defines it on `$scope`, else (`is_alias`)
    /// on `this`; else its `$rootScope` definitions; else the `ng-model` that makes it.
    pub open spec fn scope_definition_is(&self, uri: Seq<char>, cs: Seq<Seq<char>>, prop: Seq<char>, is_alias: bool, r: Option<(bool, Seq<(Seq<char>, Range)>)>) -> bool {
        let defs = self.index.definitions.defs();
        match first_with_definitions(defs, cs, ".$scope."@, prop) {
            Some(k) => r == Some((false, definition_locations(list_at(defs, cs[k] + ".$scope."@ + prop)))),
            None => match (if is_alias { first_with_definitions(defs, cs, "."@, prop) } else { None }) {
                Some(k) => r == Some((false, definition_locations(list_at(defs, cs[k] + "."@ + prop)))),
                None => exists|rs: Seq<Symbol>| #[trigger] self.index.definitions.root_scope_definitions_are(prop, rs) && if rs.len() > 0 {
                    r == Some((false, definition_locations(rs)))
                } else {
                    exists|t: Option<HtmlNgModelTarget>| #[trigger] self.ng_target_among(uri, cs, prop, t) && r == match t {
                        Some(x) => Some((true, seq![(x.uri@, span_range(Span { start_line: x.start_line, start_col: x.start_col, end_line: x.end_line, end_col: x.end_col }))])),
                        None => None,
                    }
                }
            },
        }
    }

    /// `r` is the definition a template resolution `res` leads to.
    pub open spec fn resolution_definition_is(&self, uri: Seq<char>, res: HtmlResolution, r: Option<(bool, Seq<(Seq<char>, Range)>)>) -> bool {
        let defs = self.index.definitions.defs();
        match res {
            HtmlResolution::UiSref(x) => r == array_or_none(name_locations(
                list_at(defs, x.state_name@).filter(|d: Symbol| d.kind == SymbolKind::UiRouterState))),
            HtmlResolution::Directive(x) => r == array_or_none(definition_locations(
                list_at(defs, x.directive_name@).filter(|d: Symbol| d.kind == SymbolKind::Directive || d.kind == SymbolKind::Component))),
            HtmlResolution::LocalVarDef(v) | HtmlResolution::LocalVarRef(v) | HtmlResolution::InheritedLocalVar(v) =>
                r == Some((true, seq![(v.uri@, span_range(local_variable_name_span(v)))])),
            HtmlResolution::FormBindingDef(f) | HtmlResolution::InheritedFormBinding(f) =>
                r == Some((true, seq![(f.uri@, span_range(form_name_span(f)))])),
            HtmlResolution::Scope { controllers, property_path, is_alias } =>
                self.scope_definition_is(uri, views(controllers@), property_path@, is_alias, r),
        }
    }

    /// `r` is what go to definition gives at `position` of `uri` whose text is `source`,
    /// when known: in a template, the definition the resolution there leads to (none
    /// without one); in a script, every definition of the symbol at the cursor, or none.
    pub open spec fn definition_is(&self, uri: Seq<char>, position: Position, source: Option<Seq<char>>, r: Option<(bool, Seq<(Seq<char>, Range)>)>) -> bool {
        let line = position.line as int;
        let col = position.character as int;
        if html_path(path_of(uri)) {
            exists|res: Option<HtmlResolution>| #[trigger] self.index.html_resolution_holds(uri, line, col, source, res) && match res {
                Some(x) => self.resolution_definition_is(uri, x, r),
                None => r is None,
            }
        } else {
            let hits = self.index.definitions.hits_at(uri, line, col);
            if hits.len() == 0 {
                r is None
            } else {
                exists|n: Seq<char>| #[trigger] self.index.definitions.symbol_at_is(uri, line, col, n)
                    && r == array_or_none(definition_locations(list_at(self.index.definitions.defs(), n)))
            }
        }
    }

    /// The definitions the cursor at `position` of `uri` leads to; `source` is the
    /// document's text, when known.
    pub fn goto_definition_with_source(&self, uri: &str, position: Position, source: Option<&str>) -> (r: Option<DefinitionResponse>)
        requires
            match source {
                Some(src) => cuttable_at(src@, position.line as nat, position.character as nat),
                None => true,
            },
            !html_path(path_of(uri@)) ==> self.index.definitions.hits_measurable(uri@, position.line as int, position.character as int),
        ensures
            self.definition_is(uri@, position, match source { Some(s) => Some(s@), None => None }, opt_response_view(r)),
    {
        if is_html_file(uri) {
            return self.goto_definition_from_html(uri, position, source);
        }
        let name = self.index.definitions.find_symbol_at_position(uri, position.line, position.character);
        let symbol_name = match name {
            Some(n) => n,
            None => return None,
        };
        assert(self.index.definitions.symbol_at_is(uri@, position.line as int, position.character as int, symbol_name@));
        let definitions = self.index.definitions.get_definitions(symbol_name.as_str());
        if definitions.len() == 0 {
            return None;
        }
        Some(DefinitionResponse::Array(to_locations(definitions)))
    }

    /// [`Self::goto_definition_with_source`] without the document's text.
    pub fn goto_definition(&self, uri: &str, position: Position) -> (r: Option<DefinitionResponse>)
        requires
            !html_path(path_of(uri@)) ==> self.index.definitions.hits_measurable(uri@, position.line as int, position.character as int),
        ensures
            self.definition_is(uri@, position, None, opt_response_view(r)),
    {
        self.goto_definition_with_source(uri, position, None)
    }

    fn goto_definition_from_html(&self, uri: &str, position: Position, source: Option<&str>) -> (r: Option<DefinitionResponse>)
        requires
            match source {
                Some(src) => cuttable_at(src@, position.line as nat, position.character as nat),
                None => true,
            },
            html_path(path_of(uri@)),
        ensures
            self.definition_is(uri@, position, match source { Some(s) => Some(s@), None => None }, opt_response_view(r)),
    {
        let res = self.index.resolve_html_position(uri, position, source);
        assert(self.index.html_resolution_holds(uri@, position.line as int, position.character as int,
            match source { Some(s) => Some(s@), None => None }, res));
        match res {
            None => None,
            Some(x) => self.definition_for_resolution(uri, x),
        }
    }

    fn definition_for_resolution(&self, uri: &str, res: HtmlResolution) -> (r: Option<DefinitionResponse>)
        ensures
            self.resolution_definition_is(uri@, res, opt_response_view(r)),
    {
        match res {
            HtmlResolution::UiSref(x) => self.build_for_ui_sref(&x),
            HtmlResolution::Directive(x) => self.build_for_directive(&x),
            HtmlResolution::LocalVarDef(v) | HtmlResolution::LocalVarRef(v) | HtmlResolution::InheritedLocalVar(v) => {
                let loc = Location { uri: v.uri.clone(), range: v.name_span().to_lsp_range() };
                let r = Some(DefinitionResponse::Scalar(loc));
                assert(response_view(r->0) == (true, seq![(v.uri@, span_range(local_variable_name_span(v)))]));
                r
            },
            HtmlResolution::FormBindingDef(f) | HtmlResolution::InheritedFormBinding(f) => {
                let loc = Location { uri: f.uri.clone(), range: f.name_span().to_lsp_range() };
                let r = Some(DefinitionResponse::Scalar(loc));
                assert(response_view(r->0) == (true, seq![(f.uri@, span_range(form_name_span(f)))]));
                r
            },
            HtmlResolution::Scope { controllers, property_path, is_alias } =>
                self.build_for_scope(uri, &controllers, property_path.as_str(), is_alias),
        }
    }

    fn build_for_ui_sref(&self, ui_sref: &HtmlUiSrefReference) -> (r: Option<DefinitionResponse>)
        ensures
            opt_response_view(r) == array_or_none(name_locations(list_at(self.index.definitions.defs(), ui_sref.state_name@)
                .filter(|d: Symbol| d.kind == SymbolKind::UiRouterState))),
    {
        let definitions = self.index.definitions.get_definitions(ui_sref.state_name.as_str());
        let state_defs = keep_kind(definitions, SymbolKind::UiRouterState);
        if state_defs.len() == 0 {
            return None;
        }
        let mut r: Vec<Location> = Vec::new();
        let mut i: usize = 0;
        while i < state_defs.len()
            invariant
                i <= state_defs@.len(),
                locations_view(r@) == name_locations(state_defs@.take(i as int)),
            decreases state_defs.len() - i,
        {
            let ghost before = r@;
            r.push(Location { uri: state_defs[i].uri.clone(), range: state_defs[i].name_span.to_lsp_range() });
            proof {
                assert(locations_view(r@) =~= locations_view(before).push(location_view(r@.last())));
                assert(name_locations(state_defs@.take(i + 1)) =~= name_locations(state_defs@.take(i as int)).push(
                    (state_defs@[i as int].uri@, span_range(state_defs@[i as int].name_span))));
            }
            i += 1;
        }
        proof { assert(state_defs@.take(state_defs@.len() as int) =~= state_defs@); }
        Some(DefinitionResponse::Array(r))
    }

    fn build_for_directive(&self, directive_ref: &HtmlDirectiveReference) -> (r: Option<DefinitionResponse>)
        ensures
            opt_response_view(r) == array_or_none(definition_locations(list_at(self.index.definitions.defs(), directive_ref.directive_name@)
                .filter(|d: Symbol| d.kind == SymbolKind::Directive || d.kind == SymbolKind::Component))),
    {
        let definitions = self.index.definitions.get_definitions(directive_ref.directive_name.as_str());
        let directive_defs = keep_directives(definitions);
        if directive_defs.len() == 0 {
            return None;
        }
        Some(DefinitionResponse::Array(to_locations(directive_defs)))
    }

    /// The first of `controllers` with definitions of `c + mid + prop`.
    fn first_with_definitions_exec(&self, controllers: &Vec<String>, mid: &str, prop: &str) -> (r: Option<(usize, Vec<Symbol>)>)
        ensures
            match r {
                Some((k, defs)) => k < controllers@.len()
                    && first_with_definitions(self.index.definitions.defs(), views(controllers@), mid@, prop@) == Some(k as int)
                    && defs@ == list_at(self.index.definitions.defs(), views(controllers@)[k as int] + mid@ + prop@),
                None => first_with_definitions(self.index.definitions.defs(), views(controllers@), mid@, prop@) is None,
            },
    {
        let ghost cs = views(controllers@);
        let ghost defs = self.index.definitions.defs();
        let mut k: usize = 0;
        while k < controllers.len()
            invariant
                k <= controllers@.len(),
                cs == views(controllers@),
                defs == self.index.definitions.defs(),
                forall|j: int| 0 <= j < k ==> list_at(defs, #[trigger] cs[j] + mid@ + prop@).len() == 0,
            decreases controllers.len() - k,
        {
            let name = concat(concat(controllers[k].as_str(), mid).as_str(), prop);
            assert(name@ == cs[k as int] + mid@ + prop@);
            let found = self.index.definitions.get_definitions(name.as_str());
            if found.len() > 0 {
                proof { lemma_first_with_definitions(defs, cs, mid@, prop@, k as int); }
                return Some((k, found));
            }
            k += 1;
        }
        None
    }

    fn ng_target_among_exec(&self, uri: &str, controllers: &Vec<String>, prop: &str) -> (t: Option<HtmlNgModelTarget>)
        ensures
            self.ng_target_among(uri@, views(controllers@), prop@, t),
    {
        let ghost cs = views(controllers@);
        let mut k: usize = 0;
        while k < controllers.len()
            invariant
                k <= controllers@.len(),
                cs == views(controllers@),
                forall|j: int| 0 <= j < k ==> self.index.ng_model_target_is(uri@, #[trigger] cs[j], prop@, None),
            decreases controllers.len() - k,
        {
            assert(cs[k as int] == controllers@[k as int]@);
            let t = self.index.find_ng_model_implicit_def_target(uri, controllers[k].as_str(), prop);
            match t {
                Some(x) => {
                    assert(self.index.ng_model_target_is(uri@, cs[k as int], prop@, Some(x)));
                    return Some(x);
                },
                None => {},
            }
            k += 1;
        }
        None
    }

    /// Where the scope property `property_path` of `controllers` is defined; see
    /// [`Self::scope_definition_is`].
    fn build_for_scope(&self, uri: &str, controllers: &Vec<String>, property_path: &str, is_alias: bool) -> (r: Option<DefinitionResponse>)
        ensures
            self.scope_definition_is(uri@, views(controllers@), property_path@, is_alias, opt_response_view(r)),
    {
        let f1 = self.first_with_definitions_exec(controllers, ".$scope.", property_path);
        match f1 {
            Some((_, defs)) => {
                return Some(DefinitionResponse::Array(to_locations(defs)));
            },
            None => {},
        }
        if is_alias {
            let f2 = self.first_with_definitions_exec(controllers, ".", property_path);
            match f2 {
                Some((_, defs)) => {
                    return Some(DefinitionResponse::Array(to_locations(defs)));
                },
                None => {},
            }
        }
        let rs = self.index.definitions.find_root_scope_definitions_by_property(property_path);
        assert(self.index.definitions.root_scope_definitions_are(property_path@, rs@));
        if rs.len() > 0 {
            return Some(DefinitionResponse::Array(to_locations(rs)));
        }
        let t = self.ng_target_among_exec(uri, controllers, property_path);
        match t {
            Some(x) => {
                let loc = Location { uri: x.uri.clone(), range: x.span().to_lsp_range() };
                Some(DefinitionResponse::Scalar(loc))
            },
            None => None,
        }
    }
}

} // verus!
