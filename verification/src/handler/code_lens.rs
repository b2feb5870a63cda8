//! Code lenses: above a controller the templates it drives; atop a template what
//! includes, binds and drives it; at an include the template it includes.
use vstd::prelude::*;

use crate::index::snapshot::list_at;
use crate::index::Index;
use crate::lsp::{locations_view, Location, Position, Range};
use crate::model::{BindingSource, ComponentTemplateUrl, HtmlControllerScope, Symbol, SymbolKind, TemplateBinding};
use crate::text::{after_last, concat, ends_with, occurs, str_after_last, views};
use crate::uri::{path_of, uri_path};
use crate::util::{html_path, is_html_file, is_js_file};

verus! {

/// The command a lens runs to open its locations.
pub const OPEN_LOCATION_COMMAND: &'static str = "angularjs.openLocation";

/// A lens: a title at the start of a line, and the places its command opens.
pub struct CodeLens {
    pub line: u32,
    pub title: String,
    /// [`OPEN_LOCATION_COMMAND`], or empty when there is nothing to open.
    pub command: String,
    pub locations: Vec<Location>,
}

/// A lens as its line, title, command and locations.
pub type LensView = (u32, Seq<char>, Seq<char>, Seq<(Seq<char>, Range)>);

pub open spec fn lens_view(l: CodeLens) -> LensView {
    (l.line, l.title@, l.command@, locations_view(l.locations@))
}

pub open spec fn lenses_view(ls: Seq<CodeLens>) -> Seq<LensView> {
    ls.map_values(|l: CodeLens| lens_view(l))
}

/// The empty range at `(line, col)` of `uri`.
pub open spec fn point(uri: Seq<char>, line: u32, col: u32) -> (Seq<char>, Range) {
    (uri, Range { start: Position { line, character: col }, end: Position { line, character: col } })
}

/// A lens at `line` opening `locs`; when there are none, one that opens nothing and
/// adds `missing` to its title.
pub open spec fn lens_of(line: u32, title: Seq<char>, missing: Seq<char>, locs: Seq<(Seq<char>, Range)>) -> LensView {
    if locs.len() == 0 {
        (line, title + missing, Seq::empty(), Seq::empty())
    } else {
        (line, title, OPEN_LOCATION_COMMAND@, locs)
    }
}

/// The start of each definition of `ds`.
pub open spec fn definition_points(ds: Seq<Symbol>) -> Seq<(Seq<char>, Range)> {
    ds.map_values(|d: Symbol| point(d.uri@, d.definition_span.start_line, d.definition_span.start_col))
}

/// The single point of an optional document's start.
pub open spec fn start_of(u: Option<Seq<char>>) -> Seq<(Seq<char>, Range)> {
    match u {
        Some(x) => seq![point(x, 0, 0)],
        None => Seq::empty(),
    }
}

/// `names` separated by `, `.
pub open spec fn comma_joined(names: Seq<Seq<char>>) -> Seq<char>
    decreases names.len(),
{
    if names.len() == 0 {
        Seq::empty()
    } else if names.len() == 1 {
        names[0]
    } else {
        comma_joined(names.drop_last()) + ", "@ + names.last()
    }
}

/// The documents of `us` that are present, in order.
pub open spec fn present_documents(us: Seq<Option<Seq<char>>>) -> Seq<Seq<char>>
    decreases us.len(),
{
    if us.len() == 0 {
        Seq::empty()
    } else {
        match us.last() {
            Some(u) => present_documents(us.drop_last()).push(u),
            None => present_documents(us.drop_last()),
        }
    }
}

/// How a lens names where a binding comes from.
pub open spec fn source_label(s: BindingSource) -> Seq<char> {
    match s {
        BindingSource::RouteProvider => "$routeProvider"@,
        BindingSource::StateProvider => "$stateProvider"@,
        BindingSource::UibModal => "$uibModal"@,
        BindingSource::NgController => "ng-controller"@,
    }
}

/// `Source: Controller` at `line`, opening the controller's definitions.
pub open spec fn controller_lens(defs: Map<Seq<char>, Seq<Symbol>>, name: Seq<char>, line: u32, source: Seq<char>) -> LensView {
    lens_of(line, source + ": "@ + name, " (not found)"@, definition_points(list_at(defs, name)))
}

/// `Template: a.html` (or `Templates: a.html, b.html`) at `line`, opening the templates
/// of `templates` that resolve (`res`).
pub open spec fn template_lens(line: u32, templates: Seq<Seq<char>>, res: Seq<Option<Seq<char>>>) -> LensView {
    let names = templates.map_values(|t: Seq<char>| after_last(t, '/'));
    let title = if names.len() == 1 { "Template: "@ + names[0] } else { "Templates: "@ + comma_joined(names) };
    lens_of(line, title, " (not resolved)"@, present_documents(res).map_values(|u: Seq<char>| point(u, 0, 0)))
}

/// `Included by: a.html, b.html` atop the template, opening each include.
pub open spec fn included_by_lens(parents: Seq<(Seq<char>, u32)>) -> LensView {
    let names = parents.map_values(|p: (Seq<char>, u32)| after_last(path_of(p.0), '/'));
    let title = if names.len() == 1 { "Included by: "@ + names[0] } else { "Included by: "@ + comma_joined(names) };
    (0, title, OPEN_LOCATION_COMMAND@, parents.map_values(|p: (Seq<char>, u32)| point(p.0, p.1, 0)))
}

/// `Bound from: $routeProvider in app.js` atop the template, opening the binding.
pub open spec fn bound_from_lens(source: BindingSource, js_uri: Seq<char>, js_line: u32) -> LensView {
    (0, "Bound from: "@ + source_label(source) + " in "@ + after_last(path_of(js_uri), '/'), OPEN_LOCATION_COMMAND@,
        seq![point(js_uri, js_line, 0)])
}

/// `ng-include: part.html` at the include's line, opening the included template.
pub open spec fn ng_include_lens(line: u32, path: Seq<char>, resolved: Option<Seq<char>>) -> LensView {
    lens_of(line, "ng-include: "@ + after_last(path, '/'), " (not found)"@, start_of(resolved))
}

/// `$routeProvider: a.html -> MainCtrl` at the binding's line, opening the template
/// (when it resolves to `res`) and the controller's definitions.
pub open spec fn binding_lens(defs: Map<Seq<char>, Seq<Symbol>>, b: TemplateBinding, res: Option<Seq<char>>) -> LensView {
    lens_of(b.binding_line, source_label(b.source) + ": "@ + after_last(b.template_path@, '/') + " -> "@ + b.controller_name@,
        " (not resolved)"@, start_of(res) + definition_points(list_at(defs, b.controller_name@)))
}

/// `Component: Ctrl (as $ctrl)` atop a component's template, opening the controller's
/// definitions, or the component itself for an inline controller.
pub open spec fn component_controller_lens(defs: Map<Seq<char>, Seq<Symbol>>, b: ComponentTemplateUrl) -> LensView {
    let display = match b.controller_name {
        Some(c) => c@,
        None => "(inline)"@,
    };
    let title = "Component: "@ + display + " (as "@ + b.controller_as@ + ")"@;
    match b.controller_name {
        Some(c) => lens_of(0, title, " (not found)"@, definition_points(list_at(defs, c@))),
        None => (0, title, OPEN_LOCATION_COMMAND@, seq![point(b.uri@, b.line, b.col)]),
    }
}

/// `Open template: a.html` at a component's `templateUrl`, opening the template when it
/// resolves to `res`.
pub open spec fn component_template_url_lens(t: ComponentTemplateUrl, res: Option<Seq<char>>) -> LensView {
    lens_of(t.line, "Open template: "@ + after_last(t.template_path@, '/'), " (not found)"@, start_of(res))
}

fn lens(line: u32, title: String, missing: &str, locations: Vec<Location>) -> (r: CodeLens)
    ensures
        lens_view(r) == lens_of(line, title@, missing@, locations_view(locations@)),
{
    if locations.len() == 0 {
        let t = concat(&title, missing);
        proof { assert(locations_view(Seq::<Location>::empty()) =~= Seq::empty()); }
        CodeLens { line, title: t, command: String::new(), locations: Vec::new() }
    } else {
        CodeLens { line, title, command: OPEN_LOCATION_COMMAND.to_owned(), locations }
    }
}

fn point_at(uri: String, line: u32, col: u32) -> (r: Location)
    ensures
        (r.uri@, r.range) == point(uri@, line, col),
{
    Location { uri, range: Range { start: Position { line, character: col }, end: Position { line, character: col } } }
}

fn definition_locations(ds: &Vec<Symbol>) -> (r: Vec<Location>)
    ensures
        locations_view(r@) == definition_points(ds@),
{
    let mut r: Vec<Location> = Vec::new();
    let mut i: usize = 0;
    while i < ds.len()
        invariant
            i <= ds@.len(),
            locations_view(r@) == definition_points(ds@.take(i as int)),
        decreases ds.len() - i,
    {
        let d = &ds[i];
        let l = point_at(d.uri.clone(), d.definition_span.start_line, d.definition_span.start_col);
        let ghost before = r@;
        r.push(l);
        proof {
            assert(ds@.take(i + 1) =~= ds@.take(i as int).push(ds@[i as int]));
            assert(locations_view(r@) =~= locations_view(before).push((l.uri@, l.range)));
            assert(definition_points(ds@.take(i + 1)) =~= definition_points(ds@.take(i as int)).push(
                point(ds@[i as int].uri@, ds@[i as int].definition_span.start_line, ds@[i as int].definition_span.start_col)));
        }
        i += 1;
    }
    proof { assert(ds@.take(ds@.len() as int) =~= ds@); }
    r
}

fn start_locations(u: Option<String>) -> (r: Vec<Location>)
    ensures
        locations_view(r@) == start_of(match u { Some(x) => Some(x@), None => None }),
{
    let mut r: Vec<Location> = Vec::new();
    match u {
        Some(x) => {
            let l = point_at(x, 0, 0);
            r.push(l);
            proof { assert(locations_view(r@) =~= seq![(l.uri@, l.range)]); }
        },
        None => {
            proof { assert(locations_view(r@) =~= Seq::empty()); }
        },
    }
    r
}

pub(crate) fn joined_names(names: &Vec<String>) -> (r: String)
    ensures
        r@ == comma_joined(views(names@)),
{
    let mut r = String::new();
    let mut i: usize = 0;
    while i < names.len()
        invariant
            i <= names@.len(),
            r@ == comma_joined(views(names@.take(i as int))),
        decreases names.len() - i,
    {
        let ghost v = views(names@.take(i + 1));
        proof {
            assert(v =~= views(names@.take(i as int)).push(names@[i as int]@));
            assert(v.drop_last() =~= views(names@.take(i as int)));
        }
        if i == 0 {
            r = names[0].clone();
            proof { assert(comma_joined(v) == v[0]); }
        } else {
            let t = concat(&r, ", ");
            r = concat(&t, &names[i]);
            proof { assert(comma_joined(v) == comma_joined(v.drop_last()) + ", "@ + v.last()); }
        }
        i += 1;
    }
    proof { assert(names@.take(names@.len() as int) =~= names@); }
    r
}

fn source_label_str(s: BindingSource) -> (r: &'static str)
    ensures
        r@ == source_label(s),
{
    match s {
        BindingSource::RouteProvider => "$routeProvider",
        BindingSource::StateProvider => "$stateProvider",
        BindingSource::UibModal => "$uibModal",
        BindingSource::NgController => "ng-controller",
    }
}


/// The lenses over the includers `ps` of a template: one `Included by` lens for those
/// that are not the internal parent of `ng-view` templates, when there are any.
pub open spec fn parents_lenses(ps: Seq<(Seq<char>, u32)>) -> Seq<LensView> {
    let f = ps.filter(|p: (Seq<char>, u32)| !occurs(path_of(p.0), "ng-view-virtual-parent"@));
    if f.len() > 0 { seq![included_by_lens(f)] } else { Seq::empty() }
}

/// The lenses of the bindings `bs` of a template, with the scripts and controllers seen
/// so far: for each binding, a `Bound from` lens the first time its script comes and a
/// `Binded` controller lens the first time its controller comes.
pub open spec fn binding_fold(defs: Map<Seq<char>, Seq<Symbol>>, bs: Seq<(Seq<char>, BindingSource, Seq<char>, u32)>) -> (Seq<LensView>, Seq<Seq<char>>, Seq<Seq<char>>)
    decreases bs.len(),
{
    if bs.len() == 0 {
        (Seq::empty(), Seq::empty(), Seq::empty())
    } else {
        let prev = binding_fold(defs, bs.drop_last());
        let b = bs.last();
        let l1 = if prev.1.contains(b.2) { prev.0 } else { prev.0.push(bound_from_lens(b.1, b.2, b.3)) };
        let l2 = if prev.2.contains(b.0) { l1 } else { l1.push(controller_lens(defs, b.0, 0, "Binded"@)) };
        (l2, if prev.1.contains(b.2) { prev.1 } else { prev.1.push(b.2) }, if prev.2.contains(b.0) { prev.2 } else { prev.2.push(b.0) })
    }
}

/// The template lenses of the controllers among `syms`, whose template paths are `tss`
/// and resolutions `ress`: one for each controller with templates, at its name's line.
pub open spec fn controller_lenses(syms: Seq<Symbol>, tss: Seq<Seq<Seq<char>>>, ress: Seq<Seq<Option<Seq<char>>>>) -> Seq<LensView>
    decreases syms.len(),
{
    if syms.len() == 0 {
        Seq::empty()
    } else {
        let p = controller_lenses(syms.drop_last(), tss, ress);
        let k = syms.len() - 1;
        let s = syms[k];
        if s.kind == SymbolKind::Controller && tss[k].len() > 0 {
            p.push(template_lens(s.name_span.start_line, tss[k], ress[k]))
        } else {
            p
        }
    }
}

/// Lenses over an index.
pub struct CodeLensHandler<'a> {
    pub index: &'a Index,
}

impl<'a> CodeLensHandler<'a> {
    pub fn new(index: &'a Index) -> (r: Self)
        ensures
            r.index == index,
    {
        CodeLensHandler { index }
    }

    /// `res` is what each template path of `ts` resolves to.
    pub open spec fn resolutions_are(&self, ts: Seq<Seq<char>>, res: Seq<Option<Seq<char>>>) -> bool {
        res.len() == ts.len() && forall|i: int| 0 <= i < ts.len() ==> #[trigger] self.index.template_uri_is(ts[i], res[i])
    }

    /// `l` is the `Included by` lens of the template `uri`.
    pub open spec fn parents_part(&self, uri: Seq<char>, l: Seq<LensView>) -> bool {
        exists|ps: Seq<(Seq<char>, u32)>| #[trigger] self.index.templates.parents_are(uri, ps) && l == parents_lenses(ps)
    }

    /// `l` is the binding lenses of the template `uri`.
    pub open spec fn bindings_part(&self, uri: Seq<char>, l: Seq<LensView>) -> bool {
        exists|bs: Seq<(Seq<char>, BindingSource, Seq<char>, u32)>| #[trigger] self.index.templates.binding_sources_are(uri, bs)
            && l == binding_fold(self.index.definitions.defs(), bs).0
    }

    /// `l` is the component lens of the template `uri`.
    pub open spec fn component_part(&self, uri: Seq<char>, l: Seq<LensView>) -> bool {
        exists|b: Option<ComponentTemplateUrl>| #[trigger] self.index.components.binding_for_template_is(uri, b)
            && l == match b {
                Some(x) => seq![component_controller_lens(self.index.definitions.defs(), x)],
                None => Seq::empty(),
            }
    }

    /// `l` is the `Inherited` controller lenses of the template `uri`.
    pub open spec fn inherited_part(&self, uri: Seq<char>, l: Seq<LensView>) -> bool {
        exists|cs: Seq<Seq<char>>| #[trigger] self.index.templates.inherited_controllers_are(uri, cs)
            && l == cs.map_values(|c: Seq<char>| controller_lens(self.index.definitions.defs(), c, 0, "Inherited"@))
    }

    /// The `ng-controller` lenses of the template scopes of `uri`.
    pub open spec fn scopes_part(&self, uri: Seq<char>) -> Seq<LensView> {
        list_at(self.index.controllers.html_scopes(), uri).map_values(|s: HtmlControllerScope|
            controller_lens(self.index.definitions.defs(), s.controller_name@, s.start_line, "ng-controller"@))
    }

    /// `l` is the `ng-include` lenses of the template `uri`.
    pub open spec fn includes_part(&self, uri: Seq<char>, l: Seq<LensView>) -> bool {
        exists|is: Seq<(u32, Seq<char>, Option<Seq<char>>)>| #[trigger] self.index.templates.includes_in_are(uri, is)
            && l == is.map_values(|t: (u32, Seq<char>, Option<Seq<char>>)| ng_include_lens(t.0, t.1, t.2))
    }

    /// `l` is the template lenses of the controllers `uri` defines.
    pub open spec fn controllers_part(&self, uri: Seq<char>, l: Seq<LensView>) -> bool {
        exists|syms: Seq<Symbol>, tss: Seq<Seq<Seq<char>>>, ress: Seq<Seq<Option<Seq<char>>>>|
            #![trigger self.index.document_symbols_are(uri, syms), controller_lenses(syms, tss, ress)]
            self.index.document_symbols_are(uri, syms) && tss.len() == syms.len() && ress.len() == syms.len()
            && (forall|i: int| 0 <= i < syms.len() && syms[i].kind == SymbolKind::Controller
                ==> #[trigger] self.index.templates_for_controller_are(syms[i].name@, tss[i]))
            && (forall|i: int| 0 <= i < syms.len() && syms[i].kind == SymbolKind::Controller && tss[i].len() > 0
                ==> #[trigger] self.resolutions_are(tss[i], ress[i]))
            && l == controller_lenses(syms, tss, ress)
    }

    /// `l` is the binding lenses of the bindings the script `uri` declares.
    pub open spec fn script_bindings_part(&self, uri: Seq<char>, l: Seq<LensView>) -> bool {
        exists|bs: Seq<TemplateBinding>, res: Seq<Option<Seq<char>>>|
            #![trigger self.index.templates.script_bindings_are(uri, bs), self.resolutions_are(binding_paths(bs), res)]
            self.index.templates.script_bindings_are(uri, bs)
            && self.resolutions_are(binding_paths(bs), res)
            && l == Seq::new(bs.len(), |i: int| binding_lens(self.index.definitions.defs(), bs[i], res[i]))
    }

    /// `l` is the `Open template` lenses of the components `uri` declares.
    pub open spec fn template_urls_part(&self, uri: Seq<char>, l: Seq<LensView>) -> bool {
        let urls = list_at(self.index.components.urls(), uri);
        exists|res: Seq<Option<Seq<char>>>| #[trigger] self.resolutions_are(url_paths(urls), res)
            && l == Seq::new(urls.len(), |i: int| component_template_url_lens(urls[i], res[i]))
    }

    /// `parts` is the lenses of the template `uri`, in order: who includes it, how it is
    /// bound, its component, inherited controllers, `ng-controller` scopes, includes, and
    /// the controllers and bindings of its own scripts.
    pub open spec fn html_parts(&self, uri: Seq<char>, parts: Seq<Seq<LensView>>) -> bool {
        &&& parts.len() == 8
        &&& self.parents_part(uri, parts[0])
        &&& self.bindings_part(uri, parts[1])
        &&& self.component_part(uri, parts[2])
        &&& self.inherited_part(uri, parts[3])
        &&& parts[4] == self.scopes_part(uri)
        &&& self.includes_part(uri, parts[5])
        &&& self.controllers_part(uri, parts[6])
        &&& self.script_bindings_part(uri, parts[7])
    }

    /// `parts` is the lenses of the script `uri`, in order: its controllers' templates,
    /// its bindings and its components' templates.
    pub open spec fn js_parts(&self, uri: Seq<char>, parts: Seq<Seq<LensView>>) -> bool {
        &&& parts.len() == 3
        &&& self.controllers_part(uri, parts[0])
        &&& self.script_bindings_part(uri, parts[1])
        &&& self.template_urls_part(uri, parts[2])
    }

    /// `r` is the lenses of `uri`: all the parts, or none when there are no lenses; none
    /// for a document that is neither a template nor a script.
    pub open spec fn lenses_are(&self, uri: Seq<char>, r: Option<Seq<LensView>>) -> bool {
        if html_path(path_of(uri)) {
            exists|parts: Seq<Seq<LensView>>| #[trigger] self.html_parts(uri, parts) && r == nonempty_lenses(all_parts(parts))
        } else if ends_with(path_of(uri), ".js"@) {
            exists|parts: Seq<Seq<LensView>>| #[trigger] self.js_parts(uri, parts) && r == nonempty_lenses(all_parts(parts))
        } else {
            r is None
        }
    }
}

/// The template paths of the bindings `bs`.
pub open spec fn binding_paths(bs: Seq<TemplateBinding>) -> Seq<Seq<char>> {
    bs.map_values(|b: TemplateBinding| b.template_path@)
}

/// The template paths of the component template URLs `urls`.
pub open spec fn url_paths(urls: Seq<ComponentTemplateUrl>) -> Seq<Seq<char>> {
    urls.map_values(|t: ComponentTemplateUrl| t.template_path@)
}

/// The parts one after another.
pub open spec fn all_parts(parts: Seq<Seq<LensView>>) -> Seq<LensView>
    decreases parts.len(),
{
    if parts.len() == 0 { Seq::empty() } else { all_parts(parts.drop_last()) + parts.last() }
}

/// The lenses, or none when there are none.
pub open spec fn nonempty_lenses(l: Seq<LensView>) -> Option<Seq<LensView>> {
    if l.len() == 0 { None } else { Some(l) }
}

impl<'a> CodeLensHandler<'a> {
    fn create_controller_lens(&self, controller_name: &str, line: u32, source: &str) -> (r: CodeLens)
        ensures
            lens_view(r) == controller_lens(self.index.definitions.defs(), controller_name@, line, source@),
    {
        let defs = self.index.definitions.get_definitions(controller_name);
        let t = concat(&concat(source, ": "), controller_name);
        lens(line, t, " (not found)", definition_locations(&defs))
    }

    /// The resolutions of `templates`, and where the resolved ones start.
    fn resolve_all(&self, templates: &Vec<String>) -> (r: Vec<Location>)
        ensures
            exists|res: Seq<Option<Seq<char>>>| #[trigger] self.resolutions_are(views(templates@), res)
                && locations_view(r@) == present_documents(res).map_values(|u: Seq<char>| point(u, 0, 0)),
    {
        let ghost ts = views(templates@);
        let ghost mut res: Seq<Option<Seq<char>>> = Seq::empty();
        let mut r: Vec<Location> = Vec::new();
        let mut i: usize = 0;
        while i < templates.len()
            invariant
                i <= templates@.len(),
                ts == views(templates@),
                res.len() == i,
                forall|k: int| 0 <= k < i ==> #[trigger] self.index.template_uri_is(ts[k], res[k]),
                locations_view(r@) == present_documents(res).map_values(|u: Seq<char>| point(u, 0, 0)),
            decreases templates.len() - i,
        {
            let u = self.index.resolve_template_uri(&templates[i]);
            let ghost uv = crate::index::query::opt_view(u);
            let ghost before = r@;
            let ghost res0 = res;
            proof {
                assert(ts[i as int] == templates@[i as int]@);
                res = res.push(uv);
                assert(res.drop_last() =~= res0);
            }
            match u {
                Some(x) => {
                    let l = point_at(x, 0, 0);
                    r.push(l);
                    proof {
                        assert(locations_view(r@) =~= locations_view(before).push((l.uri@, l.range)));
                        assert(present_documents(res) =~= present_documents(res0).push(uv->0));
                        assert(present_documents(res).map_values(|u: Seq<char>| point(u, 0, 0)) =~=
                            present_documents(res0).map_values(|u: Seq<char>| point(u, 0, 0)).push(point(uv->0, 0, 0)));
                    }
                },
                None => {
                    proof { assert(present_documents(res) =~= present_documents(res0)); }
                },
            }
            i += 1;
        }
        proof { assert(self.resolutions_are(ts, res)); }
        r
    }

    fn create_template_lens(&self, line: u32, templates: &Vec<String>) -> (r: CodeLens)
        ensures
            exists|res: Seq<Option<Seq<char>>>| #[trigger] self.resolutions_are(views(templates@), res)
                && lens_view(r) == template_lens(line, views(templates@), res),
    {
        let names = file_names(templates);
        let title = if names.len() == 1 {
            concat("Template: ", &names[0])
        } else {
            concat("Templates: ", &joined_names(&names))
        };
        let locations = self.resolve_all(templates);
        let ghost res = choose|res: Seq<Option<Seq<char>>>| self.resolutions_are(views(templates@), res)
            && locations_view(locations@) == present_documents(res).map_values(|u: Seq<char>| point(u, 0, 0));
        proof {
            if names@.len() == 1 {
                assert(views(names@)[0] == names@[0]@);
            }
        }
        let r = lens(line, title, " (not resolved)", locations);
        assert(lens_view(r) == template_lens(line, views(templates@), res));
        r
    }

    fn create_included_by_lens(&self, parents: &Vec<(String, u32)>) -> (r: CodeLens)
        ensures
            lens_view(r) == included_by_lens(parents@.map_values(|p: (String, u32)| (p.0@, p.1))),
    {
        let ghost pv = parents@.map_values(|p: (String, u32)| (p.0@, p.1));
        let mut names: Vec<String> = Vec::new();
        let mut locations: Vec<Location> = Vec::new();
        let mut i: usize = 0;
        while i < parents.len()
            invariant
                i <= parents@.len(),
                pv == parents@.map_values(|p: (String, u32)| (p.0@, p.1)),
                views(names@) == pv.take(i as int).map_values(|p: (Seq<char>, u32)| after_last(path_of(p.0), '/')),
                locations_view(locations@) == pv.take(i as int).map_values(|p: (Seq<char>, u32)| point(p.0, p.1, 0)),
            decreases parents.len() - i,
        {
            let n = str_after_last(&uri_path(&parents[i].0), '/');
            let l = point_at(parents[i].0.clone(), parents[i].1, 0);
            let ghost nb = names@;
            let ghost lb = locations@;
            names.push(n);
            locations.push(l);
            proof {
                assert(pv.take(i + 1) =~= pv.take(i as int).push(pv[i as int]));
                assert(views(names@) =~= views(nb).push(n@));
                assert(locations_view(locations@) =~= locations_view(lb).push((l.uri@, l.range)));
            }
            i += 1;
        }
        proof { assert(pv.take(parents@.len() as int) =~= pv); }
        let title = if names.len() == 1 {
            concat("Included by: ", &names[0])
        } else {
            concat("Included by: ", &joined_names(&names))
        };
        proof {
            if names@.len() == 1 {
                assert(views(names@)[0] == names@[0]@);
            }
        }
        CodeLens { line: 0, title, command: OPEN_LOCATION_COMMAND.to_owned(), locations }
    }

    fn create_bound_from_lens(&self, source: BindingSource, js_uri: &String, js_line: u32) -> (r: CodeLens)
        ensures
            lens_view(r) == bound_from_lens(source, js_uri@, js_line),
    {
        let file = str_after_last(&uri_path(js_uri), '/');
        let t1 = concat("Bound from: ", source_label_str(source));
        let t2 = concat(&t1, " in ");
        let title = concat(&t2, &file);
        let l = point_at(js_uri.clone(), js_line, 0);
        let mut locations: Vec<Location> = Vec::new();
        locations.push(l);
        proof { assert(locations_view(locations@) =~= seq![(l.uri@, l.range)]); }
        CodeLens { line: 0, title, command: OPEN_LOCATION_COMMAND.to_owned(), locations }
    }

    fn create_ng_include_lens(&self, line: u32, template_path: &String, resolved: Option<String>) -> (r: CodeLens)
        ensures
            lens_view(r) == ng_include_lens(line, template_path@, crate::index::query::opt_view(resolved)),
    {
        let file = str_after_last(template_path, '/');
        let title = concat("ng-include: ", &file);
        let ghost rv = crate::index::query::opt_view(resolved);
        let locations = start_locations(resolved);
        lens(line, title, " (not found)", locations)
    }

    fn create_binding_lens(&self, b: &TemplateBinding) -> (r: CodeLens)
        ensures
            exists|res: Option<Seq<char>>| #[trigger] self.index.template_uri_is(b.template_path@, res)
                && lens_view(r) == binding_lens(self.index.definitions.defs(), *b, res),
    {
        let file = str_after_last(&b.template_path, '/');
        let t1 = concat(source_label_str(b.source), ": ");
        let t2 = concat(&t1, &file);
        let t3 = concat(&t2, " -> ");
        let title = concat(&t3, &b.controller_name);
        let u = self.index.resolve_template_uri(&b.template_path);
        let ghost uv = crate::index::query::opt_view(u);
        let mut locations = start_locations(u);
        let defs = self.index.definitions.get_definitions(&b.controller_name);
        let mut more = definition_locations(&defs);
        let ghost a = locations@;
        let ghost m = more@;
        locations.append(&mut more);
        proof { assert(locations_view(locations@) =~= locations_view(a) + locations_view(m)); }
        let r = lens(b.binding_line, title, " (not resolved)", locations);
        assert(lens_view(r) == binding_lens(self.index.definitions.defs(), *b, uv));
        r
    }

    fn create_component_controller_lens(&self, b: &ComponentTemplateUrl) -> (r: CodeLens)
        ensures
            lens_view(r) == component_controller_lens(self.index.definitions.defs(), *b),
    {
        let display = match &b.controller_name {
            Some(c) => c.clone(),
            None => "(inline)".to_owned(),
        };
        let t1 = concat("Component: ", &display);
        let t2 = concat(&t1, " (as ");
        let t3 = concat(&t2, &b.controller_as);
        let title = concat(&t3, ")");
        match &b.controller_name {
            Some(c) => {
                let defs = self.index.definitions.get_definitions(c);
                lens(0, title, " (not found)", definition_locations(&defs))
            },
            None => {
                let l = point_at(b.uri.clone(), b.line, b.col);
                let mut locations: Vec<Location> = Vec::new();
                locations.push(l);
                proof { assert(locations_view(locations@) =~= seq![(l.uri@, l.range)]); }
                CodeLens { line: 0, title, command: OPEN_LOCATION_COMMAND.to_owned(), locations }
            },
        }
    }

    fn create_component_template_url_lens(&self, t: &ComponentTemplateUrl) -> (r: CodeLens)
        ensures
            exists|res: Option<Seq<char>>| #[trigger] self.index.template_uri_is(t.template_path@, res)
                && lens_view(r) == component_template_url_lens(*t, res),
    {
        let file = str_after_last(&t.template_path, '/');
        let title = concat("Open template: ", &file);
        let u = self.index.resolve_template_uri(&t.template_path);
        let ghost uv = crate::index::query::opt_view(u);
        let locations = start_locations(u);
        let r = lens(t.line, title, " (not found)", locations);
        assert(lens_view(r) == component_template_url_lens(*t, uv));
        r
    }
}

impl<'a> CodeLensHandler<'a> {
    fn parents_lenses_exec(&self, uri: &str) -> (r: Vec<CodeLens>)
        ensures
            self.parents_part(uri@, lenses_view(r@)),
    {
        let ps = self.index.templates.get_parent_templates_for_child(uri);
        let ghost pv = ps@.map_values(|p: (String, u32)| (p.0@, p.1));
        let ghost all = ps@;
        let mut rest = ps;
        let mut kept: Vec<(String, u32)> = Vec::new();
        while rest.len() > 0
            invariant
                rest@.len() <= all.len(),
                rest@ == all.skip(all.len() - rest@.len()),
                pv == all.map_values(|p: (String, u32)| (p.0@, p.1)),
                kept@.map_values(|p: (String, u32)| (p.0@, p.1)) == pv.take(all.len() - rest@.len())
                    .filter(|p: (Seq<char>, u32)| !occurs(path_of(p.0), "ng-view-virtual-parent"@)),
            decreases rest.len(),
        {
            let ghost k = all.len() - rest@.len();
            let ghost before = kept@;
            let p = rest.remove(0);
            proof {
                assert(pv.take(k + 1).drop_last() =~= pv.take(k));
                assert(pv.take(k + 1).last() == (p.0@, p.1));
                assert(rest@ =~= all.skip(k + 1));
                reveal_with_fuel(Seq::filter, 1);
            }
            let path = uri_path(&p.0);
            if crate::text::find_str(&path, "ng-view-virtual-parent").is_none() {
                kept.push(p);
                proof {
                    assert(kept@.map_values(|p: (String, u32)| (p.0@, p.1)) =~= before.map_values(|p: (String, u32)| (p.0@, p.1)).push((kept@.last().0@, kept@.last().1)));
                }
            }
        }
        proof { assert(pv.take(all.len() as int) =~= pv); }
        let mut r: Vec<CodeLens> = Vec::new();
        if kept.len() > 0 {
            let l = self.create_included_by_lens(&kept);
            r.push(l);
            proof { assert(lenses_view(r@) =~= seq![lens_view(l)]); }
        } else {
            proof { assert(lenses_view(r@) =~= Seq::empty()); }
        }
        r
    }

    fn bindings_lenses_exec(&self, uri: &str) -> (r: Vec<CodeLens>)
        ensures
            self.bindings_part(uri@, lenses_view(r@)),
    {
        proof { reveal_strlit("Binded"); }
        let bs = self.index.templates.get_all_template_binding_sources(uri);
        let ghost bv = bs@.map_values(|t: (String, BindingSource, String, u32)| (t.0@, t.1, t.2@, t.3));
        let ghost defs = self.index.definitions.defs();
        let mut r: Vec<CodeLens> = Vec::new();
        let mut files: Vec<String> = Vec::new();
        let mut ctrls: Vec<String> = Vec::new();
        let mut i: usize = 0;
        while i < bs.len()
            invariant
                i <= bs@.len(),
                bv == bs@.map_values(|t: (String, BindingSource, String, u32)| (t.0@, t.1, t.2@, t.3)),
                defs == self.index.definitions.defs(),
                lenses_view(r@) == binding_fold(defs, bv.take(i as int)).0,
                views(files@) == binding_fold(defs, bv.take(i as int)).1,
                views(ctrls@) == binding_fold(defs, bv.take(i as int)).2,
            decreases bs.len() - i,
        {
            let b = &bs[i];
            proof {
                assert(bv.take(i + 1).drop_last() =~= bv.take(i as int));
                assert(bv.take(i + 1).last() == (b.0@, b.1, b.2@, b.3));
            }
            let ghost r0 = r@;
            let ghost f0 = files@;
            let ghost c0 = ctrls@;
            if !crate::text::contains_str(&files, &b.2) {
                let l = self.create_bound_from_lens(b.1, &b.2, b.3);
                r.push(l);
                files.push(b.2.clone());
                proof {
                    assert(lenses_view(r@) =~= lenses_view(r0).push(lens_view(l)));
                    assert(views(files@) =~= views(f0).push(b.2@));
                }
            }
            let ghost r1 = r@;
            if !crate::text::contains_str(&ctrls, &b.0) {
                let l = self.create_controller_lens(&b.0, 0, "Binded");
                r.push(l);
                ctrls.push(b.0.clone());
                proof {
                    assert(lenses_view(r@) =~= lenses_view(r1).push(lens_view(l)));
                    assert(views(ctrls@) =~= views(c0).push(b.0@));
                }
            }
            i += 1;
        }
        proof {
            assert(bv.take(bs@.len() as int) =~= bv);
            assert(self.index.templates.binding_sources_are(uri@, bv));
        }
        r
    }

    fn component_lenses_exec(&self, uri: &str) -> (r: Vec<CodeLens>)
        ensures
            self.component_part(uri@, lenses_view(r@)),
    {
        let b = self.index.components.get_component_binding_for_template(uri);
        let ghost bg = b;
        let mut r: Vec<CodeLens> = Vec::new();
        match &b {
            Some(x) => {
                let l = self.create_component_controller_lens(x);
                r.push(l);
                proof { assert(lenses_view(r@) =~= seq![lens_view(l)]); }
            },
            None => {
                proof { assert(lenses_view(r@) =~= Seq::empty()); }
            },
        }
        proof { assert(self.index.components.binding_for_template_is(uri@, bg)); }
        r
    }

    /// Controller lenses for each name of `names`, at `line`, naming `source`.
    fn controller_lenses_for(&self, names: &Vec<String>, line: u32, source: &str) -> (r: Vec<CodeLens>)
        ensures
            lenses_view(r@) == views(names@).map_values(|c: Seq<char>| controller_lens(self.index.definitions.defs(), c, line, source@)),
    {
        let mut r: Vec<CodeLens> = Vec::new();
        let mut i: usize = 0;
        while i < names.len()
            invariant
                i <= names@.len(),
                lenses_view(r@) == views(names@.take(i as int)).map_values(|c: Seq<char>| controller_lens(self.index.definitions.defs(), c, line, source@)),
            decreases names.len() - i,
        {
            let l = self.create_controller_lens(&names[i], line, source);
            let ghost before = r@;
            r.push(l);
            proof {
                assert(views(names@.take(i + 1)) =~= views(names@.take(i as int)).push(names@[i as int]@));
                assert(lenses_view(r@) =~= lenses_view(before).push(lens_view(l)));
            }
            i += 1;
        }
        proof { assert(names@.take(names@.len() as int) =~= names@); }
        r
    }

    fn inherited_lenses_exec(&self, uri: &str) -> (r: Vec<CodeLens>)
        ensures
            self.inherited_part(uri@, lenses_view(r@)),
    {
        proof { reveal_strlit("Inherited"); }
        let cs = self.index.templates.get_inherited_controllers_for_template(uri);
        let r = self.controller_lenses_for(&cs, 0, "Inherited");
        proof { assert(self.index.templates.inherited_controllers_are(uri@, views(cs@))); }
        r
    }

    fn scope_lenses_exec(&self, uri: &str) -> (r: Vec<CodeLens>)
        ensures
            lenses_view(r@) == self.scopes_part(uri@),
    {
        proof { reveal_strlit("ng-controller"); }
        let scopes = self.index.controllers.get_all_html_controller_scopes(uri);
        let mut r: Vec<CodeLens> = Vec::new();
        let mut i: usize = 0;
        while i < scopes.len()
            invariant
                i <= scopes@.len(),
                scopes@ == list_at(self.index.controllers.html_scopes(), uri@),
                lenses_view(r@) == scopes@.take(i as int).map_values(|s: HtmlControllerScope|
                    controller_lens(self.index.definitions.defs(), s.controller_name@, s.start_line, "ng-controller"@)),
            decreases scopes.len() - i,
        {
            let l = self.create_controller_lens(&scopes[i].controller_name, scopes[i].start_line, "ng-controller");
            let ghost before = r@;
            r.push(l);
            proof {
                assert(scopes@.take(i + 1) =~= scopes@.take(i as int).push(scopes@[i as int]));
                assert(lenses_view(r@) =~= lenses_view(before).push(lens_view(l)));
            }
            i += 1;
        }
        proof { assert(scopes@.take(scopes@.len() as int) =~= scopes@); }
        r
    }

    fn include_lenses_exec(&self, uri: &str) -> (r: Vec<CodeLens>)
        ensures
            self.includes_part(uri@, lenses_view(r@)),
    {
        let is = self.index.templates.get_ng_includes_in_file(uri);
        let ghost iv = is@.map_values(|t: (u32, String, Option<String>)| (t.0, t.1@, match t.2 { Some(u) => Some(u@), None => None }));
        let mut r: Vec<CodeLens> = Vec::new();
        let mut i: usize = 0;
        while i < is.len()
            invariant
                i <= is@.len(),
                iv == is@.map_values(|t: (u32, String, Option<String>)| (t.0, t.1@, match t.2 { Some(u) => Some(u@), None => None })),
                lenses_view(r@) == iv.take(i as int).map_values(|t: (u32, Seq<char>, Option<Seq<char>>)| ng_include_lens(t.0, t.1, t.2)),
            decreases is.len() - i,
        {
            let t = &is[i];
            let resolved = match &t.2 {
                Some(u) => Some(u.clone()),
                None => None,
            };
            let l = self.create_ng_include_lens(t.0, &t.1, resolved);
            let ghost before = r@;
            r.push(l);
            proof {
                assert(iv.take(i + 1) =~= iv.take(i as int).push(iv[i as int]));
                assert(lenses_view(r@) =~= lenses_view(before).push(lens_view(l)));
            }
            i += 1;
        }
        proof {
            assert(iv.take(is@.len() as int) =~= iv);
            assert(self.index.templates.includes_in_are(uri@, iv));
        }
        r
    }

    fn controller_template_lenses_exec(&self, uri: &str) -> (r: Vec<CodeLens>)
        ensures
            self.controllers_part(uri@, lenses_view(r@)),
    {
        let syms = self.index.get_document_symbols(uri);
        let ghost mut tss: Seq<Seq<Seq<char>>> = Seq::empty();
        let ghost mut ress: Seq<Seq<Option<Seq<char>>>> = Seq::empty();
        let mut r: Vec<CodeLens> = Vec::new();
        let mut i: usize = 0;
        while i < syms.len()
            invariant
                i <= syms@.len(),
                tss.len() == i,
                ress.len() == i,
                forall|k: int| 0 <= k < i && syms@[k].kind == SymbolKind::Controller
                    ==> #[trigger] self.index.templates_for_controller_are(syms@[k].name@, tss[k]),
                forall|k: int| 0 <= k < i && syms@[k].kind == SymbolKind::Controller && tss[k].len() > 0
                    ==> #[trigger] self.resolutions_are(tss[k], ress[k]),
                lenses_view(r@) == controller_lenses(syms@.take(i as int), tss, ress),
            decreases syms.len() - i,
        {
            let s = &syms[i];
            let ghost before = r@;
            let ghost t0 = tss;
            let ghost r0 = ress;
            proof {
                assert(syms@.take(i + 1).drop_last() =~= syms@.take(i as int));
            }
            if s.kind == SymbolKind::Controller {
                let ts = self.index.get_templates_for_controller(&s.name);
                if ts.len() > 0 {
                    let l = self.create_template_lens(s.name_span.start_line, &ts);
                    let ghost res = choose|res: Seq<Option<Seq<char>>>| self.resolutions_are(views(ts@), res)
                        && lens_view(l) == template_lens(s.name_span.start_line, views(ts@), res);
                    r.push(l);
                    proof {
                        tss = tss.push(views(ts@));
                        ress = ress.push(res);
                        lemma_controller_lenses_frame(syms@.take(i as int), t0, tss, r0, ress);
                        assert(lenses_view(r@) =~= lenses_view(before).push(lens_view(l)));
                    }
                } else {
                    proof {
                        tss = tss.push(views(ts@));
                        ress = ress.push(Seq::empty());
                        lemma_controller_lenses_frame(syms@.take(i as int), t0, tss, r0, ress);
                    }
                }
            } else {
                proof {
                    tss = tss.push(Seq::empty());
                    ress = ress.push(Seq::empty());
                    lemma_controller_lenses_frame(syms@.take(i as int), t0, tss, r0, ress);
                }
            }
            i += 1;
        }
        proof {
            assert(syms@.take(syms@.len() as int) =~= syms@);
            assert(self.index.document_symbols_are(uri@, syms@));
        }
        r
    }

    fn script_binding_lenses_exec(&self, uri: &str) -> (r: Vec<CodeLens>)
        ensures
            self.script_bindings_part(uri@, lenses_view(r@)),
    {
        let bs = self.index.templates.get_template_bindings_for_js_file(uri);
        let ghost mut res: Seq<Option<Seq<char>>> = Seq::empty();
        let ghost defs = self.index.definitions.defs();
        let mut r: Vec<CodeLens> = Vec::new();
        let mut i: usize = 0;
        while i < bs.len()
            invariant
                i <= bs@.len(),
                res.len() == i,
                defs == self.index.definitions.defs(),
                forall|k: int| 0 <= k < i ==> #[trigger] self.index.template_uri_is(binding_paths(bs@)[k], res[k]),
                lenses_view(r@) == Seq::new(i as nat, |k: int| binding_lens(defs, bs@[k], res[k])),
            decreases bs.len() - i,
        {
            let l = self.create_binding_lens(&bs[i]);
            let ghost u = choose|u: Option<Seq<char>>| self.index.template_uri_is(bs@[i as int].template_path@, u)
                && lens_view(l) == binding_lens(defs, bs@[i as int], u);
            let ghost before = r@;
            r.push(l);
            proof {
                let res0 = res;
                res = res.push(u);
                assert(binding_paths(bs@)[i as int] == bs@[i as int].template_path@);
                assert(lenses_view(r@) =~= lenses_view(before).push(lens_view(l)));
                assert forall|k: int| 0 <= k < i implies res[k] == res0[k] by {}
                assert(lenses_view(r@) =~= Seq::new((i + 1) as nat, |k: int| binding_lens(defs, bs@[k], res[k])));
            }
            i += 1;
        }
        proof {
            assert(self.resolutions_are(binding_paths(bs@), res));
            assert(self.index.templates.script_bindings_are(uri@, bs@));
        }
        r
    }

    fn template_url_lenses_exec(&self, uri: &str) -> (r: Vec<CodeLens>)
        ensures
            self.template_urls_part(uri@, lenses_view(r@)),
    {
        let urls = self.index.components.get_component_template_urls(uri);
        let ghost mut res: Seq<Option<Seq<char>>> = Seq::empty();
        let mut r: Vec<CodeLens> = Vec::new();
        let mut i: usize = 0;
        while i < urls.len()
            invariant
                i <= urls@.len(),
                urls@ == list_at(self.index.components.urls(), uri@),
                res.len() == i,
                forall|k: int| 0 <= k < i ==> #[trigger] self.index.template_uri_is(url_paths(urls@)[k], res[k]),
                lenses_view(r@) == Seq::new(i as nat, |k: int| component_template_url_lens(urls@[k], res[k])),
            decreases urls.len() - i,
        {
            let l = self.create_component_template_url_lens(&urls[i]);
            let ghost u = choose|u: Option<Seq<char>>| self.index.template_uri_is(urls@[i as int].template_path@, u)
                && lens_view(l) == component_template_url_lens(urls@[i as int], u);
            let ghost before = r@;
            r.push(l);
            proof {
                let res0 = res;
                res = res.push(u);
                assert(url_paths(urls@)[i as int] == urls@[i as int].template_path@);
                assert(lenses_view(r@) =~= lenses_view(before).push(lens_view(l)));
                assert forall|k: int| 0 <= k < i implies res[k] == res0[k] by {}
                assert(lenses_view(r@) =~= Seq::new((i + 1) as nat, |k: int| component_template_url_lens(urls@[k], res[k])));
            }
            i += 1;
        }
        proof { assert(self.resolutions_are(url_paths(urls@), res)); }
        r
    }

    /// The lenses of `uri` (see [`Self::lenses_are`]).
    pub fn code_lens(&self, uri: &str) -> (r: Option<Vec<CodeLens>>)
        ensures
            self.lenses_are(uri@, match r { Some(v) => Some(lenses_view(v@)), None => None }),
    {
        if is_html_file(uri) {
            self.code_lens_for_html(uri)
        } else if is_js_file(uri) {
            self.code_lens_for_js(uri)
        } else {
            None
        }
    }

    fn code_lens_for_html(&self, uri: &str) -> (r: Option<Vec<CodeLens>>)
        ensures
            exists|parts: Seq<Seq<LensView>>| #[trigger] self.html_parts(uri@, parts)
                && match r { Some(v) => Some(lenses_view(v@)), None => None } == nonempty_lenses(all_parts(parts)),
    {
        let mut lenses = self.parents_lenses_exec(uri);
        let ghost p0 = lenses_view(lenses@);
        let mut b = self.bindings_lenses_exec(uri);
        let ghost p1 = lenses_view(b@);
        let mut c = self.component_lenses_exec(uri);
        let ghost p2 = lenses_view(c@);
        let mut d = self.inherited_lenses_exec(uri);
        let ghost p3 = lenses_view(d@);
        let mut e = self.scope_lenses_exec(uri);
        let ghost p4 = lenses_view(e@);
        let mut f = self.include_lenses_exec(uri);
        let ghost p5 = lenses_view(f@);
        let mut g = self.controller_template_lenses_exec(uri);
        let ghost p6 = lenses_view(g@);
        let mut h = self.script_binding_lenses_exec(uri);
        let ghost p7 = lenses_view(h@);
        append_lenses(&mut lenses, &mut b);
        append_lenses(&mut lenses, &mut c);
        append_lenses(&mut lenses, &mut d);
        append_lenses(&mut lenses, &mut e);
        append_lenses(&mut lenses, &mut f);
        append_lenses(&mut lenses, &mut g);
        append_lenses(&mut lenses, &mut h);
        let ghost parts = seq![p0, p1, p2, p3, p4, p5, p6, p7];
        proof {
            assert(self.html_parts(uri@, parts));
            assert(all_parts(parts) =~= p0 + p1 + p2 + p3 + p4 + p5 + p6 + p7) by {
                reveal_with_fuel(all_parts, 9);
            }
        }
        if lenses.len() == 0 {
            None
        } else {
            Some(lenses)
        }
    }

    fn code_lens_for_js(&self, uri: &str) -> (r: Option<Vec<CodeLens>>)
        ensures
            exists|parts: Seq<Seq<LensView>>| #[trigger] self.js_parts(uri@, parts)
                && match r { Some(v) => Some(lenses_view(v@)), None => None } == nonempty_lenses(all_parts(parts)),
    {
        let mut lenses = self.controller_template_lenses_exec(uri);
        let ghost p0 = lenses_view(lenses@);
        let mut b = self.script_binding_lenses_exec(uri);
        let ghost p1 = lenses_view(b@);
        let mut c = self.template_url_lenses_exec(uri);
        let ghost p2 = lenses_view(c@);
        append_lenses(&mut lenses, &mut b);
        append_lenses(&mut lenses, &mut c);
        let ghost parts = seq![p0, p1, p2];
        proof {
            assert(self.js_parts(uri@, parts));
            assert(all_parts(parts) =~= p0 + p1 + p2) by {
                reveal_with_fuel(all_parts, 4);
            }
        }
        if lenses.len() == 0 {
            None
        } else {
            Some(lenses)
        }
    }
}

fn append_lenses(a: &mut Vec<CodeLens>, b: &mut Vec<CodeLens>)
    ensures
        lenses_view(final(a)@) == lenses_view(old(a)@) + lenses_view(old(b)@),
{
    let ghost x = a@;
    let ghost y = b@;
    a.append(b);
    proof { assert(lenses_view(a@) =~= lenses_view(x) + lenses_view(y)); }
}

/// Only the entries of the first `syms.len()` symbols matter.
proof fn lemma_controller_lenses_frame(syms: Seq<Symbol>, t0: Seq<Seq<Seq<char>>>, t1: Seq<Seq<Seq<char>>>, r0: Seq<Seq<Option<Seq<char>>>>, r1: Seq<Seq<Option<Seq<char>>>>)
    requires
        syms.len() <= t0.len(),
        syms.len() <= t1.len(),
        syms.len() <= r0.len(),
        syms.len() <= r1.len(),
        forall|k: int| 0 <= k < syms.len() ==> t0[k] == t1[k] && r0[k] == r1[k],
    ensures
        controller_lenses(syms, t0, r0) == controller_lenses(syms, t1, r1),
    decreases syms.len(),
{
    if syms.len() > 0 {
        lemma_controller_lenses_frame(syms.drop_last(), t0, t1, r0, r1);
    }
}

/// The file name of each path of `paths`: what follows its last `/`.
fn file_names(paths: &Vec<String>) -> (r: Vec<String>)
    ensures
        views(r@) == views(paths@).map_values(|t: Seq<char>| after_last(t, '/')),
{
    let mut r: Vec<String> = Vec::new();
    let mut i: usize = 0;
    while i < paths.len()
        invariant
            i <= paths@.len(),
            views(r@) == views(paths@.take(i as int)).map_values(|t: Seq<char>| after_last(t, '/')),
        decreases paths.len() - i,
    {
        let n = str_after_last(&paths[i], '/');
        let ghost before = r@;
        r.push(n);
        proof {
            assert(views(paths@.take(i + 1)) =~= views(paths@.take(i as int)).push(paths@[i as int]@));
            assert(views(r@) =~= views(before).push(n@));
        }
        i += 1;
    }
    proof { assert(paths@.take(paths@.len() as int) =~= paths@); }
    r
}
} // verus!
