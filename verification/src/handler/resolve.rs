//! What the cursor is on in a template, shared by hover, references, rename and
//! definition.
use vstd::prelude::*;

use crate::handler::code_action::split_alias_and_property;
use crate::handler::diagnostics::{path_alias, path_property};
use crate::index::html_store::{directive_at, first_found, form_name_at, local_variable_name_at, scope_reference_at};
use crate::index::query::opt_view;
use crate::index::snapshot::list_at;
use crate::index::Index;
use crate::model::{HtmlDirectiveReference, HtmlFormBinding, HtmlLocalVariable, HtmlLocalVariableReference, HtmlScopeReference, Symbol};
use crate::text::{chars_of, concat, find_char, first_index, lemma_first_index, string_from_chars, views};

verus! {

/// The symbol at a position of a template.
pub enum HtmlSymbolAtPosition {
    /// A custom directive or component used there.
    Directive(HtmlDirectiveReference),
    /// Where a local variable (`ng-repeat`, `ng-init`) is defined.
    LocalVariableDefinition(HtmlLocalVariable),
    /// A use of a local variable, with its definition.
    LocalVariableReference { variable_name: String, definition: HtmlLocalVariable },
    /// The name of a `<form name="x">`.
    FormBindingDefinition(HtmlFormBinding),
    /// A form used by name in a scope expression.
    FormBindingReference(HtmlFormBinding),
    /// A scope symbol (`$scope.x`, or a `controller as` property).
    ScopeSymbol { symbol_name: String, controller: String, is_controller_as: bool },
    /// A `$rootScope` symbol.
    RootScopeSymbol { symbol_name: String },
    /// A local variable inherited from a parent template through `ng-include`.
    InheritedLocalVariable(HtmlLocalVariable),
}

/// The first segment of a scope path: what precedes its first `.`, or all of it.
pub open spec fn first_segment(p: Seq<char>) -> Seq<char> {
    match first_index(p, '.') {
        Some(i) => p.take(i),
        None => p,
    }
}

pub fn first_segment_of(p: &str) -> (r: String)
    ensures
        r@ == first_segment(p@),
{
    let cs = chars_of(p);
    match find_char(&cs, '.') {
        Some(i) => {
            proof { lemma_first_index(cs@, '.', i as int); }
            let r = string_from_chars(&cs, 0, i);
            assert(r@ =~= p@.take(i as int));
            r
        },
        None => {
            assert(!(exists|j: int| 0 <= j < p@.len() && p@[j] == '.'));
            let r = string_from_chars(&cs, 0, cs.len());
            assert(r@ =~= p@);
            r
        },
    }
}

/// Where in `cs` the first name `c + mid + prop` that `defs` defines is.
pub open spec fn first_defined(defs: Map<Seq<char>, Seq<Symbol>>, cs: Seq<Seq<char>>, mid: Seq<char>, prop: Seq<char>) -> Option<int> {
    if exists|k: int| 0 <= k < cs.len() && defs.contains_key(#[trigger] cs[k] + mid + prop) {
        Some(choose|k: int| 0 <= k < cs.len() && defs.contains_key(#[trigger] cs[k] + mid + prop)
            && forall|j: int| 0 <= j < k ==> !defs.contains_key(#[trigger] cs[j] + mid + prop))
    } else {
        None
    }
}

proof fn lemma_first_defined(defs: Map<Seq<char>, Seq<Symbol>>, cs: Seq<Seq<char>>, mid: Seq<char>, prop: Seq<char>, k: int)
    requires
        0 <= k < cs.len(),
        defs.contains_key(cs[k] + mid + prop),
        forall|j: int| 0 <= j < k ==> !defs.contains_key(#[trigger] cs[j] + mid + prop),
    ensures
        first_defined(defs, cs, mid, prop) == Some(k),
{
    let c = choose|x: int| 0 <= x < cs.len() && defs.contains_key(#[trigger] cs[x] + mid + prop)
        && forall|j: int| 0 <= j < x ==> !defs.contains_key(#[trigger] cs[j] + mid + prop);
    if c < k {
        assert(!defs.contains_key(cs[c] + mid + prop));
    }
    if c > k {
        assert(!defs.contains_key(cs[k] + mid + prop));
    }
}

/// `r` is a scope symbol named `cs[k] + mid + prop` for controller `cs[k]`.
pub open spec fn is_scope_symbol(r: Option<HtmlSymbolAtPosition>, c: Seq<char>, mid: Seq<char>, prop: Seq<char>, is_as: bool) -> bool {
    r matches Some(HtmlSymbolAtPosition::ScopeSymbol { symbol_name, controller, is_controller_as })
        && symbol_name@ == c + mid + prop && controller@ == c && is_controller_as == is_as
}

/// The end of the resolution, for a scope path `p` at `line`: its alias names a
/// controller (then the path's rest is the property) or not (the whole path is, over the
/// controllers in effect); the first of them that defines it on `$scope`, else, for an
/// alias, on `this`; else a `$rootScope` symbol of that property; else nothing.
pub open spec fn scope_symbol_is(ix: &Index, uri: Seq<char>, line: int, p: Seq<char>, r: Option<HtmlSymbolAtPosition>) -> bool {
    exists|res: Option<Seq<char>>| #[trigger] alias_step(ix, uri, line, p, res) && {
        let is_as = res is Some;
        let prop = if is_as { path_property(p) } else { p };
        exists|cs: Seq<Seq<char>>| #[trigger] controllers_step(ix, uri, line, res, cs) && symbol_among(ix, cs, prop, is_as, r)
    }
}

/// `r` is the scope symbol of `prop` among the controllers `cs`: the first that defines
/// it on `$scope`, else (`is_as`) on `this`; else a `$rootScope` symbol; else nothing.
pub open spec fn symbol_among(ix: &Index, cs: Seq<Seq<char>>, prop: Seq<char>, is_as: bool, r: Option<HtmlSymbolAtPosition>) -> bool {
    let defs = ix.definitions.defs();
    match first_defined(defs, cs, ".$scope."@, prop) {
        Some(k) => is_scope_symbol(r, cs[k], ".$scope."@, prop, is_as),
        None => match (if is_as { first_defined(defs, cs, "."@, prop) } else { None }) {
            Some(k) => is_scope_symbol(r, cs[k], "."@, prop, is_as),
            None => exists|rs: Option<Seq<char>>| #[trigger] ix.definitions.root_scope_symbol_is(prop, rs) && match rs {
                Some(n) => r matches Some(HtmlSymbolAtPosition::RootScopeSymbol { symbol_name }) && symbol_name@ == n,
                None => r is None,
            },
        },
    }
}

/// `res` is the controller the alias of `p` names (none when `p` has no alias).
pub open spec fn alias_step(ix: &Index, uri: Seq<char>, line: int, p: Seq<char>, res: Option<Seq<char>>) -> bool {
    match path_alias(p) {
        Some(a) => ix.alias_resolution_is(uri, line, a, res),
        None => res is None,
    }
}

/// `cs` is the named controller, or, when none is named, those in effect at `line`.
pub open spec fn controllers_step(ix: &Index, uri: Seq<char>, line: int, res: Option<Seq<char>>, cs: Seq<Seq<char>>) -> bool {
    match res {
        Some(c) => cs == seq![c],
        None => ix.controllers_are(uri, line, cs),
    }
}

/// `r` is what the resolution at `(line, col)` of `uri` gives after the local variable
/// reference step: a form's name; else, for the scope expression there, a form or a local
/// variable its first segment names, else its scope symbol; nothing off any expression.
pub open spec fn after_local_reference(ix: &Index, uri: Seq<char>, line: int, col: int, r: Option<HtmlSymbolAtPosition>) -> bool {
    let forms = list_at(ix.html@.form_bindings, uri);
    let scopes = list_at(ix.html@.scope_references, uri);
    exists|fb: Option<HtmlFormBinding>| #[trigger] first_found(forms, form_name_at(line, col), fb) && match fb {
        Some(x) => r == Some(HtmlSymbolAtPosition::FormBindingDefinition(x)),
        None => exists|h: Option<HtmlScopeReference>| #[trigger] first_found(scopes, scope_reference_at(line, col), h) && match h {
            None => r is None,
            Some(h) => {
                let base = first_segment(h.property_path@);
                exists|f: Option<HtmlFormBinding>| #[trigger] ix.form_definition_is(uri, base, line, f) && match f {
                    Some(x) => r == Some(HtmlSymbolAtPosition::FormBindingReference(x)),
                    None => exists|v: Option<HtmlLocalVariable>| #[trigger] ix.local_definition_is(uri, base, line, v) && match v {
                        Some(x) => r == Some(HtmlSymbolAtPosition::InheritedLocalVariable(x)),
                        None => scope_symbol_is(ix, uri, line, h.property_path@, r),
                    },
                }
            },
        },
    }
}

/// `r` is what [`resolve_html_position`] gives at `(line, col)` of `uri`: a directive
/// used there; else a local variable defined there; else a local variable used there that
/// has a definition; else as [`after_local_reference`] says.
pub open spec fn position_resolution_is(ix: &Index, uri: Seq<char>, line: int, col: int, r: Option<HtmlSymbolAtPosition>) -> bool {
    let dirs = list_at(ix.html@.directive_references, uri);
    let vars = list_at(ix.html@.local_variables, uri);
    exists|d: Option<HtmlDirectiveReference>| #[trigger] first_found(dirs, directive_at(line, col), d) && match d {
        Some(x) => r == Some(HtmlSymbolAtPosition::Directive(x)),
        None => exists|vd: Option<HtmlLocalVariable>| #[trigger] first_found(vars, local_variable_name_at(line, col), vd) && match vd {
            Some(x) => r == Some(HtmlSymbolAtPosition::LocalVariableDefinition(x)),
            None => exists|lr: Option<HtmlLocalVariableReference>| #[trigger] ix.html.local_reference_at_is(uri, line, col, lr) && match lr {
                Some(v) => exists|def: Option<HtmlLocalVariable>| #[trigger] ix.local_definition_is(uri, v.variable_name@, line, def) && match def {
                    Some(x) => r matches Some(HtmlSymbolAtPosition::LocalVariableReference { variable_name, definition })
                        && variable_name@ == v.variable_name@ && definition == x,
                    None => after_local_reference(ix, uri, line, col, r),
                },
                None => after_local_reference(ix, uri, line, col, r),
            },
        },
    }
}

/// The first of `controllers` that defines `c + mid + prop`.
fn find_first_defined(index: &Index, controllers: &Vec<String>, mid: &str, prop: &str) -> (r: Option<usize>)
    ensures
        match r {
            Some(k) => k < controllers@.len() && first_defined(index.definitions.defs(), views(controllers@), mid@, prop@) == Some(k as int),
            None => first_defined(index.definitions.defs(), views(controllers@), mid@, prop@) is None,
        },
{
    let ghost cs = views(controllers@);
    let ghost defs = index.definitions.defs();
    let mut k: usize = 0;
    while k < controllers.len()
        invariant
            k <= controllers@.len(),
            cs == views(controllers@),
            defs == index.definitions.defs(),
            forall|j: int| 0 <= j < k ==> !defs.contains_key(#[trigger] cs[j] + mid@ + prop@),
        decreases controllers.len() - k,
    {
        let name = concat(concat(controllers[k].as_str(), mid).as_str(), prop);
        assert(name@ == cs[k as int] + mid@ + prop@);
        if index.definitions.has_definition(name.as_str()) {
            proof { lemma_first_defined(defs, cs, mid@, prop@, k as int); }
            return Some(k);
        }
        k += 1;
    }
    None
}

fn resolve_scope_symbol(index: &Index, uri: &str, line: u32, path: &str) -> (r: Option<HtmlSymbolAtPosition>)
    ensures
        scope_symbol_is(index, uri@, line as int, path@, r),
{
    let (alias, rest) = split_alias_and_property(path);
    assert(opt_view(alias) == path_alias(path@));
    let resolved: Option<String> = match &alias {
        Some(a) => index.resolve_controller_by_alias(uri, line, a.as_str()),
        None => None,
    };
    assert(alias_step(index, uri@, line as int, path@, opt_view(resolved)));
    let is_controller_as = resolved.is_some();
    let property_path: String = if is_controller_as {
        rest
    } else {
        let cs = chars_of(path);
        let p = string_from_chars(&cs, 0, cs.len());
        assert(p@ =~= path@);
        p
    };
    let controllers: Vec<String> = match resolved {
        Some(c) => {
            let mut v: Vec<String> = Vec::new();
            let ghost cv = c@;
            v.push(c);
            assert(views(v@) =~= seq![cv]);
            v
        },
        None => index.resolve_controllers_for_html(uri, line),
    };
    assert(controllers_step(index, uri@, line as int, opt_view(resolved), views(controllers@)));
    assert(property_path@ == if is_controller_as { path_property(path@) } else { path@ });
    symbol_among_controllers(index, &controllers, property_path.as_str(), is_controller_as)
}

fn symbol_among_controllers(index: &Index, controllers: &Vec<String>, property_path: &str, is_controller_as: bool) -> (r: Option<HtmlSymbolAtPosition>)
    ensures
        symbol_among(index, views(controllers@), property_path@, is_controller_as, r),
{
    let f1 = find_first_defined(index, controllers, ".$scope.", property_path);
    match f1 {
        Some(k) => {
            let symbol_name = concat(concat(controllers[k].as_str(), ".$scope.").as_str(), property_path);
            let controller = controllers[k].clone();
            assert(views(controllers@)[k as int] == controllers@[k as int]@);
            return Some(HtmlSymbolAtPosition::ScopeSymbol { symbol_name, controller, is_controller_as });
        },
        None => {},
    }
    if is_controller_as {
        let f2 = find_first_defined(index, controllers, ".", property_path);
        match f2 {
            Some(k) => {
                let symbol_name = concat(concat(controllers[k].as_str(), ".").as_str(), property_path);
                let controller = controllers[k].clone();
                assert(views(controllers@)[k as int] == controllers@[k as int]@);
                return Some(HtmlSymbolAtPosition::ScopeSymbol { symbol_name, controller, is_controller_as });
            },
            None => {},
        }
    }
    let rs = index.definitions.find_root_scope_symbol_name_by_property(property_path);
    assert(index.definitions.root_scope_symbol_is(property_path@, opt_view(rs)));
    match rs {
        Some(symbol_name) => Some(HtmlSymbolAtPosition::RootScopeSymbol { symbol_name }),
        None => None,
    }
}

fn resolve_after_local_reference(index: &Index, uri: &str, line: u32, col: u32) -> (r: Option<HtmlSymbolAtPosition>)
    ensures
        after_local_reference(index, uri@, line as int, col as int, r),
{
    let fb = index.html.find_html_form_binding_at(uri, line, col);
    assert(first_found(list_at(index.html@.form_bindings, uri@), form_name_at(line as int, col as int), fb));
    match fb {
        Some(b) => {
            return Some(HtmlSymbolAtPosition::FormBindingDefinition(b));
        },
        None => {},
    }
    let h = index.html.find_html_scope_reference_at(uri, line, col);
    assert(first_found(list_at(index.html@.scope_references, uri@), scope_reference_at(line as int, col as int), h));
    let html_ref = match h {
        Some(x) => x,
        None => return None,
    };
    let base = first_segment_of(html_ref.property_path.as_str());
    let f = index.find_form_binding_definition(uri, base.as_str(), line);
    assert(index.form_definition_is(uri@, base@, line as int, f));
    match f {
        Some(b) => {
            return Some(HtmlSymbolAtPosition::FormBindingReference(b));
        },
        None => {},
    }
    let v = index.find_local_variable_definition(uri, base.as_str(), line);
    assert(index.local_definition_is(uri@, base@, line as int, v));
    match v {
        Some(d) => {
            return Some(HtmlSymbolAtPosition::InheritedLocalVariable(d));
        },
        None => {},
    }
    resolve_scope_symbol(index, uri, line, html_ref.property_path.as_str())
}

/// What the cursor at `(line, col)` of the template `uri` is on, in this order: a
/// directive, a local variable definition, a local variable reference, a form name, then
/// the scope expression there (a form or inherited local variable by its first segment,
/// a `$scope` / controller property, a `$rootScope` property).
pub fn resolve_html_position(index: &Index, uri: &str, line: u32, col: u32) -> (r: Option<HtmlSymbolAtPosition>)
    ensures
        position_resolution_is(index, uri@, line as int, col as int, r),
{
    let d = index.html.find_html_directive_reference_at(uri, line, col);
    assert(first_found(list_at(index.html@.directive_references, uri@), directive_at(line as int, col as int), d));
    match d {
        Some(x) => {
            return Some(HtmlSymbolAtPosition::Directive(x));
        },
        None => {},
    }
    let vd = index.html.find_html_local_variable_definition_at(uri, line, col);
    assert(first_found(list_at(index.html@.local_variables, uri@), local_variable_name_at(line as int, col as int), vd));
    match vd {
        Some(x) => {
            return Some(HtmlSymbolAtPosition::LocalVariableDefinition(x));
        },
        None => {},
    }
    let lr = index.html.find_html_local_variable_at(uri, line, col);
    assert(index.html.local_reference_at_is(uri@, line as int, col as int, lr));
    match lr {
        Some(v) => {
            let def = index.find_local_variable_definition(uri, v.variable_name.as_str(), line);
            assert(index.local_definition_is(uri@, v.variable_name@, line as int, def));
            match def {
                Some(definition) => {
                    let variable_name = v.variable_name.clone();
                    return Some(HtmlSymbolAtPosition::LocalVariableReference { variable_name, definition });
                },
                None => {},
            }
        },
        None => {},
    }
    resolve_after_local_reference(index, uri, line, col)
}

} // verus!
