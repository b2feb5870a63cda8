//! Hover: a Markdown card for the symbol, directive, local variable or form at the
//! cursor.
use vstd::prelude::*;

use crate::handler::definition::{first_with_definitions, keep_kind};
use crate::index::html_resolve::HtmlResolution;
use crate::index::html_store::local_reference_within;
use crate::index::snapshot::list_at;
use crate::index::Index;
use crate::lsp::{Position, Range};
use crate::model::symbol::symbol_kind_name;
use crate::model::{
    DirectiveUsageType, HtmlDirectiveReference, HtmlFormBinding, HtmlLocalVariable, HtmlLocalVariableSource,
    HtmlNgModelTarget, HtmlUiSrefReference, Symbol, SymbolKind, SymbolReference,
};
use crate::text::{concat, decimal, decimal_string, views};
use crate::uri::{file_name_of, path_of};
use crate::util::{html_path, is_html_file};

verus! {

/// A hover card.
pub struct Hover {
    /// Markdown text.
    pub contents: String,
    /// The range the card is about, when it names one.
    pub range: Option<Range>,
}

/// The card's text, when there is a card.
pub open spec fn hover_text(r: Option<Hover>) -> Option<Seq<char>> {
    match r {
        Some(h) => Some(h.contents@),
        None => None,
    }
}

/// The documentation part of a card: the text and a rule after it, or nothing.
pub open spec fn docs_part(docs: Option<String>) -> Seq<char> {
    match docs {
        Some(d) => d@ + "\n\n---\n\n"@,
        None => Seq::empty(),
    }
}

/// `n + 1` in decimal.
pub open spec fn one_based(n: u32) -> Seq<char> {
    decimal((n + 1) as nat)
}

/// The card of the definition `d`, whose document's file name is `fname`, with `count`
/// references.
pub open spec fn symbol_hover_text(d: Symbol, fname: Seq<char>, count: nat) -> Seq<char> {
    "**"@ + d.name@ + "** (*"@ + symbol_kind_name(d.kind) + "*)\n\n"@ + docs_part(d.docs)
        + "Defined in: `"@ + fname + ":"@ + one_based(d.definition_span.start_line) + "`\n"@
        + (if count > 0 { "\nReferences: "@ + decimal(count) } else { Seq::empty() })
}

/// How a card names where a local variable comes from.
pub open spec fn source_text(s: HtmlLocalVariableSource) -> Seq<char> {
    match s {
        HtmlLocalVariableSource::NgInit => "ng-init"@,
        HtmlLocalVariableSource::NgRepeatIterator => "ng-repeat iterator"@,
        HtmlLocalVariableSource::NgRepeatKeyValue => "ng-repeat key/value"@,
        HtmlLocalVariableSource::NgRepeatSpecial => "ng-repeat special"@,
    }
}

fn source_str(s: HtmlLocalVariableSource) -> (r: &'static str)
    ensures
        r@ == source_text(s),
{
    match s {
        HtmlLocalVariableSource::NgInit => "ng-init",
        HtmlLocalVariableSource::NgRepeatIterator => "ng-repeat iterator",
        HtmlLocalVariableSource::NgRepeatKeyValue => "ng-repeat key/value",
        HtmlLocalVariableSource::NgRepeatSpecial => "ng-repeat special",
    }
}

/// The card of the local variable `v` with `count` references.
pub open spec fn local_hover_text(v: HtmlLocalVariable, count: nat) -> Seq<char> {
    "**"@ + v.name@ + "** (*HTML local variable*)\n\nSource: `"@ + source_text(v.source) + "`\nScope: lines "@
        + one_based(v.scope_start_line) + "-"@ + one_based(v.scope_end_line) + "\n\nReferences: "@ + decimal(count)
}

/// The card of the form `f`.
pub open spec fn form_hover_text(f: HtmlFormBinding) -> Seq<char> {
    "**"@ + f.name@ + "** (*form binding*)\n\nAngularJS automatically binds this form to `$scope."@ + f.name@
        + "`\n\nScope: lines "@ + one_based(f.scope_start_line) + "-"@ + one_based(f.scope_end_line)
}

/// How a card names the way a directive is used.
pub open spec fn usage_text(u: DirectiveUsageType) -> Seq<char> {
    match u {
        DirectiveUsageType::Element => "element"@,
        DirectiveUsageType::Attribute => "attribute"@,
    }
}

/// The card of the directive used at `x`, defined by `d` in the file `fname`, used
/// `count` times in templates.
pub open spec fn directive_hover_text(x: HtmlDirectiveReference, d: Symbol, fname: Seq<char>, count: nat) -> Seq<char> {
    "**"@ + x.directive_name@ + "** (*directive*)\n\nUsed as: `"@ + usage_text(x.usage_type) + "`\n\n"@ + docs_part(d.docs)
        + "Defined in: `"@ + fname + ":"@ + one_based(d.definition_span.start_line) + "`\n"@
        + (if count > 0 { "\nHTML references: "@ + decimal(count) } else { Seq::empty() })
}

/// The card of a property that the `ng-model` target `t` makes on the scope of `c`, in
/// the file `fname`.
pub open spec fn ng_model_hover_text(t: HtmlNgModelTarget, c: Seq<char>, fname: Seq<char>) -> Seq<char> {
    "**"@ + t.property_path@ + "** (*ng-model implicit `$scope` property*)\n\nBound via `ng-model` (`$scope` of `"@ + c
        + "`).\n\nDefined at: `"@ + fname + ":"@ + one_based(t.start_line)
        + "`\n\n---\n\nAngularJS auto-creates this property on `$scope` when the binding fires. For clarity, consider initializing it explicitly in the controller."@
}

/// Appends `t` to `s`.
fn cat(s: String, t: &str) -> (r: String)
    ensures
        r@ == s@ + t@,
{
    concat(s.as_str(), t)
}

/// `n + 1` in decimal, as a string.
fn one_based_string(n: u32) -> (r: String)
    ensures
        r@ == one_based(n),
{
    decimal_string(n as u64 + 1)
}

/// Hover over an index.
pub struct HoverHandler<'a> {
    pub index: &'a Index,
}

impl<'a> HoverHandler<'a> {
    pub fn new(index: &'a Index) -> (r: Self)
        ensures
            r.index == index,
    {
        HoverHandler { index }
    }

    /// `r` is the card of the symbol `name`: none without definitions; else that of its
    /// first definition with the count of its script and template references (the file
    /// name is what the platform makes of the document's URI).
    pub open spec fn symbol_hover_is(&self, name: Seq<char>, r: Option<Seq<char>>) -> bool {
        let defs = list_at(self.index.definitions.defs(), name);
        if defs.len() == 0 {
            r is None
        } else {
            exists|fname: Seq<char>, refs: Seq<SymbolReference>|
                #![trigger self.index.all_references_are(name, refs), symbol_hover_text(defs[0], fname, refs.len())]
                self.index.all_references_are(name, refs) && r == Some(symbol_hover_text(defs[0], fname, refs.len()))
        }
    }

    /// `r` is the card for the scope property `prop` of the controllers `cs`: that of the
    /// first controller's `$scope` symbol with definitions, else (`is_alias`) of its `this`
    /// symbol, else of the `ng-model` that makes it; none otherwise.
    pub open spec fn scope_hover_is(&self, uri: Seq<char>, cs: Seq<Seq<char>>, prop: Seq<char>, is_alias: bool, r: Option<Seq<char>>) -> bool {
        let defs = self.index.definitions.defs();
        match first_with_definitions(defs, cs, ".$scope."@, prop) {
            Some(k) => self.symbol_hover_is(cs[k] + ".$scope."@ + prop, r),
            None => match (if is_alias { first_with_definitions(defs, cs, "."@, prop) } else { None }) {
                Some(k) => self.symbol_hover_is(cs[k] + "."@ + prop, r),
                None => exists|k: int, t: Option<HtmlNgModelTarget>| #[trigger] self.first_ng_target(uri, cs, prop, k, t) && match t {
                    Some(x) => exists|fname: Seq<char>| #[trigger] ng_model_hover_text(x, cs[k], fname) == r->0 && r is Some,
                    None => r is None,
                },
            },
        }
    }

    /// `t` is the `ng-model` target found asking the controllers `cs` in turn, at the
    /// `k`-th of them; none when none has one.
    pub open spec fn first_ng_target(&self, uri: Seq<char>, cs: Seq<Seq<char>>, prop: Seq<char>, k: int, t: Option<HtmlNgModelTarget>) -> bool {
        match t {
            Some(x) => 0 <= k < cs.len() && self.index.ng_model_target_is(uri, cs[k], prop, Some(x))
                && forall|j: int| 0 <= j < k ==> self.index.ng_model_target_is(uri, #[trigger] cs[j], prop, None),
            None => forall|j: int| 0 <= j < cs.len() ==> self.index.ng_model_target_is(uri, #[trigger] cs[j], prop, None),
        }
    }

    /// `r` is the card a template resolution `res` leads to.
    pub open spec fn resolution_hover_is(&self, uri: Seq<char>, res: HtmlResolution, r: Option<Seq<char>>) -> bool {
        let defs = self.index.definitions.defs();
        match res {
            HtmlResolution::UiSref(x) => {
                let states = list_at(defs, x.state_name@).filter(|d: Symbol| d.kind == SymbolKind::UiRouterState);
                if states.len() == 0 { r is None } else { self.symbol_hover_is(states[0].name@, r) }
            },
            HtmlResolution::Directive(x) => {
                let ds = list_at(defs, x.directive_name@);
                if ds.len() == 0 {
                    r is None
                } else {
                    exists|fname: Seq<char>, h: Seq<HtmlDirectiveReference>|
                        #![trigger self.index.html.directive_references_are(x.directive_name@, h), directive_hover_text(x, ds[0], fname, h.len())]
                        self.index.html.directive_references_are(x.directive_name@, h) && r == Some(directive_hover_text(x, ds[0], fname, h.len()))
                }
            },
            HtmlResolution::LocalVarDef(v) | HtmlResolution::LocalVarRef(v) | HtmlResolution::InheritedLocalVar(v) => {
                let within = list_at(self.index.html@.local_variable_references, v.name@)
                    .filter(local_reference_within(v.uri@, v.scope_start_line as int, v.scope_end_line as int));
                r == Some(local_hover_text(v, within.len()))
            },
            HtmlResolution::FormBindingDef(f) | HtmlResolution::InheritedFormBinding(f) => r == Some(form_hover_text(f)),
            HtmlResolution::Scope { controllers, property_path, is_alias } =>
                self.scope_hover_is(uri, views(controllers@), property_path@, is_alias, r),
        }
    }

    /// `r` is the card at `position` of `uri`: in a template, the one the resolution
    /// there leads to; in a script, that of the symbol at the cursor.
    pub open spec fn hover_is(&self, uri: Seq<char>, position: Position, r: Option<Seq<char>>) -> bool {
        let line = position.line as int;
        let col = position.character as int;
        if html_path(path_of(uri)) {
            exists|res: Option<HtmlResolution>| #[trigger] self.index.html_resolution_holds(uri, line, col, None, res) && match res {
                Some(x) => self.resolution_hover_is(uri, x, r),
                None => r is None,
            }
        } else if self.index.definitions.hits_at(uri, line, col).len() == 0 {
            r is None
        } else {
            exists|n: Seq<char>| #[trigger] self.index.definitions.symbol_at_is(uri, line, col, n) && self.symbol_hover_is(n, r)
        }
    }

    /// The card for what the cursor at `position` of `uri` is on.
    pub fn hover(&self, uri: &str, position: Position) -> (r: Option<Hover>)
        requires
            !html_path(path_of(uri@)) ==> self.index.definitions.hits_measurable(uri@, position.line as int, position.character as int),
        ensures
            self.hover_is(uri@, position, hover_text(r)),
    {
        if is_html_file(uri) {
            let res = self.index.resolve_html_position(uri, position, None);
            assert(self.index.html_resolution_holds(uri@, position.line as int, position.character as int, None, res));
            return match res {
                None => None,
                Some(x) => self.hover_for_resolution(uri, x),
            };
        }
        let name = self.index.definitions.find_symbol_at_position(uri, position.line, position.character);
        match name {
            Some(n) => {
                assert(self.index.definitions.symbol_at_is(uri@, position.line as int, position.character as int, n@));
                self.build_hover_for_symbol(n.as_str())
            },
            None => None,
        }
    }

    fn hover_for_resolution(&self, uri: &str, res: HtmlResolution) -> (r: Option<Hover>)
        ensures
            self.resolution_hover_is(uri@, res, hover_text(r)),
    {
        match res {
            HtmlResolution::UiSref(x) => self.build_for_ui_sref(&x),
            HtmlResolution::Directive(x) => self.build_hover_for_directive(&x),
            HtmlResolution::LocalVarDef(v) | HtmlResolution::LocalVarRef(v) | HtmlResolution::InheritedLocalVar(v) =>
                self.build_hover_for_local_variable(&v),
            HtmlResolution::FormBindingDef(f) | HtmlResolution::InheritedFormBinding(f) => self.build_hover_for_form_binding(&f),
            HtmlResolution::Scope { controllers, property_path, is_alias } =>
                self.build_for_scope(uri, &controllers, property_path.as_str(), is_alias),
        }
    }

    fn build_for_ui_sref(&self, ui_sref: &HtmlUiSrefReference) -> (r: Option<Hover>)
        ensures
            ({
                let states = list_at(self.index.definitions.defs(), ui_sref.state_name@).filter(|d: Symbol| d.kind == SymbolKind::UiRouterState);
                if states.len() == 0 { r is None } else { self.symbol_hover_is(states[0].name@, hover_text(r)) }
            }),
    {
        let definitions = self.index.definitions.get_definitions(ui_sref.state_name.as_str());
        let states = keep_kind(definitions, SymbolKind::UiRouterState);
        if states.len() == 0 {
            return None;
        }
        self.build_hover_for_symbol(states[0].name.as_str())
    }

    fn build_for_scope(&self, uri: &str, controllers: &Vec<String>, property_path: &str, is_alias: bool) -> (r: Option<Hover>)
        ensures
            self.scope_hover_is(uri@, views(controllers@), property_path@, is_alias, hover_text(r)),
    {
        let f1 = first_with_definitions_exec(self.index, controllers, ".$scope.", property_path);
        match f1 {
            Some(k) => {
                let name = concat(concat(controllers[k].as_str(), ".$scope.").as_str(), property_path);
                assert(views(controllers@)[k as int] == controllers@[k as int]@);
                return self.build_hover_for_symbol(name.as_str());
            },
            None => {},
        }
        if is_alias {
            let f2 = first_with_definitions_exec(self.index, controllers, ".", property_path);
            match f2 {
                Some(k) => {
                    let name = concat(concat(controllers[k].as_str(), ".").as_str(), property_path);
                    assert(views(controllers@)[k as int] == controllers@[k as int]@);
                    return self.build_hover_for_symbol(name.as_str());
                },
                None => {},
            }
        }
        self.ng_target_hover(uri, controllers, property_path)
    }

    fn ng_target_hover(&self, uri: &str, controllers: &Vec<String>, property_path: &str) -> (r: Option<Hover>)
        ensures
            exists|k: int, t: Option<HtmlNgModelTarget>| #[trigger] self.first_ng_target(uri@, views(controllers@), property_path@, k, t) && match t {
                Some(x) => exists|fname: Seq<char>| #[trigger] ng_model_hover_text(x, views(controllers@)[k], fname) == hover_text(r)->0 && hover_text(r) is Some,
                None => r is None,
            },
    {
        let ghost cs = views(controllers@);
        let mut k: usize = 0;
        while k < controllers.len()
            invariant
                k <= controllers@.len(),
                cs == views(controllers@),
                forall|j: int| 0 <= j < k ==> self.index.ng_model_target_is(uri@, #[trigger] cs[j], property_path@, None),
            decreases controllers.len() - k,
        {
            assert(cs[k as int] == controllers@[k as int]@);
            let t = self.index.find_ng_model_implicit_def_target(uri, controllers[k].as_str(), property_path);
            match t {
                Some(x) => {
                    assert(self.first_ng_target(uri@, cs, property_path@, k as int, Some(x)));
                    let r = self.build_hover_for_ng_model_target(&x, controllers[k].as_str());
                    return r;
                },
                None => {},
            }
            k += 1;
        }
        assert(self.first_ng_target(uri@, cs, property_path@, 0, None));
        None
    }

    fn build_hover_for_ng_model_target(&self, target: &HtmlNgModelTarget, controller_name: &str) -> (r: Option<Hover>)
        ensures
            exists|fname: Seq<char>| #[trigger] ng_model_hover_text(*target, controller_name@, fname) == hover_text(r)->0 && hover_text(r) is Some,
    {
        let file_name = file_name_of(target.uri.as_str());
        let mut s = concat("**", target.property_path.as_str());
        s = cat(s, "** (*ng-model implicit `$scope` property*)\n\nBound via `ng-model` (`$scope` of `");
        s = cat(s, controller_name);
        s = cat(s, "`).\n\nDefined at: `");
        s = cat(s, file_name.as_str());
        s = cat(s, ":");
        let line = one_based_string(target.start_line);
        s = cat(s, line.as_str());
        s = cat(s, "`\n\n---\n\nAngularJS auto-creates this property on `$scope` when the binding fires. For clarity, consider initializing it explicitly in the controller.");
        assert(s@ == ng_model_hover_text(*target, controller_name@, file_name@));
        Some(Hover { contents: s, range: None })
    }

    /// The card of the symbol `symbol_name`; see [`Self::symbol_hover_is`].
    fn build_hover_for_symbol(&self, symbol_name: &str) -> (r: Option<Hover>)
        ensures
            self.symbol_hover_is(symbol_name@, hover_text(r)),
    {
        let definitions = self.index.definitions.get_definitions(symbol_name);
        if definitions.len() == 0 {
            return None;
        }
        let def = &definitions[0];
        let file_name = file_name_of(def.uri.as_str());
        let refs = self.index.get_all_references(symbol_name);
        assert(self.index.all_references_are(symbol_name@, refs@));
        let count = refs.len();
        let mut s = concat("**", def.name.as_str());
        s = cat(s, "** (*");
        s = cat(s, def.kind.as_str());
        s = cat(s, "*)\n\n");
        s = self.push_docs(s, &def.docs);
        s = cat(s, "Defined in: `");
        s = cat(s, file_name.as_str());
        s = cat(s, ":");
        let line = one_based_string(def.definition_span.start_line);
        s = cat(s, line.as_str());
        s = cat(s, "`\n");
        if count > 0 {
            s = cat(s, "\nReferences: ");
            let n = decimal_string(count as u64);
            s = cat(s, n.as_str());
        }
        assert(s@ =~= symbol_hover_text(definitions@[0], file_name@, refs@.len()));
        Some(Hover { contents: s, range: None })
    }

    /// `s` followed by the documentation part of `docs`.
    fn push_docs(&self, s: String, docs: &Option<String>) -> (r: String)
        ensures
            r@ == s@ + docs_part(*docs),
    {
        match docs {
            Some(d) => {
                let t = cat(s, d.as_str());
                let r = cat(t, "\n\n---\n\n");
                assert(r@ =~= s@ + docs_part(*docs));
                r
            },
            None => {
                assert(s@ + docs_part(*docs) =~= s@);
                s
            },
        }
    }

    fn build_hover_for_local_variable(&self, var_def: &HtmlLocalVariable) -> (r: Option<Hover>)
        ensures
            hover_text(r) == Some(local_hover_text(*var_def, list_at(self.index.html@.local_variable_references, var_def.name@)
                .filter(local_reference_within(var_def.uri@, var_def.scope_start_line as int, var_def.scope_end_line as int)).len())),
    {
        let refs = self.index.html.get_local_variable_references(var_def.uri.as_str(), var_def.name.as_str(),
            var_def.scope_start_line, var_def.scope_end_line);
        let mut s = concat("**", var_def.name.as_str());
        s = cat(s, "** (*HTML local variable*)\n\nSource: `");
        s = cat(s, source_str(var_def.source));
        s = cat(s, "`\nScope: lines ");
        let a = one_based_string(var_def.scope_start_line);
        s = cat(s, a.as_str());
        s = cat(s, "-");
        let b = one_based_string(var_def.scope_end_line);
        s = cat(s, b.as_str());
        s = cat(s, "\n\nReferences: ");
        let n = decimal_string(refs.len() as u64);
        s = cat(s, n.as_str());
        assert(s@ =~= local_hover_text(*var_def, refs@.len()));
        Some(Hover { contents: s, range: None })
    }

    fn build_hover_for_form_binding(&self, form_binding: &HtmlFormBinding) -> (r: Option<Hover>)
        ensures
            hover_text(r) == Some(form_hover_text(*form_binding)),
    {
        let mut s = concat("**", form_binding.name.as_str());
        s = cat(s, "** (*form binding*)\n\nAngularJS automatically binds this form to `$scope.");
        s = cat(s, form_binding.name.as_str());
        s = cat(s, "`\n\nScope: lines ");
        let a = one_based_string(form_binding.scope_start_line);
        s = cat(s, a.as_str());
        s = cat(s, "-");
        let b = one_based_string(form_binding.scope_end_line);
        s = cat(s, b.as_str());
        assert(s@ =~= form_hover_text(*form_binding));
        Some(Hover { contents: s, range: None })
    }

    fn build_hover_for_directive(&self, directive_ref: &HtmlDirectiveReference) -> (r: Option<Hover>)
        ensures
            ({
                let ds = list_at(self.index.definitions.defs(), directive_ref.directive_name@);
                if ds.len() == 0 {
                    r is None
                } else {
                    exists|fname: Seq<char>, h: Seq<HtmlDirectiveReference>|
                        #![trigger self.index.html.directive_references_are(directive_ref.directive_name@, h), directive_hover_text(*directive_ref, ds[0], fname, h.len())]
                        self.index.html.directive_references_are(directive_ref.directive_name@, h)
                        && hover_text(r) == Some(directive_hover_text(*directive_ref, ds[0], fname, h.len()))
                }
            }),
    {
        let definitions = self.index.definitions.get_definitions(directive_ref.directive_name.as_str());
        if definitions.len() == 0 {
            return None;
        }
        let def = &definitions[0];
        let file_name = file_name_of(def.uri.as_str());
        let h = self.index.html.get_html_directive_references(directive_ref.directive_name.as_str());
        assert(self.index.html.directive_references_are(directive_ref.directive_name@, h@));
        let count = h.len();
        let usage = match directive_ref.usage_type {
            DirectiveUsageType::Element => "element",
            DirectiveUsageType::Attribute => "attribute",
        };
        let mut s = concat("**", directive_ref.directive_name.as_str());
        s = cat(s, "** (*directive*)\n\nUsed as: `");
        s = cat(s, usage);
        s = cat(s, "`\n\n");
        s = self.push_docs(s, &def.docs);
        s = cat(s, "Defined in: `");
        s = cat(s, file_name.as_str());
        s = cat(s, ":");
        let line = one_based_string(def.definition_span.start_line);
        s = cat(s, line.as_str());
        s = cat(s, "`\n");
        if count > 0 {
            s = cat(s, "\nHTML references: ");
            let n = decimal_string(count as u64);
            s = cat(s, n.as_str());
        }
        assert(s@ =~= directive_hover_text(*directive_ref, definitions@[0], file_name@, h@.len()));
        Some(Hover { contents: s, range: None })
    }
}

/// The first of `controllers` with definitions of `c + mid + prop`.
fn first_with_definitions_exec(index: &Index, controllers: &Vec<String>, mid: &str, prop: &str) -> (r: Option<usize>)
    ensures
        match r {
            Some(k) => k < controllers@.len()
                && first_with_definitions(index.definitions.defs(), views(controllers@), mid@, prop@) == Some(k as int),
            None => first_with_definitions(index.definitions.defs(), views(controllers@), mid@, prop@) is None,
        },
{
    let ghost cs = views(controllers@);
    let ghost defs = index.definitions.defs();
    let mut k: usize = 0;
    while k < controllers.len()
        invariant
            k <= controllers@.len(),
            cs == views(controllers@),
            defs == index.definitions.defs(),
            forall|j: int| 0 <= j < k ==> list_at(defs, #[trigger] cs[j] + mid@ + prop@).len() == 0,
        decreases controllers.len() - k,
    {
        let name = concat(concat(controllers[k].as_str(), mid).as_str(), prop);
        assert(name@ == cs[k as int] + mid@ + prop@);
        if index.definitions.get_definitions(name.as_str()).len() > 0 {
            proof { crate::handler::definition::lemma_first_with_definitions(defs, cs, mid@, prop@, k as int); }
            return Some(k);
        }
        k += 1;
    }
    None
}

} // verus!
