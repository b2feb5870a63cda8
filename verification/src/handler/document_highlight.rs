//! Document highlight: where the symbol at the cursor is used in the same document.
//! Definitions are marked as writes, uses as reads.
use vstd::prelude::*;

use crate::handler::definition::first_with_definitions;
use crate::handler::references::{form_symbol, in_form_scope};
use crate::index::html_resolve::HtmlResolution;
use crate::index::html_store::local_reference_within;
use crate::index::snapshot::list_at;
use crate::index::Index;
use crate::lsp::{Position, Range};
use crate::model::html::{directive_reference_span, form_name_span, local_reference_span, local_variable_name_span};
use crate::model::span::span_range;
use crate::model::{HtmlDirectiveReference, HtmlFormBinding, HtmlLocalVariable, HtmlLocalVariableReference, HtmlUiSrefReference, Symbol, SymbolKind, SymbolReference};
use crate::text::{concat, str_eq, views};
use crate::uri::path_of;
use crate::util::{html_path, is_html_file};

verus! {

/// Whether a highlighted place reads or writes the symbol.
#[derive(Debug, Clone, Copy, PartialEq, Eq, Structural)]
pub enum HighlightKind {
    Text,
    Read,
    Write,
}

/// A highlighted range.
pub struct DocumentHighlight {
    pub range: Range,
    pub kind: HighlightKind,
}

/// The ranges and kinds of `hs`.
pub open spec fn highlights_view(hs: Seq<DocumentHighlight>) -> Seq<(Range, HighlightKind)> {
    hs.map_values(|h: DocumentHighlight| (h.range, h.kind))
}

/// The optional list's view.
pub open spec fn opt_highlights(r: Option<Vec<DocumentHighlight>>) -> Option<Seq<(Range, HighlightKind)>> {
    match r {
        Some(v) => Some(highlights_view(v@)),
        None => None,
    }
}

/// `l`, or nothing when it is empty.
pub open spec fn nonempty_hl(l: Seq<(Range, HighlightKind)>) -> Option<Seq<(Range, HighlightKind)>> {
    if l.len() == 0 { None } else { Some(l) }
}

/// The definitions of `defs` made in `uri` for which `also` holds, each at its whole span
/// as a write.
pub open spec fn def_highlights(defs: Seq<Symbol>, uri: Seq<char>, also: spec_fn(Symbol) -> bool) -> Seq<(Range, HighlightKind)>
    decreases defs.len(),
{
    if defs.len() == 0 {
        Seq::empty()
    } else {
        let p = def_highlights(defs.drop_last(), uri, also);
        let d = defs.last();
        if d.uri@ == uri && also(d) { p.push((span_range(d.definition_span), HighlightKind::Write)) } else { p }
    }
}

/// Any symbol.
pub open spec fn any_symbol() -> spec_fn(Symbol) -> bool {
    |d: Symbol| true
}

/// A symbol of kind `k1` or `k2`.
pub open spec fn kind_is(k1: SymbolKind, k2: SymbolKind) -> spec_fn(Symbol) -> bool {
    |d: Symbol| d.kind == k1 || d.kind == k2
}

/// Any reference.
pub open spec fn any_reference() -> spec_fn(SymbolReference) -> bool {
    |x: SymbolReference| true
}

/// The references of `refs` made in `uri` for which `also` holds, each as a read.
pub open spec fn ref_highlights(refs: Seq<SymbolReference>, uri: Seq<char>, also: spec_fn(SymbolReference) -> bool) -> Seq<(Range, HighlightKind)>
    decreases refs.len(),
{
    if refs.len() == 0 {
        Seq::empty()
    } else {
        let p = ref_highlights(refs.drop_last(), uri, also);
        let x = refs.last();
        if x.uri@ == uri && also(x) { p.push((span_range(x.span), HighlightKind::Read)) } else { p }
    }
}

/// The local variable references of `refs` made in `uri`, each as a read.
pub open spec fn local_highlights(refs: Seq<HtmlLocalVariableReference>, uri: Seq<char>) -> Seq<(Range, HighlightKind)>
    decreases refs.len(),
{
    if refs.len() == 0 {
        Seq::empty()
    } else {
        let p = local_highlights(refs.drop_last(), uri);
        let x = refs.last();
        if x.uri@ == uri { p.push((span_range(local_reference_span(x)), HighlightKind::Read)) } else { p }
    }
}

/// The directive uses of `refs` made in `uri`, each as a read.
pub open spec fn directive_highlights(refs: Seq<HtmlDirectiveReference>, uri: Seq<char>) -> Seq<(Range, HighlightKind)>
    decreases refs.len(),
{
    if refs.len() == 0 {
        Seq::empty()
    } else {
        let p = directive_highlights(refs.drop_last(), uri);
        let x = refs.last();
        if x.uri@ == uri { p.push((span_range(directive_reference_span(x)), HighlightKind::Read)) } else { p }
    }
}

/// For each controller `cs[k]`, the template references `hs[k]` of the form's symbol made
/// in `uri` within the form's scope.
pub open spec fn form_highlights(f: HtmlFormBinding, uri: Seq<char>, cs: Seq<Seq<char>>, hs: Seq<Seq<SymbolReference>>) -> Seq<(Range, HighlightKind)>
    decreases cs.len(),
{
    if cs.len() == 0 || hs.len() < cs.len() {
        Seq::empty()
    } else {
        let k = cs.len() - 1;
        form_highlights(f, uri, cs.drop_last(), hs.take(k)) + ref_highlights(hs[k], uri, in_form_scope(f))
    }
}

fn push_def_highlights(hs: &mut Vec<DocumentHighlight>, defs: &Vec<Symbol>, uri: &str, k1: SymbolKind, k2: SymbolKind, any: bool)
    ensures
        highlights_view(final(hs)@) == highlights_view(old(hs)@)
            + def_highlights(defs@, uri@, if any { any_symbol() } else { kind_is(k1, k2) }),
{
    let ghost also = if any { any_symbol() } else { kind_is(k1, k2) };
    let ghost start = highlights_view(hs@);
    let mut i: usize = 0;
    while i < defs.len()
        invariant
            i <= defs@.len(),
            also == if any { any_symbol() } else { kind_is(k1, k2) },
            highlights_view(hs@) == start + def_highlights(defs@.take(i as int), uri@, also),
        decreases defs.len() - i,
    {
        proof {
            assert(defs@.take(i + 1).drop_last() =~= defs@.take(i as int));
            assert(defs@.take(i + 1).last() == defs@[i as int]);
        }
        let d = &defs[i];
        if str_eq(d.uri.as_str(), uri) && (any || d.kind == k1 || d.kind == k2) {
            let ghost before = hs@;
            hs.push(DocumentHighlight { range: d.definition_span.to_lsp_range(), kind: HighlightKind::Write });
            proof { assert(highlights_view(hs@) =~= highlights_view(before).push((hs@.last().range, hs@.last().kind))); }
        }
        i += 1;
    }
    proof { assert(defs@.take(defs@.len() as int) =~= defs@); }
}

fn push_ref_highlights(hs: &mut Vec<DocumentHighlight>, refs: &Vec<SymbolReference>, uri: &str, scope: Option<&HtmlFormBinding>)
    ensures
        highlights_view(final(hs)@) == highlights_view(old(hs)@)
            + ref_highlights(refs@, uri@, match scope { Some(f) => in_form_scope(*f), None => any_reference() }),
{
    let ghost also = match scope { Some(f) => in_form_scope(*f), None => any_reference() };
    let ghost start = highlights_view(hs@);
    let mut i: usize = 0;
    while i < refs.len()
        invariant
            i <= refs@.len(),
            also == match scope { Some(f) => in_form_scope(*f), None => any_reference() },
            highlights_view(hs@) == start + ref_highlights(refs@.take(i as int), uri@, also),
        decreases refs.len() - i,
    {
        proof {
            assert(refs@.take(i + 1).drop_last() =~= refs@.take(i as int));
            assert(refs@.take(i + 1).last() == refs@[i as int]);
        }
        let x = &refs[i];
        let in_scope = match scope {
            Some(f) => x.span.start_line >= f.scope_start_line && x.span.start_line <= f.scope_end_line,
            None => true,
        };
        if str_eq(x.uri.as_str(), uri) && in_scope {
            let ghost before = hs@;
            hs.push(DocumentHighlight { range: x.span.to_lsp_range(), kind: HighlightKind::Read });
            proof { assert(highlights_view(hs@) =~= highlights_view(before).push((hs@.last().range, hs@.last().kind))); }
        }
        i += 1;
    }
    proof { assert(refs@.take(refs@.len() as int) =~= refs@); }
}

fn push_local_highlights(hs: &mut Vec<DocumentHighlight>, refs: &Vec<HtmlLocalVariableReference>, uri: &str)
    ensures
        highlights_view(final(hs)@) == highlights_view(old(hs)@) + local_highlights(refs@, uri@),
{
    let ghost start = highlights_view(hs@);
    let mut i: usize = 0;
    while i < refs.len()
        invariant
            i <= refs@.len(),
            highlights_view(hs@) == start + local_highlights(refs@.take(i as int), uri@),
        decreases refs.len() - i,
    {
        proof {
            assert(refs@.take(i + 1).drop_last() =~= refs@.take(i as int));
            assert(refs@.take(i + 1).last() == refs@[i as int]);
        }
        if str_eq(refs[i].uri.as_str(), uri) {
            let ghost before = hs@;
            hs.push(DocumentHighlight { range: refs[i].span().to_lsp_range(), kind: HighlightKind::Read });
            proof { assert(highlights_view(hs@) =~= highlights_view(before).push((hs@.last().range, hs@.last().kind))); }
        }
        i += 1;
    }
    proof { assert(refs@.take(refs@.len() as int) =~= refs@); }
}

fn push_directive_highlights(hs: &mut Vec<DocumentHighlight>, refs: &Vec<HtmlDirectiveReference>, uri: &str)
    ensures
        highlights_view(final(hs)@) == highlights_view(old(hs)@) + directive_highlights(refs@, uri@),
{
    let ghost start = highlights_view(hs@);
    let mut i: usize = 0;
    while i < refs.len()
        invariant
            i <= refs@.len(),
            highlights_view(hs@) == start + directive_highlights(refs@.take(i as int), uri@),
        decreases refs.len() - i,
    {
        proof {
            assert(refs@.take(i + 1).drop_last() =~= refs@.take(i as int));
            assert(refs@.take(i + 1).last() == refs@[i as int]);
        }
        if str_eq(refs[i].uri.as_str(), uri) {
            let ghost before = hs@;
            hs.push(DocumentHighlight { range: refs[i].span().to_lsp_range(), kind: HighlightKind::Read });
            proof { assert(highlights_view(hs@) =~= highlights_view(before).push((hs@.last().range, hs@.last().kind))); }
        }
        i += 1;
    }
    proof { assert(refs@.take(refs@.len() as int) =~= refs@); }
}

fn finalize(highlights: Vec<DocumentHighlight>) -> (r: Option<Vec<DocumentHighlight>>)
    ensures
        opt_highlights(r) == nonempty_hl(highlights_view(highlights@)),
{
    if highlights.len() == 0 {
        None
    } else {
        Some(highlights)
    }
}

/// Document highlight over an index.
pub struct DocumentHighlightHandler<'a> {
    pub index: &'a Index,
}

impl<'a> DocumentHighlightHandler<'a> {
    pub fn new(index: &'a Index) -> (r: Self)
        ensures
            r.index == index,
    {
        DocumentHighlightHandler { index }
    }

    /// `r` is the highlights of the symbol `name` in `uri`: its definitions there, then
    /// its script and template references there; nothing when none.
    pub open spec fn symbol_highlights_are(&self, uri: Seq<char>, name: Seq<char>, r: Option<Seq<(Range, HighlightKind)>>) -> bool {
        exists|refs: Seq<SymbolReference>| #[trigger] self.index.all_references_are(name, refs)
            && r == nonempty_hl(def_highlights(list_at(self.index.definitions.defs(), name), uri, any_symbol())
                + ref_highlights(refs, uri, any_reference()))
    }

    /// `r` is the highlights for the scope property `prop` of the controllers `cs`: those
    /// of the first controller's `$scope` symbol that is defined and has some in `uri`,
    /// else (`is_alias`) of its `this` symbol, else of a `$rootScope` symbol; else none.
    pub open spec fn scope_highlights_are(&self, uri: Seq<char>, cs: Seq<Seq<char>>, prop: Seq<char>, is_alias: bool, r: Option<Seq<(Range, HighlightKind)>>) -> bool {
        exists|a: Option<Seq<(Range, HighlightKind)>>| #[trigger] self.first_highlighted(uri, cs, ".$scope."@, prop, a) && match a {
            Some(l) => r == Some(l),
            None => exists|b: Option<Seq<(Range, HighlightKind)>>| #[trigger] self.alias_highlighted(uri, cs, prop, is_alias, b) && match b {
                Some(l) => r == Some(l),
                None => exists|rs: Option<Seq<char>>| #[trigger] self.index.definitions.root_scope_symbol_is(prop, rs) && match rs {
                    Some(n) => self.symbol_highlights_are(uri, n, r),
                    None => r is None,
                },
            },
        }
    }

    /// For an alias, what trying the controllers' `this` symbols gives; nothing otherwise.
    pub open spec fn alias_highlighted(&self, uri: Seq<char>, cs: Seq<Seq<char>>, prop: Seq<char>, is_alias: bool, b: Option<Seq<(Range, HighlightKind)>>) -> bool {
        if is_alias { self.first_highlighted(uri, cs, "."@, prop, b) } else { b is None }
    }

    /// `r` is the highlights of the first of `cs` whose `c + mid + prop` is defined and has
    /// some in `uri`, or nothing when none has.
    pub open spec fn first_highlighted(&self, uri: Seq<char>, cs: Seq<Seq<char>>, mid: Seq<char>, prop: Seq<char>, r: Option<Seq<(Range, HighlightKind)>>) -> bool {
        let defs = self.index.definitions.defs();
        match r {
            Some(l) => exists|k: int| 0 <= k < cs.len() && defs.contains_key(#[trigger] cs[k] + mid + prop)
                && self.symbol_highlights_are(uri, cs[k] + mid + prop, Some(l))
                && forall|j: int| 0 <= j < k && defs.contains_key(#[trigger] cs[j] + mid + prop)
                    ==> self.symbol_highlights_are(uri, cs[j] + mid + prop, None),
            None => forall|k: int| 0 <= k < cs.len() && defs.contains_key(#[trigger] cs[k] + mid + prop)
                ==> self.symbol_highlights_are(uri, cs[k] + mid + prop, None),
        }
    }

    /// `r` is the highlights in `uri` of the form `f`: its name when it is in `uri`, then,
    /// for each controller in effect where its scope starts, the template references of
    /// the form as that controller's property made in `uri` within its scope.
    pub open spec fn form_highlights_are(&self, uri: Seq<char>, f: HtmlFormBinding, r: Option<Seq<(Range, HighlightKind)>>) -> bool {
        exists|cs: Seq<Seq<char>>, hs: Seq<Seq<SymbolReference>>|
            #![trigger self.index.controllers_are(f.uri@, f.scope_start_line as int, cs), form_highlights(f, uri, cs, hs)]
            self.index.controllers_are(f.uri@, f.scope_start_line as int, cs) && hs.len() == cs.len()
            && (forall|k: int| 0 <= k < cs.len() ==> self.index.html_references_hold(form_symbol(#[trigger] cs[k], f.name@), hs[k]))
            && r == nonempty_hl((if f.uri@ == uri { seq![(span_range(form_name_span(f)), HighlightKind::Write)] } else { Seq::empty() })
                + form_highlights(f, uri, cs, hs))
    }

    /// `r` is the highlights in `uri` a template resolution `res` leads to.
    pub open spec fn resolution_highlights_are(&self, uri: Seq<char>, res: HtmlResolution, r: Option<Seq<(Range, HighlightKind)>>) -> bool {
        let defs = self.index.definitions.defs();
        let lrefs = self.index.html@.local_variable_references;
        match res {
            HtmlResolution::UiSref(x) => r == nonempty_hl(ref_highlights(list_at(self.index.definitions.refs(), x.state_name@), uri, any_reference())
                + def_highlights(list_at(defs, x.state_name@), uri, kind_is(SymbolKind::UiRouterState, SymbolKind::UiRouterState))),
            HtmlResolution::Directive(x) => exists|h: Seq<HtmlDirectiveReference>| #[trigger] self.index.html.directive_references_are(x.directive_name@, h)
                && r == nonempty_hl(def_highlights(list_at(defs, x.directive_name@), uri, kind_is(SymbolKind::Directive, SymbolKind::Component))
                    + directive_highlights(h, uri)),
            HtmlResolution::LocalVarDef(v) | HtmlResolution::LocalVarRef(v) => r == nonempty_hl(
                (if v.uri@ == uri { seq![(span_range(local_variable_name_span(v)), HighlightKind::Write)] } else { Seq::empty() })
                + local_highlights(list_at(lrefs, v.name@).filter(local_reference_within(v.uri@, v.scope_start_line as int, v.scope_end_line as int)), uri)),
            HtmlResolution::InheritedLocalVar(v) => exists|inh: Seq<HtmlLocalVariableReference>|
                #[trigger] self.index.templates.inherited_references_are(v.uri@, v.name@, list_at(lrefs, v.name@), inh)
                && r == nonempty_hl(local_highlights(inh, uri)),
            HtmlResolution::FormBindingDef(f) => self.form_highlights_are(uri, f, r),
            HtmlResolution::InheritedFormBinding(f) => self.form_highlights_are(uri, f, r),
            HtmlResolution::Scope { controllers, property_path, is_alias } =>
                self.scope_highlights_are(uri, views(controllers@), property_path@, is_alias, r),
        }
    }

    /// `r` is what document highlight gives at `position` of `uri`.
    pub open spec fn highlights_are(&self, uri: Seq<char>, position: Position, r: Option<Seq<(Range, HighlightKind)>>) -> bool {
        let line = position.line as int;
        let col = position.character as int;
        if html_path(path_of(uri)) {
            exists|res: Option<HtmlResolution>| #[trigger] self.index.html_resolution_holds(uri, line, col, None, res) && match res {
                Some(x) => self.resolution_highlights_are(uri, x, r),
                None => r is None,
            }
        } else if self.index.definitions.hits_at(uri, line, col).len() == 0 {
            r is None
        } else {
            exists|n: Seq<char>| #[trigger] self.index.definitions.symbol_at_is(uri, line, col, n) && self.symbol_highlights_are(uri, n, r)
        }
    }

    /// The places in `uri` where what the cursor at `position` is on is used.
    pub fn document_highlight(&self, uri: &str, position: Position) -> (r: Option<Vec<DocumentHighlight>>)
        requires
            !html_path(path_of(uri@)) ==> self.index.definitions.hits_measurable(uri@, position.line as int, position.character as int),
        ensures
            self.highlights_are(uri@, position, opt_highlights(r)),
    {
        if is_html_file(uri) {
            let res = self.index.resolve_html_position(uri, position, None);
            assert(self.index.html_resolution_holds(uri@, position.line as int, position.character as int, None, res));
            return match res {
                None => None,
                Some(x) => self.highlight_for_resolution(uri, x),
            };
        }
        let name = self.index.definitions.find_symbol_at_position(uri, position.line, position.character);
        match name {
            Some(n) => {
                assert(self.index.definitions.symbol_at_is(uri@, position.line as int, position.character as int, n@));
                self.collect_symbol_highlights_in_uri(uri, n.as_str())
            },
            None => None,
        }
    }

    fn highlight_for_resolution(&self, uri: &str, res: HtmlResolution) -> (r: Option<Vec<DocumentHighlight>>)
        ensures
            self.resolution_highlights_are(uri@, res, opt_highlights(r)),
    {
        let ghost res0 = res;
        let r = match res {
            HtmlResolution::UiSref(x) => self.highlight_for_ui_sref(uri, &x),
            HtmlResolution::Directive(x) => self.highlight_for_directive(uri, x.directive_name.as_str()),
            HtmlResolution::LocalVarDef(v) | HtmlResolution::LocalVarRef(v) => self.highlight_for_local_variable(uri, &v),
            HtmlResolution::InheritedLocalVar(v) => self.highlight_for_inherited_local_variable(uri, &v),
            HtmlResolution::FormBindingDef(f) | HtmlResolution::InheritedFormBinding(f) => self.highlight_for_form_binding(uri, &f),
            HtmlResolution::Scope { controllers, property_path, is_alias } =>
                self.highlight_for_scope(uri, &controllers, property_path.as_str(), is_alias),
        };
        r
    }

    fn highlight_for_ui_sref(&self, uri: &str, ui_sref: &HtmlUiSrefReference) -> (r: Option<Vec<DocumentHighlight>>)
        ensures
            opt_highlights(r) == nonempty_hl(ref_highlights(list_at(self.index.definitions.refs(), ui_sref.state_name@), uri@, any_reference())
                + def_highlights(list_at(self.index.definitions.defs(), ui_sref.state_name@), uri@, kind_is(SymbolKind::UiRouterState, SymbolKind::UiRouterState))),
    {
        let mut hs: Vec<DocumentHighlight> = Vec::new();
        let refs = self.index.definitions.get_references(ui_sref.state_name.as_str());
        push_ref_highlights(&mut hs, &refs, uri, None);
        let defs = self.index.definitions.get_definitions(ui_sref.state_name.as_str());
        push_def_highlights(&mut hs, &defs, uri, SymbolKind::UiRouterState, SymbolKind::UiRouterState, false);
        finalize(hs)
    }

    fn highlight_for_directive(&self, uri: &str, directive_name: &str) -> (r: Option<Vec<DocumentHighlight>>)
        ensures
            exists|h: Seq<HtmlDirectiveReference>| #[trigger] self.index.html.directive_references_are(directive_name@, h)
                && opt_highlights(r) == nonempty_hl(def_highlights(list_at(self.index.definitions.defs(), directive_name@), uri@,
                    kind_is(SymbolKind::Directive, SymbolKind::Component)) + directive_highlights(h, uri@)),
    {
        let mut hs: Vec<DocumentHighlight> = Vec::new();
        let defs = self.index.definitions.get_definitions(directive_name);
        push_def_highlights(&mut hs, &defs, uri, SymbolKind::Directive, SymbolKind::Component, false);
        let h = self.index.html.get_html_directive_references(directive_name);
        assert(self.index.html.directive_references_are(directive_name@, h@));
        push_directive_highlights(&mut hs, &h, uri);
        finalize(hs)
    }

    fn highlight_for_local_variable(&self, uri: &str, var_def: &HtmlLocalVariable) -> (r: Option<Vec<DocumentHighlight>>)
        ensures
            opt_highlights(r) == nonempty_hl(
                (if var_def.uri@ == uri@ { seq![(span_range(local_variable_name_span(*var_def)), HighlightKind::Write)] } else { Seq::empty() })
                + local_highlights(list_at(self.index.html@.local_variable_references, var_def.name@)
                    .filter(local_reference_within(var_def.uri@, var_def.scope_start_line as int, var_def.scope_end_line as int)), uri@)),
    {
        let mut hs: Vec<DocumentHighlight> = Vec::new();
        if str_eq(var_def.uri.as_str(), uri) {
            hs.push(DocumentHighlight { range: var_def.name_span().to_lsp_range(), kind: HighlightKind::Write });
            assert(highlights_view(hs@) =~= seq![(span_range(local_variable_name_span(*var_def)), HighlightKind::Write)]);
        } else {
            assert(highlights_view(hs@) =~= Seq::empty());
        }
        let refs = self.index.html.get_local_variable_references(var_def.uri.as_str(), var_def.name.as_str(),
            var_def.scope_start_line, var_def.scope_end_line);
        push_local_highlights(&mut hs, &refs, uri);
        finalize(hs)
    }

    fn highlight_for_inherited_local_variable(&self, uri: &str, var_def: &HtmlLocalVariable) -> (r: Option<Vec<DocumentHighlight>>)
        ensures
            exists|inh: Seq<HtmlLocalVariableReference>|
                #[trigger] self.index.templates.inherited_references_are(var_def.uri@, var_def.name@, list_at(self.index.html@.local_variable_references, var_def.name@), inh)
                && opt_highlights(r) == nonempty_hl(local_highlights(inh, uri@)),
    {
        let mut hs: Vec<DocumentHighlight> = Vec::new();
        let all = self.index.html.html_local_variable_references_raw(var_def.name.as_str());
        let inherited = self.index.templates.get_inherited_local_variable_references(var_def.uri.as_str(), var_def.name.as_str(), &all);
        assert(self.index.templates.inherited_references_are(var_def.uri@, var_def.name@, all@, inherited@));
        push_local_highlights(&mut hs, &inherited, uri);
        assert(highlights_view(hs@) =~= local_highlights(inherited@, uri@));
        finalize(hs)
    }

    fn highlight_for_form_binding(&self, uri: &str, form_binding: &HtmlFormBinding) -> (r: Option<Vec<DocumentHighlight>>)
        ensures
            self.form_highlights_are(uri@, *form_binding, opt_highlights(r)),
    {
        let mut out: Vec<DocumentHighlight> = Vec::new();
        if str_eq(form_binding.uri.as_str(), uri) {
            out.push(DocumentHighlight { range: form_binding.name_span().to_lsp_range(), kind: HighlightKind::Write });
            assert(highlights_view(out@) =~= seq![(span_range(form_name_span(*form_binding)), HighlightKind::Write)]);
        } else {
            assert(highlights_view(out@) =~= Seq::empty());
        }
        let ghost head = highlights_view(out@);
        let controllers = self.index.resolve_controllers_for_html(form_binding.uri.as_str(), form_binding.scope_start_line);
        let ghost cs = views(controllers@);
        assert(self.index.controllers_are(form_binding.uri@, form_binding.scope_start_line as int, cs));
        let ghost mut hs: Seq<Seq<SymbolReference>> = Seq::empty();
        let mut k: usize = 0;
        while k < controllers.len()
            invariant
                k <= controllers@.len(),
                cs == views(controllers@),
                hs.len() == k,
                forall|j: int| 0 <= j < k ==> self.index.html_references_hold(form_symbol(#[trigger] cs[j], form_binding.name@), hs[j]),
                highlights_view(out@) == head + form_highlights(*form_binding, uri@, cs.take(k as int), hs),
            decreases controllers.len() - k,
        {
            let symbol_name = concat(concat(controllers[k].as_str(), ".$scope.").as_str(), form_binding.name.as_str());
            assert(symbol_name@ == form_symbol(cs[k as int], form_binding.name@));
            let html = self.index.get_html_references_for_symbol(symbol_name.as_str());
            push_ref_highlights(&mut out, &html, uri, Some(form_binding));
            proof {
                assert(cs.take(k + 1).drop_last() =~= cs.take(k as int));
                assert(hs.push(html@).take(k as int) =~= hs);
                hs = hs.push(html@);
                assert(highlights_view(out@) =~= head + form_highlights(*form_binding, uri@, cs.take(k + 1), hs));
            }
            k += 1;
        }
        proof { assert(cs.take(cs.len() as int) =~= cs); }
        finalize(out)
    }

    /// The highlights of the symbol `symbol_name` in `uri`.
    fn collect_symbol_highlights_in_uri(&self, uri: &str, symbol_name: &str) -> (r: Option<Vec<DocumentHighlight>>)
        ensures
            self.symbol_highlights_are(uri@, symbol_name@, opt_highlights(r)),
    {
        let mut hs: Vec<DocumentHighlight> = Vec::new();
        let defs = self.index.definitions.get_definitions(symbol_name);
        push_def_highlights(&mut hs, &defs, uri, SymbolKind::Module, SymbolKind::Module, true);
        let refs = self.index.get_all_references(symbol_name);
        assert(self.index.all_references_are(symbol_name@, refs@));
        push_ref_highlights(&mut hs, &refs, uri, None);
        finalize(hs)
    }

    fn first_highlighted_exec(&self, uri: &str, controllers: &Vec<String>, mid: &str, prop: &str) -> (r: Option<Vec<DocumentHighlight>>)
        ensures
            self.first_highlighted(uri@, views(controllers@), mid@, prop@, opt_highlights(r)),
    {
        let ghost cs = views(controllers@);
        let ghost defs = self.index.definitions.defs();
        let mut k: usize = 0;
        while k < controllers.len()
            invariant
                k <= controllers@.len(),
                cs == views(controllers@),
                defs == self.index.definitions.defs(),
                forall|j: int| 0 <= j < k && defs.contains_key(#[trigger] cs[j] + mid@ + prop@)
                    ==> self.symbol_highlights_are(uri@, cs[j] + mid@ + prop@, None),
            decreases controllers.len() - k,
        {
            let name = concat(concat(controllers[k].as_str(), mid).as_str(), prop);
            assert(name@ == cs[k as int] + mid@ + prop@);
            if self.index.definitions.has_definition(name.as_str()) {
                let found = self.collect_symbol_highlights_in_uri(uri, name.as_str());
                match found {
                    Some(l) => {
                        return Some(l);
                    },
                    None => {},
                }
            }
            k += 1;
        }
        None
    }

    fn highlight_for_scope(&self, uri: &str, controllers: &Vec<String>, property_path: &str, is_alias: bool) -> (r: Option<Vec<DocumentHighlight>>)
        ensures
            self.scope_highlights_are(uri@, views(controllers@), property_path@, is_alias, opt_highlights(r)),
    {
        let a = self.first_highlighted_exec(uri, controllers, ".$scope.", property_path);
        assert(self.first_highlighted(uri@, views(controllers@), ".$scope."@, property_path@, opt_highlights(a)));
        if a.is_some() {
            return a;
        }
        let b = if is_alias {
            self.first_highlighted_exec(uri, controllers, ".", property_path)
        } else {
            None
        };
        assert(self.alias_highlighted(uri@, views(controllers@), property_path@, is_alias, opt_highlights(b)));
        if b.is_some() {
            return b;
        }
        let rs = self.index.definitions.find_root_scope_symbol_name_by_property(property_path);
        assert(self.index.definitions.root_scope_symbol_is(property_path@, crate::index::query::opt_view(rs)));
        match rs {
            Some(n) => self.collect_symbol_highlights_in_uri(uri, n.as_str()),
            None => None,
        }
    }
}

} // verus!
