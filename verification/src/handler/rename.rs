//! Rename: the edits that rename the symbol, local variable or form at the cursor
//! everywhere it is defined and used, grouped by document.
use vstd::prelude::*;

use crate::handler::code_action::split_alias_and_property;
use crate::handler::diagnostics::path_alias;
use crate::handler::references::{form_symbol, in_form_scope};
use crate::handler::resolve::{first_segment, first_segment_of};
use crate::index::html_store::{first_found, form_name_at, local_reference_within, local_variable_name_at, scope_reference_at, scope_reference_span};
use crate::index::query::opt_view;
use crate::index::snapshot::list_at;
use crate::index::Index;
use crate::lsp::{Position, Range};
use crate::model::html::{form_name_span, local_reference_span, local_variable_name_span};
use crate::model::span::{span_range, Span};
use crate::model::{HtmlFormBinding, HtmlLocalVariable, HtmlLocalVariableReference, HtmlScopeReference, Symbol, SymbolReference};
use crate::text::{chars_of, concat, str_eq, string_from_chars, views};
use crate::uri::path_of;
use crate::util::{html_path, is_html_file};

verus! {

/// A replacement of a range's text.
pub struct TextEdit {
    pub range: Range,
    pub new_text: String,
}

/// Edits grouped by document: each document once, with its edits in order.
pub struct WorkspaceEdit {
    pub changes: Vec<(String, Vec<TextEdit>)>,
}

/// The ranges and texts of `es`.
pub open spec fn edits_view(es: Seq<TextEdit>) -> Seq<(Range, Seq<char>)> {
    es.map_values(|e: TextEdit| (e.range, e.new_text@))
}

/// The edits of each document of `e`.
pub open spec fn changes_view(e: Seq<(String, Vec<TextEdit>)>) -> Map<Seq<char>, Seq<(Range, Seq<char>)>>
    decreases e.len(),
{
    if e.len() == 0 {
        Map::empty()
    } else {
        changes_view(e.drop_last()).insert(e.last().0@, edits_view(e.last().1@))
    }
}

/// No document comes twice in `e`.
pub open spec fn distinct_documents(e: Seq<(String, Vec<TextEdit>)>) -> bool {
    forall|i: int, j: int| 0 <= i < j < e.len() ==> e[i].0@ != e[j].0@
}

/// The edits of `places`, each replacing its range with `text`, grouped by document in
/// the order they come.
pub open spec fn grouped(places: Seq<(Seq<char>, Range)>, text: Seq<char>) -> Map<Seq<char>, Seq<(Range, Seq<char>)>>
    decreases places.len(),
{
    if places.len() == 0 {
        Map::empty()
    } else {
        let m = grouped(places.drop_last(), text);
        let (u, r) = places.last();
        m.insert(u, (if m.contains_key(u) { m[u] } else { Seq::empty() }).push((r, text)))
    }
}

/// A workspace edit's view: its documents' edits, when there is one.
pub open spec fn opt_changes(r: Option<WorkspaceEdit>) -> Option<Map<Seq<char>, Seq<(Range, Seq<char>)>>> {
    match r {
        Some(w) => Some(changes_view(w.changes@)),
        None => None,
    }
}

/// The edit of `places`, or none when there are none.
pub open spec fn edit_of(places: Seq<(Seq<char>, Range)>, text: Seq<char>) -> Option<Map<Seq<char>, Seq<(Range, Seq<char>)>>> {
    if places.len() == 0 { None } else { Some(grouped(places, text)) }
}

/// Each definition's document and name span.
pub open spec fn name_places(defs: Seq<Symbol>) -> Seq<(Seq<char>, Range)> {
    defs.map_values(|d: Symbol| (d.uri@, span_range(d.name_span)))
}

/// Each reference's document and span.
pub open spec fn ref_places(refs: Seq<SymbolReference>) -> Seq<(Seq<char>, Range)> {
    refs.map_values(|x: SymbolReference| (x.uri@, span_range(x.span)))
}

/// Each local variable reference's document and span.
pub open spec fn local_places(refs: Seq<HtmlLocalVariableReference>) -> Seq<(Seq<char>, Range)> {
    refs.map_values(|x: HtmlLocalVariableReference| (x.uri@, span_range(local_reference_span(x))))
}

/// For each controller `cs[k]` in turn: the template references `hs[k]` of the form's
/// symbol within the form's scope, then its script references.
pub open spec fn form_places(refs: Map<Seq<char>, Seq<SymbolReference>>, f: HtmlFormBinding, cs: Seq<Seq<char>>, hs: Seq<Seq<SymbolReference>>) -> Seq<(Seq<char>, Range)>
    decreases cs.len(),
{
    if cs.len() == 0 || hs.len() < cs.len() {
        Seq::empty()
    } else {
        let k = cs.len() - 1;
        form_places(refs, f, cs.drop_last(), hs.take(k)) + ref_places(hs[k].filter(in_form_scope(f)))
            + ref_places(list_at(refs, form_symbol(cs[k], f.name@)))
    }
}

/// The edits of each document of `e` after adding `edit` to the document `uri`.
proof fn lemma_changes_update(e: Seq<(String, Vec<TextEdit>)>, j: int, v: Vec<TextEdit>)
    requires
        distinct_documents(e),
        0 <= j < e.len(),
    ensures
        distinct_documents(e.update(j, (e[j].0, v))),
        changes_view(e.update(j, (e[j].0, v))) == changes_view(e).insert(e[j].0@, edits_view(v@)),
    decreases e.len(),
{
    let e2 = e.update(j, (e[j].0, v));
    if j == e.len() - 1 {
        assert(e2.drop_last() =~= e.drop_last());
        assert(changes_view(e2) =~= changes_view(e).insert(e[j].0@, edits_view(v@)));
    } else {
        lemma_changes_update(e.drop_last(), j, v);
        assert(e2.drop_last() =~= e.drop_last().update(j, (e[j].0, v)));
        assert(e.last().0@ != e[j].0@);
        assert(changes_view(e2) =~= changes_view(e).insert(e[j].0@, edits_view(v@)));
    }
}

/// Appends an edit replacing `range` of `uri` with `text` to the document's edits.
fn add_edit(changes: &mut Vec<(String, Vec<TextEdit>)>, uri: &str, range: Range, text: &str)
    requires
        distinct_documents(old(changes)@),
    ensures
        distinct_documents(final(changes)@),
        changes_view(final(changes)@) == changes_view(old(changes)@).insert(uri@,
            (if changes_view(old(changes)@).contains_key(uri@) { changes_view(old(changes)@)[uri@] } else { Seq::empty() }).push((range, text@))),
{
    let ghost e = changes@;
    let mut j: usize = 0;
    while j < changes.len()
        invariant
            j <= changes@.len(),
            changes@ == e,
            e == old(changes)@,
            distinct_documents(e),
            forall|k: int| 0 <= k < j ==> (#[trigger] e[k]).0@ != uri@,
        decreases changes.len() - j,
    {
        if str_eq(changes[j].0.as_str(), uri) {
            proof { lemma_changes_has(e, j as int); }
            let (key, mut edits) = changes.remove(j);
            let ghost before = edits@;
            edits.push(TextEdit { range, new_text: text.to_owned() });
            proof {
                lemma_changes_update(e, j as int, edits);
                assert(edits_view(edits@) =~= edits_view(before).push((range, text@)));
            }
            changes.insert(j, (key, edits));
            assert(changes@ =~= e.update(j as int, (e[j as int].0, edits)));
            assert(e[j as int].0@ == uri@);
            assert(changes_view(e).contains_key(uri@));
            assert(changes_view(e)[uri@] == edits_view(before));
            assert(changes_view(changes@) == changes_view(e).insert(uri@, edits_view(edits@)));
            return;
        }
        j += 1;
    }
    proof { lemma_changes_lacks(e, uri@); }
    let mut edits: Vec<TextEdit> = Vec::new();
    edits.push(TextEdit { range, new_text: text.to_owned() });
    assert(edits_view(edits@) =~= seq![(range, text@)]);
    changes.push((uri.to_owned(), edits));
    proof { assert(changes@.drop_last() =~= e); }
}

/// The document of an entry has its edits in the view.
proof fn lemma_changes_has(e: Seq<(String, Vec<TextEdit>)>, j: int)
    requires
        distinct_documents(e),
        0 <= j < e.len(),
    ensures
        changes_view(e).contains_key(e[j].0@),
        changes_view(e)[e[j].0@] == edits_view(e[j].1@),
    decreases e.len(),
{
    if j < e.len() - 1 {
        lemma_changes_has(e.drop_last(), j);
    }
}

/// A document of no entry is not in the view.
proof fn lemma_changes_lacks(e: Seq<(String, Vec<TextEdit>)>, u: Seq<char>)
    requires
        forall|k: int| 0 <= k < e.len() ==> (#[trigger] e[k]).0@ != u,
    ensures
        !changes_view(e).contains_key(u),
    decreases e.len(),
{
    if e.len() > 0 {
        lemma_changes_lacks(e.drop_last(), u);
    }
}

/// Adds the edits of `places` to `changes`, in order.
fn add_places(changes: &mut Vec<(String, Vec<TextEdit>)>, places: &Vec<(String, Range)>, text: &str, Ghost(before): Ghost<Seq<(Seq<char>, Range)>>)
    requires
        distinct_documents(old(changes)@),
        changes_view(old(changes)@) == grouped(before, text@),
    ensures
        distinct_documents(final(changes)@),
        changes_view(final(changes)@) == grouped(before + places@.map_values(|p: (String, Range)| (p.0@, p.1)), text@),
{
    let ghost ps = places@.map_values(|p: (String, Range)| (p.0@, p.1));
    let mut i: usize = 0;
    while i < places.len()
        invariant
            i <= places@.len(),
            ps == places@.map_values(|p: (String, Range)| (p.0@, p.1)),
            distinct_documents(changes@),
            changes_view(changes@) == grouped(before + ps.take(i as int), text@),
        decreases places.len() - i,
    {
        add_edit(changes, places[i].0.as_str(), places[i].1, text);
        proof {
            assert((before + ps.take(i + 1)).drop_last() =~= before + ps.take(i as int));
            assert((before + ps.take(i + 1)).last() == ps[i as int]);
        }
        i += 1;
    }
    proof { assert(ps.take(places@.len() as int) =~= ps); }
}

/// The places of `defs`' names.
fn def_name_places(defs: &Vec<Symbol>) -> (r: Vec<(String, Range)>)
    ensures
        r@.map_values(|p: (String, Range)| (p.0@, p.1)) == name_places(defs@),
{
    let mut r: Vec<(String, Range)> = Vec::new();
    let mut i: usize = 0;
    while i < defs.len()
        invariant
            i <= defs@.len(),
            r@.map_values(|p: (String, Range)| (p.0@, p.1)) == name_places(defs@.take(i as int)),
        decreases defs.len() - i,
    {
        let ghost before = r@;
        r.push((defs[i].uri.clone(), defs[i].name_span.to_lsp_range()));
        proof {
            assert(name_places(defs@.take(i + 1)) =~= name_places(defs@.take(i as int)).push((defs@[i as int].uri@, span_range(defs@[i as int].name_span))));
            assert(r@.map_values(|p: (String, Range)| (p.0@, p.1)) =~= before.map_values(|p: (String, Range)| (p.0@, p.1)).push((r@.last().0@, r@.last().1)));
        }
        i += 1;
    }
    proof { assert(defs@.take(defs@.len() as int) =~= defs@); }
    r
}

/// The places of `refs`.
fn symbol_ref_places(refs: &Vec<SymbolReference>) -> (r: Vec<(String, Range)>)
    ensures
        r@.map_values(|p: (String, Range)| (p.0@, p.1)) == ref_places(refs@),
{
    let mut r: Vec<(String, Range)> = Vec::new();
    let mut i: usize = 0;
    while i < refs.len()
        invariant
            i <= refs@.len(),
            r@.map_values(|p: (String, Range)| (p.0@, p.1)) == ref_places(refs@.take(i as int)),
        decreases refs.len() - i,
    {
        let ghost before = r@;
        r.push((refs[i].uri.clone(), refs[i].span.to_lsp_range()));
        proof {
            assert(ref_places(refs@.take(i + 1)) =~= ref_places(refs@.take(i as int)).push((refs@[i as int].uri@, span_range(refs@[i as int].span))));
            assert(r@.map_values(|p: (String, Range)| (p.0@, p.1)) =~= before.map_values(|p: (String, Range)| (p.0@, p.1)).push((r@.last().0@, r@.last().1)));
        }
        i += 1;
    }
    proof { assert(refs@.take(refs@.len() as int) =~= refs@); }
    r
}

/// The places of local variable references.
fn local_ref_places(refs: &Vec<HtmlLocalVariableReference>) -> (r: Vec<(String, Range)>)
    ensures
        r@.map_values(|p: (String, Range)| (p.0@, p.1)) == local_places(refs@),
{
    let mut r: Vec<(String, Range)> = Vec::new();
    let mut i: usize = 0;
    while i < refs.len()
        invariant
            i <= refs@.len(),
            r@.map_values(|p: (String, Range)| (p.0@, p.1)) == local_places(refs@.take(i as int)),
        decreases refs.len() - i,
    {
        let ghost before = r@;
        r.push((refs[i].uri.clone(), refs[i].span().to_lsp_range()));
        proof {
            assert(local_places(refs@.take(i + 1)) =~= local_places(refs@.take(i as int)).push((refs@[i as int].uri@, span_range(local_reference_span(refs@[i as int])))));
            assert(r@.map_values(|p: (String, Range)| (p.0@, p.1)) =~= before.map_values(|p: (String, Range)| (p.0@, p.1)).push((r@.last().0@, r@.last().1)));
        }
        i += 1;
    }
    proof { assert(refs@.take(refs@.len() as int) =~= refs@); }
    r
}

/// Whether `span` covers `line` and, on a one-line span, `col`.
pub open spec fn span_covers(s: Span, line: int, col: int) -> bool {
    s.start_line <= line <= s.end_line
        && (s.start_line == s.end_line ==> s.start_col <= col <= s.end_col)
}

fn covers(s: &Span, line: u32, col: u32) -> (r: bool)
    ensures
        r == span_covers(*s, line as int, col as int),
{
    if line < s.start_line || line > s.end_line {
        return false;
    }
    if s.start_line == s.end_line {
        col >= s.start_col && col <= s.end_col
    } else {
        true
    }
}

/// Rename over an index.
pub struct RenameHandler<'a> {
    pub index: &'a Index,
}

impl<'a> RenameHandler<'a> {
    pub fn new(index: &'a Index) -> (r: Self)
        ensures
            r.index == index,
    {
        RenameHandler { index }
    }

    /// `r` is the edit renaming the symbol `name` to `text`: its definitions' names, then
    /// its script and template references; none when there are none.
    pub open spec fn symbol_edit_is(&self, name: Seq<char>, text: Seq<char>, r: Option<Map<Seq<char>, Seq<(Range, Seq<char>)>>>) -> bool {
        exists|refs: Seq<SymbolReference>| #[trigger] self.index.all_references_are(name, refs)
            && r == edit_of(name_places(list_at(self.index.definitions.defs(), name)) + ref_places(refs), text)
    }

    /// The edit renaming the local variable `v`: its name, then its references within its
    /// scope in its template.
    pub open spec fn local_edit(&self, v: HtmlLocalVariable, text: Seq<char>) -> Map<Seq<char>, Seq<(Range, Seq<char>)>> {
        grouped(seq![(v.uri@, span_range(local_variable_name_span(v)))]
            + local_places(list_at(self.index.html@.local_variable_references, v.name@)
                .filter(local_reference_within(v.uri@, v.scope_start_line as int, v.scope_end_line as int))), text)
    }

    /// `r` is the edit renaming the form `f` from the template `uri`: its name, then, for
    /// each controller in effect at the form's scope in `uri`, the form's references as that
    /// controller's property.
    pub open spec fn form_edit_is(&self, uri: Seq<char>, f: HtmlFormBinding, text: Seq<char>, r: Map<Seq<char>, Seq<(Range, Seq<char>)>>) -> bool {
        exists|cs: Seq<Seq<char>>, hs: Seq<Seq<SymbolReference>>|
            #![trigger self.index.controllers_are(uri, f.scope_start_line as int, cs), form_places(self.index.definitions.refs(), f, cs, hs)]
            self.index.controllers_are(uri, f.scope_start_line as int, cs) && hs.len() == cs.len()
            && (forall|k: int| 0 <= k < cs.len() ==> self.index.html_references_hold(form_symbol(#[trigger] cs[k], f.name@), hs[k]))
            && r == grouped(seq![(f.uri@, span_range(form_name_span(f)))] + form_places(self.index.definitions.refs(), f, cs, hs), text)
    }

    /// `n` is the symbol a scope path `p` at `line` of `uri` is renamed as: the alias's
    /// controller, or the controller in effect, with `$scope.prop`, unless only (for an
    /// alias) the controller's own `prop` has definitions; none without a controller.
    pub open spec fn scope_symbol_is(&self, uri: Seq<char>, line: int, p: Seq<char>, n: Option<Seq<char>>) -> bool {
        let defs = self.index.definitions.defs();
        exists|res: Option<Seq<char>>| #[trigger] crate::handler::resolve::alias_step(self.index, uri, line, p, res) && {
            let prop = crate::handler::references::scope_prop(p, res);
            exists|c: Option<Seq<char>>| #[trigger] self.controller_step(uri, line, res, c) && match c {
                None => n is None,
                Some(c) => {
                    let scope_symbol = c + ".$scope."@ + prop;
                    let method_symbol = c + "."@ + prop;
                    n == Some(if list_at(defs, scope_symbol).len() == 0 && res is Some && list_at(defs, method_symbol).len() > 0 {
                        method_symbol
                    } else {
                        scope_symbol
                    })
                },
            }
        }
    }

    /// `c` is the named controller, or the controller in effect at `line`.
    pub open spec fn controller_step(&self, uri: Seq<char>, line: int, res: Option<Seq<char>>, c: Option<Seq<char>>) -> bool {
        match res {
            Some(x) => c == Some(x),
            None => self.index.controller_for_html_is(uri, line, c),
        }
    }

    /// `r` is the rename edit at `(line, col)` of the template `uri`.
    pub open spec fn html_rename_is(&self, uri: Seq<char>, line: int, col: int, text: Seq<char>, r: Option<Map<Seq<char>, Seq<(Range, Seq<char>)>>>) -> bool {
        let ix = self.index;
        let vars = list_at(ix.html@.local_variables, uri);
        let forms = list_at(ix.html@.form_bindings, uri);
        let scopes = list_at(ix.html@.scope_references, uri);
        exists|vd: Option<HtmlLocalVariable>| #[trigger] first_found(vars, local_variable_name_at(line, col), vd) && match vd {
            Some(x) => r == Some(self.local_edit(x, text)),
            None => exists|lr: Option<HtmlLocalVariableReference>, def: Option<HtmlLocalVariable>|
                #![trigger ix.html.local_reference_at_is(uri, line, col, lr), self.used_definition(uri, line, lr, def)]
                ix.html.local_reference_at_is(uri, line, col, lr) && self.used_definition(uri, line, lr, def) && match def {
                Some(x) => r == Some(self.local_edit(x, text)),
                None => exists|fb: Option<HtmlFormBinding>| #[trigger] first_found(forms, form_name_at(line, col), fb) && match fb {
                    Some(x) => exists|m: Map<Seq<char>, Seq<(Range, Seq<char>)>>| #[trigger] self.form_edit_is(uri, x, text, m) && r == Some(m),
                    None => exists|h: Option<HtmlScopeReference>| #[trigger] first_found(scopes, scope_reference_at(line, col), h) && match h {
                        None => r is None,
                        Some(h) => {
                            let base = first_segment(h.property_path@);
                            exists|f: Option<HtmlFormBinding>| #[trigger] ix.form_definition_is(uri, base, line, f) && match f {
                                Some(x) => exists|m: Map<Seq<char>, Seq<(Range, Seq<char>)>>| #[trigger] self.form_edit_is(uri, x, text, m) && r == Some(m),
                                None => exists|v: Option<HtmlLocalVariable>| #[trigger] ix.local_definition_is(uri, base, line, v) && match v {
                                    Some(x) => r == Some(self.local_edit(x, text)),
                                    None => exists|n: Option<Seq<char>>| #[trigger] self.scope_symbol_is(uri, line, h.property_path@, n) && match n {
                                        Some(n) => self.symbol_edit_is(n, text, r),
                                        None => r is None,
                                    },
                                },
                            }
                        },
                    },
                },
            },
        }
    }

    /// `def` is the definition of the local variable used at `lr` (none without one).
    pub open spec fn used_definition(&self, uri: Seq<char>, line: int, lr: Option<HtmlLocalVariableReference>, def: Option<HtmlLocalVariable>) -> bool {
        match lr {
            Some(v) => self.index.local_definition_is(uri, v.variable_name@, line, def),
            None => def is None,
        }
    }

    /// `r` is the rename edit at `position` of `uri` to `text`.
    pub open spec fn rename_is(&self, uri: Seq<char>, position: Position, text: Seq<char>, r: Option<Map<Seq<char>, Seq<(Range, Seq<char>)>>>) -> bool {
        let line = position.line as int;
        let col = position.character as int;
        if html_path(path_of(uri)) {
            self.html_rename_is(uri, line, col, text, r)
        } else if self.index.definitions.hits_at(uri, line, col).len() == 0 {
            r is None
        } else {
            exists|n: Seq<char>| #[trigger] self.index.definitions.symbol_at_is(uri, line, col, n) && self.symbol_edit_is(n, text, r)
        }
    }

    /// The edits renaming what the cursor at `position` of `uri` is on to `new_name`.
    pub fn rename(&self, uri: &str, position: Position, new_name: &str) -> (r: Option<WorkspaceEdit>)
        requires
            !html_path(path_of(uri@)) ==> self.index.definitions.hits_measurable(uri@, position.line as int, position.character as int),
        ensures
            self.rename_is(uri@, position, new_name@, opt_changes(r)),
    {
        if is_html_file(uri) {
            return self.rename_from_html(uri, position, new_name);
        }
        let name = self.index.definitions.find_symbol_at_position(uri, position.line, position.character);
        match name {
            Some(n) => {
                assert(self.index.definitions.symbol_at_is(uri@, position.line as int, position.character as int, n@));
                self.collect_edits(n.as_str(), new_name)
            },
            None => None,
        }
    }

    fn rename_from_html(&self, uri: &str, position: Position, new_name: &str) -> (r: Option<WorkspaceEdit>)
        ensures
            self.html_rename_is(uri@, position.line as int, position.character as int, new_name@, opt_changes(r)),
    {
        let line = position.line;
        let col = position.character;
        let vd = self.index.html.find_html_local_variable_definition_at(uri, line, col);
        assert(first_found(list_at(self.index.html@.local_variables, uri@), local_variable_name_at(line as int, col as int), vd));
        match vd {
            Some(x) => {
                return Some(self.collect_local_variable_edits(&x, new_name));
            },
            None => {},
        }
        let lr = self.index.html.find_html_local_variable_at(uri, line, col);
        assert(self.index.html.local_reference_at_is(uri@, line as int, col as int, lr));
        let def = match &lr {
            Some(v) => self.index.find_local_variable_definition(uri, v.variable_name.as_str(), line),
            None => None,
        };
        assert(self.used_definition(uri@, line as int, lr, def));
        match def {
            Some(x) => {
                return Some(self.collect_local_variable_edits(&x, new_name));
            },
            None => {},
        }
        self.rename_after_locals(uri, line, col, new_name)
    }

    fn rename_after_locals(&self, uri: &str, line: u32, col: u32, new_name: &str) -> (r: Option<WorkspaceEdit>)
        ensures
            ({
                let ix = self.index;
                let forms = list_at(ix.html@.form_bindings, uri@);
                let scopes = list_at(ix.html@.scope_references, uri@);
                let text = new_name@;
                exists|fb: Option<HtmlFormBinding>| #[trigger] first_found(forms, form_name_at(line as int, col as int), fb) && match fb {
                    Some(x) => exists|m: Map<Seq<char>, Seq<(Range, Seq<char>)>>| #[trigger] self.form_edit_is(uri@, x, text, m) && opt_changes(r) == Some(m),
                    None => exists|h: Option<HtmlScopeReference>| #[trigger] first_found(scopes, scope_reference_at(line as int, col as int), h) && match h {
                        None => opt_changes(r) is None,
                        Some(h) => {
                            let base = first_segment(h.property_path@);
                            exists|f: Option<HtmlFormBinding>| #[trigger] ix.form_definition_is(uri@, base, line as int, f) && match f {
                                Some(x) => exists|m: Map<Seq<char>, Seq<(Range, Seq<char>)>>| #[trigger] self.form_edit_is(uri@, x, text, m) && opt_changes(r) == Some(m),
                                None => exists|v: Option<HtmlLocalVariable>| #[trigger] ix.local_definition_is(uri@, base, line as int, v) && match v {
                                    Some(x) => opt_changes(r) == Some(self.local_edit(x, text)),
                                    None => exists|n: Option<Seq<char>>| #[trigger] self.scope_symbol_is(uri@, line as int, h.property_path@, n) && match n {
                                        Some(n) => self.symbol_edit_is(n, text, opt_changes(r)),
                                        None => opt_changes(r) is None,
                                    },
                                },
                            }
                        },
                    },
                }
            }),
    {
        let fb = self.index.html.find_html_form_binding_at(uri, line, col);
        assert(first_found(list_at(self.index.html@.form_bindings, uri@), form_name_at(line as int, col as int), fb));
        match fb {
            Some(b) => {
                return Some(self.collect_form_binding_edits(uri, &b, new_name));
            },
            None => {},
        }
        let h = self.index.html.find_html_scope_reference_at(uri, line, col);
        assert(first_found(list_at(self.index.html@.scope_references, uri@), scope_reference_at(line as int, col as int), h));
        let html_ref = match h {
            Some(x) => x,
            None => return None,
        };
        let base = first_segment_of(html_ref.property_path.as_str());
        let f = self.index.find_form_binding_definition(uri, base.as_str(), line);
        assert(self.index.form_definition_is(uri@, base@, line as int, f));
        match f {
            Some(b) => {
                return Some(self.collect_form_binding_edits(uri, &b, new_name));
            },
            None => {},
        }
        let v = self.index.find_local_variable_definition(uri, base.as_str(), line);
        assert(self.index.local_definition_is(uri@, base@, line as int, v));
        match v {
            Some(d) => {
                return Some(self.collect_local_variable_edits(&d, new_name));
            },
            None => {},
        }
        let n = self.resolve_symbol_name(uri, line, html_ref.property_path.as_str());
        assert(self.scope_symbol_is(uri@, line as int, html_ref.property_path@, opt_view(n)));
        match n {
            Some(name) => self.collect_edits(name.as_str(), new_name),
            None => None,
        }
    }

    /// The symbol the scope path `path` at `line` of `uri` is renamed as.
    #[verifier::spinoff_prover]
    #[verifier::rlimit(40)]
    fn resolve_symbol_name(&self, uri: &str, line: u32, path: &str) -> (r: Option<String>)
        ensures
            self.scope_symbol_is(uri@, line as int, path@, opt_view(r)),
    {
        let (alias, rest) = split_alias_and_property(path);
        assert(opt_view(alias) == path_alias(path@));
        let resolved: Option<String> = match &alias {
            Some(a) => self.index.resolve_controller_by_alias(uri, line, a.as_str()),
            None => None,
        };
        assert(crate::handler::resolve::alias_step(self.index, uri@, line as int, path@, opt_view(resolved)));
        let is_as = resolved.is_some();
        let property_path: String = if is_as {
            rest
        } else {
            let cs = chars_of(path);
            let p = string_from_chars(&cs, 0, cs.len());
            assert(p@ =~= path@);
            p
        };
        assert(property_path@ == crate::handler::references::scope_prop(path@, opt_view(resolved)));
        let controller: Option<String> = match &resolved {
            Some(c) => Some(c.clone()),
            None => self.index.resolve_controller_for_html(uri, line),
        };
        assert(self.controller_step(uri@, line as int, opt_view(resolved), opt_view(controller)));
        let c = match controller {
            Some(c) => c,
            None => return None,
        };
        let scope_symbol = concat(concat(c.as_str(), ".$scope.").as_str(), property_path.as_str());
        if self.index.definitions.get_definitions(scope_symbol.as_str()).len() > 0 {
            return Some(scope_symbol);
        }
        if is_as {
            let method_symbol = concat(concat(c.as_str(), ".").as_str(), property_path.as_str());
            if self.index.definitions.get_definitions(method_symbol.as_str()).len() > 0 {
                return Some(method_symbol);
            }
        }
        Some(scope_symbol)
    }

    /// The edit renaming the symbol `symbol_name`.
    fn collect_edits(&self, symbol_name: &str, new_name: &str) -> (r: Option<WorkspaceEdit>)
        ensures
            self.symbol_edit_is(symbol_name@, new_name@, opt_changes(r)),
    {
        let mut changes: Vec<(String, Vec<TextEdit>)> = Vec::new();
        let defs = self.index.definitions.get_definitions(symbol_name);
        let a = def_name_places(&defs);
        add_places(&mut changes, &a, new_name, Ghost(Seq::empty()));
        let refs = self.index.get_all_references(symbol_name);
        assert(self.index.all_references_are(symbol_name@, refs@));
        let b = symbol_ref_places(&refs);
        add_places(&mut changes, &b, new_name, Ghost(name_places(defs@)));
        proof { assert(Seq::<(Seq<char>, Range)>::empty() + name_places(defs@) =~= name_places(defs@)); }
        if changes.len() == 0 {
            proof {
                if name_places(defs@).len() + ref_places(refs@).len() > 0 {
                    lemma_grouped_nonempty(name_places(defs@) + ref_places(refs@), new_name@);
                }
            }
            None
        } else {
            proof { lemma_changes_nonempty(changes@); }
            Some(WorkspaceEdit { changes })
        }
    }

    /// The edit renaming the local variable `var_def`.
    fn collect_local_variable_edits(&self, var_def: &HtmlLocalVariable, new_name: &str) -> (r: WorkspaceEdit)
        ensures
            changes_view(r.changes@) == self.local_edit(*var_def, new_name@),
    {
        let mut changes: Vec<(String, Vec<TextEdit>)> = Vec::new();
        let mut head: Vec<(String, Range)> = Vec::new();
        head.push((var_def.uri.clone(), var_def.name_span().to_lsp_range()));
        let ghost h = seq![(var_def.uri@, span_range(local_variable_name_span(*var_def)))];
        assert(head@.map_values(|p: (String, Range)| (p.0@, p.1)) =~= h);
        add_places(&mut changes, &head, new_name, Ghost(Seq::empty()));
        assert(Seq::<(Seq<char>, Range)>::empty() + h =~= h);
        let refs = self.index.html.get_local_variable_references(var_def.uri.as_str(), var_def.name.as_str(),
            var_def.scope_start_line, var_def.scope_end_line);
        let b = local_ref_places(&refs);
        add_places(&mut changes, &b, new_name, Ghost(h));
        WorkspaceEdit { changes }
    }

    /// The edit renaming the form `form_binding` from the template `uri`.
    fn collect_form_binding_edits(&self, uri: &str, form_binding: &HtmlFormBinding, new_name: &str) -> (r: WorkspaceEdit)
        ensures
            self.form_edit_is(uri@, *form_binding, new_name@, changes_view(r.changes@)),
    {
        let mut changes: Vec<(String, Vec<TextEdit>)> = Vec::new();
        let mut head: Vec<(String, Range)> = Vec::new();
        head.push((form_binding.uri.clone(), form_binding.name_span().to_lsp_range()));
        let ghost h = seq![(form_binding.uri@, span_range(form_name_span(*form_binding)))];
        assert(head@.map_values(|p: (String, Range)| (p.0@, p.1)) =~= h);
        add_places(&mut changes, &head, new_name, Ghost(Seq::empty()));
        assert(Seq::<(Seq<char>, Range)>::empty() + h =~= h);
        let controllers = self.index.resolve_controllers_for_html(uri, form_binding.scope_start_line);
        let ghost cs = views(controllers@);
        assert(self.index.controllers_are(uri@, form_binding.scope_start_line as int, cs));
        let ghost refs_map = self.index.definitions.refs();
        let ghost mut hs: Seq<Seq<SymbolReference>> = Seq::empty();
        let mut k: usize = 0;
        while k < controllers.len()
            invariant
                k <= controllers@.len(),
                cs == views(controllers@),
                refs_map == self.index.definitions.refs(),
                hs.len() == k,
                forall|j: int| 0 <= j < k ==> self.index.html_references_hold(form_symbol(#[trigger] cs[j], form_binding.name@), hs[j]),
                distinct_documents(changes@),
                changes_view(changes@) == grouped(h + form_places(refs_map, *form_binding, cs.take(k as int), hs), new_name@),
            decreases controllers.len() - k,
        {
            let symbol_name = concat(concat(controllers[k].as_str(), ".$scope.").as_str(), form_binding.name.as_str());
            assert(symbol_name@ == form_symbol(cs[k as int], form_binding.name@));
            let html = self.index.get_html_references_for_symbol(symbol_name.as_str());
            let ghost hk = html@;
            let scoped = crate::handler::references::keep_in_form_scope(html, form_binding);
            let p1 = symbol_ref_places(&scoped);
            let ghost base1 = h + form_places(refs_map, *form_binding, cs.take(k as int), hs);
            add_places(&mut changes, &p1, new_name, Ghost(base1));
            let js = self.index.definitions.get_references(symbol_name.as_str());
            let p2 = symbol_ref_places(&js);
            add_places(&mut changes, &p2, new_name, Ghost(base1 + ref_places(scoped@)));
            proof {
                assert(cs.take(k + 1).drop_last() =~= cs.take(k as int));
                assert(hs.push(hk).take(k as int) =~= hs);
                hs = hs.push(hk);
                assert(base1 + ref_places(scoped@) + ref_places(js@) =~= h + form_places(refs_map, *form_binding, cs.take(k + 1), hs));
            }
            k += 1;
        }
        proof { assert(cs.take(cs.len() as int) =~= cs); }
        WorkspaceEdit { changes }
    }

    /// `r` is the range prepare-rename gives for the symbol `name` at `(line, col)` of
    /// `uri`: the name span of its first definition in `uri` covering the position, else
    /// the span of its first such reference; none otherwise.
    pub open spec fn symbol_range_is(&self, name: Seq<char>, uri: Seq<char>, line: int, col: int, r: Option<Range>) -> bool {
        let defs = list_at(self.index.definitions.defs(), name);
        exists|refs: Seq<SymbolReference>| #[trigger] self.index.all_references_are(name, refs) && r == match first_def_covering(defs, uri, line, col) {
            Some(i) => Some(span_range(defs[i].name_span)),
            None => match first_ref_covering(refs, uri, line, col) {
                Some(i) => Some(span_range(refs[i].span)),
                None => None,
            },
        }
    }

    /// `r` is the range prepare-rename gives at `(line, col)` of the template `uri`: the
    /// name of a local variable defined there, a local variable reference there, a form's
    /// name; for a scope expression, the name of the form or local variable its first
    /// segment names, else the expression itself; none elsewhere.
    pub open spec fn html_prepare_is(&self, uri: Seq<char>, line: int, col: int, r: Option<Range>) -> bool {
        let ix = self.index;
        let vars = list_at(ix.html@.local_variables, uri);
        let forms = list_at(ix.html@.form_bindings, uri);
        let scopes = list_at(ix.html@.scope_references, uri);
        exists|vd: Option<HtmlLocalVariable>| #[trigger] first_found(vars, local_variable_name_at(line, col), vd) && match vd {
            Some(x) => r == Some(span_range(local_variable_name_span(x))),
            None => exists|lr: Option<HtmlLocalVariableReference>| #[trigger] ix.html.local_reference_at_is(uri, line, col, lr) && match lr {
                Some(x) => r == Some(span_range(local_reference_span(x))),
                None => exists|fb: Option<HtmlFormBinding>| #[trigger] first_found(forms, form_name_at(line, col), fb) && match fb {
                    Some(x) => r == Some(span_range(form_name_span(x))),
                    None => exists|h: Option<HtmlScopeReference>| #[trigger] first_found(scopes, scope_reference_at(line, col), h) && match h {
                        None => r is None,
                        Some(h) => {
                            let base = first_segment(h.property_path@);
                            exists|f: Option<HtmlFormBinding>| #[trigger] ix.form_definition_is(uri, base, line, f) && match f {
                                Some(x) => r == Some(span_range(form_name_span(x))),
                                None => exists|v: Option<HtmlLocalVariable>| #[trigger] ix.local_definition_is(uri, base, line, v) && match v {
                                    Some(x) => r == Some(span_range(local_variable_name_span(x))),
                                    None => r == Some(span_range(scope_reference_span(h))),
                                },
                            }
                        },
                    },
                },
            },
        }
    }

    /// `r` is the range prepare-rename gives at `position` of `uri`.
    pub open spec fn prepare_rename_is(&self, uri: Seq<char>, position: Position, r: Option<Range>) -> bool {
        let line = position.line as int;
        let col = position.character as int;
        let ix = self.index;
        if html_path(path_of(uri)) {
            self.html_prepare_is(uri, line, col, r)
        } else if ix.definitions.hits_at(uri, line, col).len() == 0 {
            r is None
        } else {
            exists|n: Seq<char>| #[trigger] ix.definitions.symbol_at_is(uri, line, col, n) && self.symbol_range_is(n, uri, line, col, r)
        }
    }

    /// The range to rename at `position` of `uri`.
    pub fn prepare_rename(&self, uri: &str, position: Position) -> (r: Option<Range>)
        requires
            !html_path(path_of(uri@)) ==> self.index.definitions.hits_measurable(uri@, position.line as int, position.character as int),
        ensures
            self.prepare_rename_is(uri@, position, r),
    {
        let line = position.line;
        let col = position.character;
        if is_html_file(uri) {
            return self.prepare_rename_from_html(uri, line, col);
        }
        let name = self.index.definitions.find_symbol_at_position(uri, line, col);
        match name {
            Some(n) => {
                assert(self.index.definitions.symbol_at_is(uri@, line as int, col as int, n@));
                self.find_symbol_range_at_position(n.as_str(), uri, line, col)
            },
            None => None,
        }
    }

    fn prepare_rename_from_html(&self, uri: &str, line: u32, col: u32) -> (r: Option<Range>)
        ensures
            self.html_prepare_is(uri@, line as int, col as int, r),
    {
        let vd = self.index.html.find_html_local_variable_definition_at(uri, line, col);
        assert(first_found(list_at(self.index.html@.local_variables, uri@), local_variable_name_at(line as int, col as int), vd));
        match vd {
            Some(x) => {
                return Some(x.name_span().to_lsp_range());
            },
            None => {},
        }
        let lr = self.index.html.find_html_local_variable_at(uri, line, col);
        assert(self.index.html.local_reference_at_is(uri@, line as int, col as int, lr));
        match lr {
            Some(x) => {
                return Some(x.span().to_lsp_range());
            },
            None => {},
        }
        let fb = self.index.html.find_html_form_binding_at(uri, line, col);
        assert(first_found(list_at(self.index.html@.form_bindings, uri@), form_name_at(line as int, col as int), fb));
        match fb {
            Some(b) => {
                return Some(b.name_span().to_lsp_range());
            },
            None => {},
        }
        let h = self.index.html.find_html_scope_reference_at(uri, line, col);
        assert(first_found(list_at(self.index.html@.scope_references, uri@), scope_reference_at(line as int, col as int), h));
        let html_ref = match h {
            Some(x) => x,
            None => return None,
        };
        let base = first_segment_of(html_ref.property_path.as_str());
        let f = self.index.find_form_binding_definition(uri, base.as_str(), line);
        assert(self.index.form_definition_is(uri@, base@, line as int, f));
        match f {
            Some(b) => {
                return Some(b.name_span().to_lsp_range());
            },
            None => {},
        }
        let v = self.index.find_local_variable_definition(uri, base.as_str(), line);
        assert(self.index.local_definition_is(uri@, base@, line as int, v));
        match v {
            Some(d) => Some(d.name_span().to_lsp_range()),
            None => Some(html_ref.span().to_lsp_range()),
        }
    }

    fn find_symbol_range_at_position(&self, symbol_name: &str, uri: &str, line: u32, col: u32) -> (r: Option<Range>)
        ensures
            self.symbol_range_is(symbol_name@, uri@, line as int, col as int, r),
    {
        let defs = self.index.definitions.get_definitions(symbol_name);
        let refs = self.index.get_all_references(symbol_name);
        assert(self.index.all_references_are(symbol_name@, refs@));
        let mut i: usize = 0;
        while i < defs.len()
            invariant
                i <= defs@.len(),
                defs@ == list_at(self.index.definitions.defs(), symbol_name@),
                self.index.all_references_are(symbol_name@, refs@),
                forall|j: int| 0 <= j < i ==> !((#[trigger] defs@[j]).uri@ == uri@ && span_covers(defs@[j].name_span, line as int, col as int)),
            decreases defs.len() - i,
        {
            if str_eq(defs[i].uri.as_str(), uri) && covers(&defs[i].name_span, line, col) {
                proof { lemma_first_def_covering(defs@, uri@, line as int, col as int, i as int); }
                return Some(defs[i].name_span.to_lsp_range());
            }
            i += 1;
        }
        assert(first_def_covering(defs@, uri@, line as int, col as int) is None);
        let mut k: usize = 0;
        while k < refs.len()
            invariant
                k <= refs@.len(),
                defs@ == list_at(self.index.definitions.defs(), symbol_name@),
                self.index.all_references_are(symbol_name@, refs@),
                first_def_covering(defs@, uri@, line as int, col as int) is None,
                forall|j: int| 0 <= j < k ==> !((#[trigger] refs@[j]).uri@ == uri@ && span_covers(refs@[j].span, line as int, col as int)),
            decreases refs.len() - k,
        {
            if str_eq(refs[k].uri.as_str(), uri) && covers(&refs[k].span, line, col) {
                proof { lemma_first_ref_covering(refs@, uri@, line as int, col as int, k as int); }
                return Some(refs[k].span.to_lsp_range());
            }
            k += 1;
        }
        assert(first_ref_covering(refs@, uri@, line as int, col as int) is None);
        None
    }
}

/// Where in `defs` the first definition in `uri` whose name span covers the position is.
pub open spec fn first_def_covering(defs: Seq<Symbol>, uri: Seq<char>, line: int, col: int) -> Option<int> {
    if exists|i: int| 0 <= i < defs.len() && (#[trigger] defs[i]).uri@ == uri && span_covers(defs[i].name_span, line, col) {
        Some(choose|i: int| 0 <= i < defs.len() && (#[trigger] defs[i]).uri@ == uri && span_covers(defs[i].name_span, line, col)
            && forall|j: int| 0 <= j < i ==> !((#[trigger] defs[j]).uri@ == uri && span_covers(defs[j].name_span, line, col)))
    } else {
        None
    }
}

/// Where in `refs` the first reference in `uri` whose span covers the position is.
pub open spec fn first_ref_covering(refs: Seq<SymbolReference>, uri: Seq<char>, line: int, col: int) -> Option<int> {
    if exists|i: int| 0 <= i < refs.len() && (#[trigger] refs[i]).uri@ == uri && span_covers(refs[i].span, line, col) {
        Some(choose|i: int| 0 <= i < refs.len() && (#[trigger] refs[i]).uri@ == uri && span_covers(refs[i].span, line, col)
            && forall|j: int| 0 <= j < i ==> !((#[trigger] refs[j]).uri@ == uri && span_covers(refs[j].span, line, col)))
    } else {
        None
    }
}

proof fn lemma_first_def_covering(defs: Seq<Symbol>, uri: Seq<char>, line: int, col: int, k: int)
    requires
        0 <= k < defs.len(),
        defs[k].uri@ == uri && span_covers(defs[k].name_span, line, col),
        forall|j: int| 0 <= j < k ==> !((#[trigger] defs[j]).uri@ == uri && span_covers(defs[j].name_span, line, col)),
    ensures
        first_def_covering(defs, uri, line, col) == Some(k),
{
    let c = choose|i: int| 0 <= i < defs.len() && (#[trigger] defs[i]).uri@ == uri && span_covers(defs[i].name_span, line, col)
        && forall|j: int| 0 <= j < i ==> !((#[trigger] defs[j]).uri@ == uri && span_covers(defs[j].name_span, line, col));
    if c < k {
        assert(!(defs[c].uri@ == uri && span_covers(defs[c].name_span, line, col)));
    }
    if c > k {
        assert(!(defs[k].uri@ == uri && span_covers(defs[k].name_span, line, col)));
    }
}

proof fn lemma_first_ref_covering(refs: Seq<SymbolReference>, uri: Seq<char>, line: int, col: int, k: int)
    requires
        0 <= k < refs.len(),
        refs[k].uri@ == uri && span_covers(refs[k].span, line, col),
        forall|j: int| 0 <= j < k ==> !((#[trigger] refs[j]).uri@ == uri && span_covers(refs[j].span, line, col)),
    ensures
        first_ref_covering(refs, uri, line, col) == Some(k),
{
    let c = choose|i: int| 0 <= i < refs.len() && (#[trigger] refs[i]).uri@ == uri && span_covers(refs[i].span, line, col)
        && forall|j: int| 0 <= j < i ==> !((#[trigger] refs[j]).uri@ == uri && span_covers(refs[j].span, line, col));
    if c < k {
        assert(!(refs[c].uri@ == uri && span_covers(refs[c].span, line, col)));
    }
    if c > k {
        assert(!(refs[k].uri@ == uri && span_covers(refs[k].span, line, col)));
    }
}

/// Grouping places that are not all gone leaves some document.
proof fn lemma_grouped_nonempty(places: Seq<(Seq<char>, Range)>, text: Seq<char>)
    requires
        places.len() > 0,
    ensures
        grouped(places, text).contains_key(places.last().0),
{
}

/// An edit view with a document comes from a list with an entry.
proof fn lemma_changes_nonempty(e: Seq<(String, Vec<TextEdit>)>)
    requires
        e.len() > 0,
    ensures
        changes_view(e).contains_key(e.last().0@),
{
}


/// Every place of `places` is edited: its document's edits hold its range with `text`.
proof fn lemma_grouped_holds(places: Seq<(Seq<char>, Range)>, text: Seq<char>, i: int)
    requires
        0 <= i < places.len(),
    ensures
        grouped(places, text).contains_key(places[i].0),
        grouped(places, text)[places[i].0].contains((places[i].1, text)),
    decreases places.len(),
{
    let m = grouped(places.drop_last(), text);
    let (u, rg) = places.last();
    let old_list = if m.contains_key(u) { m[u] } else { Seq::empty() };
    let g = grouped(places, text);
    assert(g == m.insert(u, old_list.push((rg, text))));
    if i == places.len() - 1 {
        assert(g[u][old_list.len() as int] == (rg, text));
    } else {
        assert(places.drop_last()[i] == places[i]);
        lemma_grouped_holds(places.drop_last(), text, i);
        let v = places[i].0;
        let x = choose|x: int| 0 <= x < m[v].len() && m[v][x] == (places[i].1, text);
        if v == u {
            assert(g[v][x] == m[v][x]);
        } else {
            assert(g[v] == m[v]);
        }
    }
}

/// The form's script references as a property of each controller are among its places.
proof fn lemma_form_places_holds(refs: Map<Seq<char>, Seq<SymbolReference>>, f: HtmlFormBinding, cs: Seq<Seq<char>>, hs: Seq<Seq<SymbolReference>>, k: int, j: int)
    requires
        hs.len() >= cs.len(),
        0 <= k < cs.len(),
        0 <= j < list_at(refs, form_symbol(cs[k], f.name@)).len(),
    ensures
        form_places(refs, f, cs, hs).contains((list_at(refs, form_symbol(cs[k], f.name@))[j].uri@,
            span_range(list_at(refs, form_symbol(cs[k], f.name@))[j].span))),
    decreases cs.len(),
{
    let last = cs.len() - 1;
    let a = form_places(refs, f, cs.drop_last(), hs.take(last));
    let b = ref_places(hs[last].filter(in_form_scope(f)));
    let c = ref_places(list_at(refs, form_symbol(cs[last], f.name@)));
    let x = list_at(refs, form_symbol(cs[k], f.name@))[j];
    let all = form_places(refs, f, cs, hs);
    assert(all == a + b + c);
    if k == last {
        assert(c[j] == (x.uri@, span_range(x.span)));
        assert(all[a.len() + b.len() + j] == c[j]);
    } else {
        assert(cs.drop_last()[k] == cs[k]);
        lemma_form_places_holds(refs, f, cs.drop_last(), hs.take(last), k, j);
        let y = choose|y: int| 0 <= y < a.len() && a[y] == (x.uri@, span_range(x.span));
        assert(all[y] == a[y]);
    }
}

impl<'a> RenameHandler<'a> {
    /// Renaming a form from its template edits its name there and every script reference
    /// of `c.$scope.<form name>` for each controller `c` in effect at the form's scope:
    /// each such reference's span is among its document's edits, with the new name.
    pub proof fn law_form_rename_edits_every_script_reference(&self, uri: Seq<char>, f: HtmlFormBinding, text: Seq<char>, r: Map<Seq<char>, Seq<(Range, Seq<char>)>>)
        requires
            self.form_edit_is(uri, f, text, r),
        ensures
            r.contains_key(f.uri@) && r[f.uri@].contains((span_range(form_name_span(f)), text)),
            exists|cs: Seq<Seq<char>>| #[trigger] self.index.controllers_are(uri, f.scope_start_line as int, cs)
                && forall|k: int, j: int| 0 <= k < cs.len() && 0 <= j < list_at(self.index.definitions.refs(), cs[k] + ".$scope."@ + f.name@).len()
                    ==> r.contains_key((#[trigger] list_at(self.index.definitions.refs(), cs[k] + ".$scope."@ + f.name@)[j]).uri@)
                        && r[list_at(self.index.definitions.refs(), cs[k] + ".$scope."@ + f.name@)[j].uri@].contains(
                            (span_range(list_at(self.index.definitions.refs(), cs[k] + ".$scope."@ + f.name@)[j].span), text)),
    {
        let refs = self.index.definitions.refs();
        let (cs, hs) = choose|cs: Seq<Seq<char>>, hs: Seq<Seq<SymbolReference>>|
            #![trigger self.index.controllers_are(uri, f.scope_start_line as int, cs), form_places(self.index.definitions.refs(), f, cs, hs)]
            self.index.controllers_are(uri, f.scope_start_line as int, cs) && hs.len() == cs.len()
            && (forall|k: int| 0 <= k < cs.len() ==> self.index.html_references_hold(form_symbol(#[trigger] cs[k], f.name@), hs[k]))
            && r == grouped(seq![(f.uri@, span_range(form_name_span(f)))] + form_places(self.index.definitions.refs(), f, cs, hs), text);
        let head = seq![(f.uri@, span_range(form_name_span(f)))];
        let fp = form_places(refs, f, cs, hs);
        let places = head + fp;
        assert(places[0] == head[0]);
        lemma_grouped_holds(places, text, 0);
        assert forall|k: int, j: int| 0 <= k < cs.len() && 0 <= j < list_at(refs, cs[k] + ".$scope."@ + f.name@).len()
            implies r.contains_key((#[trigger] list_at(refs, cs[k] + ".$scope."@ + f.name@)[j]).uri@)
                && r[list_at(refs, cs[k] + ".$scope."@ + f.name@)[j].uri@].contains(
                    (span_range(list_at(refs, cs[k] + ".$scope."@ + f.name@)[j].span), text)) by {
            assert(form_symbol(cs[k], f.name@) == cs[k] + ".$scope."@ + f.name@);
            lemma_form_places_holds(refs, f, cs, hs, k, j);
            let x = list_at(refs, cs[k] + ".$scope."@ + f.name@)[j];
            let y = choose|y: int| 0 <= y < fp.len() && fp[y] == (x.uri@, span_range(x.span));
            assert(places[head.len() + y] == fp[y]);
            lemma_grouped_holds(places, text, head.len() + y);
        }
    }
}

} // verus!
