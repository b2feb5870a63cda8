//! Quick fixes for undefined scope properties: insert `this.x = null;` or
//! `$scope.x = null;` at the top of the controller's body.
use vstd::prelude::*;
use vstd::string::StrSliceExecFns;

use crate::handler::diagnostics::{Diagnostic, UNDEFINED_SCOPE_PROPERTY_CODE};
use crate::index::html_store::{first_found, scope_reference_at};
use crate::index::snapshot::list_at;
use crate::index::Index;
use crate::lsp::{pos_before, Position, Range};
use crate::model::{ControllerScope, HtmlScopeReference};
use crate::text::{chars_of, find_char, first_index, lemma_first_index, line_range, str_eq, string_from_chars, views};
use crate::uri::path_of;
use crate::util::{html_path, is_html_file};

verus! {

/// `a` is strictly before `b`.
pub fn position_lt(a: &Position, b: &Position) -> (r: bool)
    ensures
        r == pos_before(*a, *b),
{
    if a.line != b.line {
        a.line < b.line
    } else {
        a.character < b.character
    }
}

/// The two ranges share a position (both ends included).
pub fn ranges_overlap(a: &Range, b: &Range) -> (r: bool)
    ensures
        r == (!pos_before(b.end, a.start) && !pos_before(a.end, b.start)),
{
    !position_lt(&b.end, &a.start) && !position_lt(&a.end, &b.start)
}

/// `"vm.foo"` splits into `(Some("vm"), "foo")`, `"vm.user.name"` into
/// `(Some("vm"), "user.name")`, `"foo"` into `(None, "foo")`.
pub fn split_alias_and_property(property_path: &str) -> (r: (Option<String>, String))
    ensures
        match first_index(property_path@, '.') {
            Some(i) => r.0 is Some && r.0->0@ == property_path@.take(i)
                && r.1@ == property_path@.skip(i + 1),
            None => r.0 is None && r.1@ == property_path@,
        },
{
    let cs = chars_of(property_path);
    match find_char(&cs, '.') {
        Some(idx) => {
            proof { lemma_first_index(cs@, '.', idx as int); }
            let alias = string_from_chars(&cs, 0, idx);
            let prop = string_from_chars(&cs, idx + 1, cs.len());
            proof {
                assert(alias@ =~= property_path@.take(idx as int));
                assert(prop@ =~= property_path@.skip(idx + 1));
            }
            (Some(alias), prop)
        },
        None => {
            proof {
                assert(!(exists|i: int| 0 <= i < property_path@.len() && property_path@[i] == '.'));
            }
            let whole = string_from_chars(&cs, 0, cs.len());
            proof { assert(whole@ =~= property_path@); }
            (None, whole)
        },
    }
}

/// The first segment of a property path: `"user.name"` gives `"user"`.
pub fn property_root_segment(property: &str) -> (r: &str)
    ensures
        match first_index(property@, '.') {
            Some(i) => r@ == property@.take(i),
            None => r@ == property@,
        },
{
    let cs = chars_of(property);
    match find_char(&cs, '.') {
        Some(idx) => {
            proof { lemma_first_index(cs@, '.', idx as int); }
            let r = property.substring_char(0, idx);
            proof { assert(r@ =~= property@.take(idx as int)); }
            r
        },
        None => {
            proof {
                assert(!(exists|i: int| 0 <= i < property@.len() && property@[i] == '.'));
            }
            property
        },
    }
}

/// A space or a tab.
pub open spec fn is_blank(c: char) -> bool {
    c == ' ' || c == '\t'
}

/// How many blanks `s[from..to]` starts with.
pub open spec fn leading_blanks(s: Seq<char>, from: int, to: int) -> int
    decreases to - from,
{
    if from >= to || !is_blank(s[from]) {
        0
    } else {
        1 + leading_blanks(s, from + 1, to)
    }
}

/// The leading blanks of line `line` of `src` (empty when the line does not exist).
pub open spec fn indent_of(src: Seq<char>, line: nat) -> Seq<char> {
    match crate::text::line_bounds(src, line) {
        Some((st, e)) => src.subrange(st, st + leading_blanks(src, st, e)),
        None => Seq::empty(),
    }
}

/// The leading spaces and tabs of line `line` of `source`; `None` when there is no
/// source, no such line, or the line starts with neither.
pub fn detect_indent_from_source(source: Option<&String>, line: u32) -> (r: Option<String>)
    ensures
        match source {
            None => r is None,
            Some(src) => match r {
                Some(ind) => ind@ == indent_of(src@, line as nat) && ind@.len() > 0,
                None => indent_of(src@, line as nat).len() == 0,
            },
        },
{
    let src = match source {
        Some(s) => s,
        None => return None,
    };
    let cs = chars_of(src.as_str());
    let (st, e) = match line_range(&cs, line) {
        Some(b) => b,
        None => return None,
    };
    proof { crate::text::lemma_line_bounds_ok(cs@, line as nat); }
    let mut k = st;
    while k < e && (cs[k] == ' ' || cs[k] == '\t')
        invariant
            st <= k <= e <= cs@.len(),
            leading_blanks(cs@, st as int, e as int) == (k - st) + leading_blanks(cs@, k as int, e as int),
        decreases e - k,
    {
        k += 1;
    }
    if k == st {
        None
    } else {
        let ind = string_from_chars(&cs, st, k);
        Some(ind)
    }
}

/// An edit that adds a property to a controller: insert `new_text` at the start of `line` in `uri`.
pub struct PropertyInsertion {
    pub title: String,
    pub uri: String,
    pub line: u32,
    pub new_text: String,
}

/// The text of the inserted statement and of the action's title.
pub open spec fn insertion_texts(controller_name: Seq<char>, prop: Seq<char>, prefix: Seq<char>, indent: Seq<char>) -> (Seq<char>, Seq<char>) {
    (
        "Add `"@ + prefix + "."@ + prop + " = null;` to controller `"@ + controller_name + "`"@,
        indent + prefix + "."@ + prop + " = null;\n"@,
    )
}

/// The title, script, line and text of an insertion.
pub open spec fn insertion_view(a: PropertyInsertion) -> (Seq<char>, Seq<char>, u32, Seq<char>) {
    (a.title@, a.uri@, a.line, a.new_text@)
}

/// The insertion [`build_insert_property_action`] makes for the controller
/// `controller_name` of `scope`, its script's text being `source` when known.
pub open spec fn insertion_of(controller_name: Seq<char>, property: Seq<char>, prefer_this: bool, scope: ControllerScope, source: Option<Seq<char>>) -> Option<(Seq<char>, Seq<char>, u32, Seq<char>)> {
    let root = match first_index(property, '.') {
        Some(i) => property.take(i),
        None => property,
    };
    let line: u32 = if scope.start_line == u32::MAX { u32::MAX } else { (scope.start_line + 1) as u32 };
    let prefix = if prefer_this { "this"@ } else { "$scope"@ };
    let indent = match source {
        Some(src) => if indent_of(src, line as nat).len() > 0 { indent_of(src, line as nat) } else { "    "@ },
        None => "    "@,
    };
    if root.len() == 0 {
        None
    } else {
        let t = insertion_texts(controller_name, root, prefix, indent);
        Some((t.0, scope.uri@, line, t.1))
    }
}

/// The action that inserts `this.<root> = null;` (when `prefer_this`) or
/// `$scope.<root> = null;` on the line after the controller's first line, where
/// `<root>` is the first segment of `property`; `None` when that segment is empty.
/// The indentation is that of the target line in `source`, four spaces by default.
pub fn build_insert_property_action(
    controller_name: &str,
    property: &str,
    prefer_this: bool,
    scope: &ControllerScope,
    source: Option<&String>,
) -> (r: Option<PropertyInsertion>)
    ensures
        ({
            let root = match first_index(property@, '.') {
                Some(i) => property@.take(i),
                None => property@,
            };
            let line: u32 = if scope.start_line == u32::MAX { u32::MAX } else { (scope.start_line + 1) as u32 };
            let prefix = if prefer_this { "this"@ } else { "$scope"@ };
            let indent = match source {
                Some(src) => if indent_of(src@, line as nat).len() > 0 { indent_of(src@, line as nat) } else { "    "@ },
                None => "    "@,
            };
            match r {
                None => root.len() == 0,
                Some(a) => {
                    &&& root.len() > 0
                    &&& a.uri == scope.uri
                    &&& a.line == line
                    &&& (a.title@, a.new_text@) == insertion_texts(controller_name@, root, prefix, indent)
                },
            }
        }),
        match r {
            Some(a) => insertion_of(controller_name@, property@, prefer_this, *scope, match source { Some(x) => Some(x@), None => None }) == Some(insertion_view(a)),
            None => insertion_of(controller_name@, property@, prefer_this, *scope, match source { Some(x) => Some(x@), None => None }) is None,
        },
{
    let prop = property_root_segment(property);
    if prop.unicode_len() == 0 {
        return None;
    }
    let insert_line = scope.start_line.saturating_add(1);
    let indent = match detect_indent_from_source(source, insert_line) {
        Some(ind) => ind,
        None => "    ".to_owned(),
    };
    let prefix = if prefer_this { "this" } else { "$scope" };
    let mut new_text = indent.clone();
    new_text.append(prefix);
    new_text.append(".");
    new_text.append(prop);
    new_text.append(" = null;\n");
    let mut title = "Add `".to_owned();
    title.append(prefix);
    title.append(".");
    title.append(prop);
    title.append(" = null;` to controller `");
    title.append(controller_name);
    title.append("`");
    let ghost ind = indent@;
    proof {
        assert((title@, new_text@) == insertion_texts(controller_name@, prop@, prefix@, ind));
        assert(insert_line == (if scope.start_line == u32::MAX { u32::MAX } else { (scope.start_line + 1) as u32 }));
    }
    Some(PropertyInsertion { title, uri: scope.uri.clone(), line: insert_line, new_text })
}


/// The text `sources` gives for `uri`: the first entry of that document.
pub open spec fn source_for(sources: Seq<(String, String)>, uri: Seq<char>) -> Option<Seq<char>>
    decreases sources.len(),
{
    if sources.len() == 0 {
        None
    } else {
        match source_for(sources.drop_last(), uri) {
            Some(t) => Some(t),
            None => if sources.last().0@ == uri { Some(sources.last().1@) } else { None },
        }
    }
}

/// The insertions for the controller `c` (preferring `this` when `c.1`) of each of its
/// script scopes `scopes`, in order.
pub open spec fn scope_fixes(c: (Seq<char>, bool), scopes: Seq<ControllerScope>, property: Seq<char>, sources: Seq<(String, String)>) -> Seq<(Seq<char>, Seq<char>, u32, Seq<char>)>
    decreases scopes.len(),
{
    if scopes.len() == 0 {
        Seq::empty()
    } else {
        let p = scope_fixes(c, scopes.drop_last(), property, sources);
        match insertion_of(c.0, property, c.1, scopes.last(), source_for(sources, scopes.last().uri@)) {
            Some(x) => p.push(x),
            None => p,
        }
    }
}

/// The insertions for each candidate controller of `cands`, whose script scopes are
/// `ss`, in order.
pub open spec fn candidate_fixes(cands: Seq<(Seq<char>, bool)>, ss: Seq<Seq<ControllerScope>>, property: Seq<char>, sources: Seq<(String, String)>) -> Seq<(Seq<char>, Seq<char>, u32, Seq<char>)>
    decreases cands.len(),
{
    if cands.len() == 0 {
        Seq::empty()
    } else {
        candidate_fixes(cands.drop_last(), ss, property, sources) + scope_fixes(cands.last(), ss[cands.len() - 1], property, sources)
    }
}

/// The alias part of a scope path, before its first `.`.
pub open spec fn alias_part(p: Seq<char>) -> Option<Seq<char>> {
    match first_index(p, '.') {
        Some(i) => Some(p.take(i)),
        None => None,
    }
}

/// The property part of a scope path, after its first `.` (the whole path without one).
pub open spec fn property_part(p: Seq<char>) -> Seq<char> {
    match first_index(p, '.') {
        Some(i) => p.skip(i + 1),
        None => p,
    }
}

/// The finding `d` is one of undefined scope property and touches `range`.
pub open spec fn selected(d: Diagnostic, range: Range) -> bool {
    &&& d.code matches Some(c) && c@ == UNDEFINED_SCOPE_PROPERTY_CODE@
    &&& !pos_before(d.range.end, range.start) && !pos_before(range.end, d.range.start)
}

/// The fixes of the first `n` findings `diags`, each with its position in the list, the
/// insertions for finding `i` being `per[i]`.
pub open spec fn collected_fixes(diags: Seq<Diagnostic>, range: Range, per: Seq<Seq<(Seq<char>, Seq<char>, u32, Seq<char>)>>, n: int) -> Seq<((Seq<char>, Seq<char>, u32, Seq<char>), usize)>
    decreases n,
{
    if n <= 0 {
        Seq::empty()
    } else {
        collected_fixes(diags, range, per, n - 1) + (if selected(diags[n - 1], range) {
            per[n - 1].map_values(|x: (Seq<char>, Seq<char>, u32, Seq<char>)| (x, (n - 1) as usize))
        } else {
            Seq::empty()
        })
    }
}

/// A quick fix: the insertion it makes, and the position in the request's list of the
/// finding it fixes.
pub struct QuickFix {
    pub insertion: PropertyInsertion,
    pub diagnostic: usize,
}

/// The insertion and finding of a quick fix.
pub open spec fn fix_view(f: QuickFix) -> ((Seq<char>, Seq<char>, u32, Seq<char>), usize) {
    (insertion_view(f.insertion), f.diagnostic)
}

/// Code actions over an index.
pub struct CodeActionHandler<'a> {
    pub index: &'a Index,
}

impl<'a> CodeActionHandler<'a> {
    pub fn new(index: &'a Index) -> (r: Self)
        ensures
            r.index == index,
    {
        CodeActionHandler { index }
    }

    /// `r` is the candidate controllers of a scope path at `line` of `uri` with the alias
    /// `alias`: the controller the alias names, preferring `this`; without an alias, the
    /// controllers in effect there, preferring `$scope`.
    pub open spec fn candidates_are(&self, uri: Seq<char>, line: int, alias: Option<Seq<char>>, r: Seq<(Seq<char>, bool)>) -> bool {
        match alias {
            Some(a) => self.alias_candidates_are(uri, line, a, r),
            None => self.scope_candidates_are(uri, line, r),
        }
    }

    /// `r` is the controller the alias `a` names at `line` of `uri`, preferring `this`.
    pub open spec fn alias_candidates_are(&self, uri: Seq<char>, line: int, a: Seq<char>, r: Seq<(Seq<char>, bool)>) -> bool {
        exists|res: Option<Seq<char>>| #[trigger] self.index.alias_resolution_is(uri, line, a, res)
            && r == match res {
                Some(c) => seq![(c, true)],
                None => Seq::empty(),
            }
    }

    /// `r` is the controllers in effect at `line` of `uri`, preferring `$scope`.
    pub open spec fn scope_candidates_are(&self, uri: Seq<char>, line: int, r: Seq<(Seq<char>, bool)>) -> bool {
        exists|cs: Seq<Seq<char>>| #[trigger] self.index.controllers_are(uri, line, cs)
            && r == cs.map_values(|c: Seq<char>| (c, false))
    }

    /// `r` is the insertions offered for the finding `d` of the template `uri`: for the
    /// scope expression at the finding's start, one per script scope of each candidate
    /// controller; none without such an expression.
    pub open spec fn fixes_are(&self, uri: Seq<char>, d: Diagnostic, sources: Seq<(String, String)>, r: Seq<(Seq<char>, Seq<char>, u32, Seq<char>)>) -> bool {
        let line = d.range.start.line as int;
        let col = d.range.start.character as int;
        exists|h: Option<HtmlScopeReference>| #[trigger] first_found(list_at(self.index.html@.scope_references, uri), scope_reference_at(line, col), h)
            && match h {
                None => r.len() == 0,
                Some(x) => self.expression_fixes_are(uri, line, x.property_path@, sources, r),
            }
    }

    /// `r` is the insertions for the scope path `p` at `line` of `uri`.
    pub open spec fn expression_fixes_are(&self, uri: Seq<char>, line: int, p: Seq<char>, sources: Seq<(String, String)>, r: Seq<(Seq<char>, Seq<char>, u32, Seq<char>)>) -> bool {
        exists|cands: Seq<(Seq<char>, bool)>, ss: Seq<Seq<ControllerScope>>|
            #![trigger self.candidates_are(uri, line, alias_part(p), cands), candidate_fixes(cands, ss, property_part(p), sources)]
            self.candidates_are(uri, line, alias_part(p), cands) && ss.len() == cands.len()
            && (forall|k: int| 0 <= k < cands.len() ==> #[trigger] self.index.controllers.scopes_by_name_are(cands[k].0, ss[k]))
            && r == candidate_fixes(cands, ss, property_part(p), sources)
    }

    /// `r` is the code actions for `range` of `uri` given the findings `diags`: for a
    /// template, the fixes of each undefined-scope-property finding touching `range`, in
    /// order, or none when there are none; none for another document.
    pub open spec fn code_actions_are(&self, uri: Seq<char>, range: Range, diags: Seq<Diagnostic>, sources: Seq<(String, String)>, r: Option<Seq<((Seq<char>, Seq<char>, u32, Seq<char>), usize)>>) -> bool {
        if !html_path(path_of(uri)) {
            r is None
        } else {
            exists|per: Seq<Seq<(Seq<char>, Seq<char>, u32, Seq<char>)>>| #![trigger collected_fixes(diags, range, per, diags.len() as int)]
                per.len() == diags.len()
                && (forall|i: int| 0 <= i < diags.len() && selected(diags[i], range) ==> #[trigger] self.fixes_are(uri, diags[i], sources, per[i]))
                && r == if collected_fixes(diags, range, per, diags.len() as int).len() == 0 {
                    None
                } else {
                    Some(collected_fixes(diags, range, per, diags.len() as int))
                }
        }
    }

    /// Quick fixes for the findings `diagnostics` touching `range` of the template `uri`:
    /// for an undefined scope property, insert it at the top of each script scope of the
    /// controllers it may belong to. `sources` holds the text of the documents that are
    /// open, used for the indentation.
    pub fn code_action(&self, uri: &str, range: Range, diagnostics: &Vec<Diagnostic>, sources: &Vec<(String, String)>) -> (r: Option<Vec<QuickFix>>)
        ensures
            self.code_actions_are(uri@, range, diagnostics@, sources@, match r { Some(v) => Some(v@.map_values(|f: QuickFix| fix_view(f))), None => None }),
    {
        if !is_html_file(uri) {
            return None;
        }
        let mut actions: Vec<QuickFix> = Vec::new();
        let ghost mut per: Seq<Seq<(Seq<char>, Seq<char>, u32, Seq<char>)>> = Seq::empty();
        let mut i: usize = 0;
        while i < diagnostics.len()
            invariant
                i <= diagnostics@.len(),
                per.len() == i,
                html_path(path_of(uri@)),
                forall|k: int| 0 <= k < i && selected(diagnostics@[k], range) ==> #[trigger] self.fixes_are(uri@, diagnostics@[k], sources@, per[k]),
                actions@.map_values(|f: QuickFix| fix_view(f)) == collected_fixes(diagnostics@, range, per, i as int),
            decreases diagnostics.len() - i,
        {
            let d = &diagnostics[i];
            let coded = match &d.code {
                Some(c) => str_eq(c, UNDEFINED_SCOPE_PROPERTY_CODE),
                None => false,
            };
            let ghost before = actions@;
            let ghost per0 = per;
            if coded && ranges_overlap(&range, &d.range) {
                let fixes = self.actions_for_diagnostic(uri, d, sources);
                let ghost fv = fixes@.map_values(|x: PropertyInsertion| insertion_view(x));
                proof {
                    per = per.push(fv);
                    lemma_collected_frame(diagnostics@, range, per0, per, i as int);
                }
                self.append_fixes(&mut actions, fixes, i);
                proof {
                    assert(collected_fixes(diagnostics@, range, per, i + 1) =~= collected_fixes(diagnostics@, range, per, i as int)
                        + per[i as int].map_values(|x: (Seq<char>, Seq<char>, u32, Seq<char>)| (x, i)));
                }
            } else {
                proof {
                    per = per.push(Seq::empty());
                    lemma_collected_frame(diagnostics@, range, per0, per, i as int);
                    assert(!selected(diagnostics@[i as int], range));
                    assert(collected_fixes(diagnostics@, range, per, i + 1) =~= collected_fixes(diagnostics@, range, per, i as int));
                }
            }

            i += 1;
        }
        if actions.len() == 0 {
            None
        } else {
            Some(actions)
        }
    }

    /// Appends `fixes`, each for the finding at `i`.
    fn append_fixes(&self, actions: &mut Vec<QuickFix>, fixes: Vec<PropertyInsertion>, i: usize)
        ensures
            final(actions)@.map_values(|f: QuickFix| fix_view(f)) == old(actions)@.map_values(|f: QuickFix| fix_view(f))
                + fixes@.map_values(|x: PropertyInsertion| insertion_view(x)).map_values(|x: (Seq<char>, Seq<char>, u32, Seq<char>)| (x, i)),
    {
        let ghost start = old(actions)@;
        let ghost fv = fixes@.map_values(|x: PropertyInsertion| insertion_view(x));
        let ghost all = fixes@;
        let mut rest = fixes;
        while rest.len() > 0
            invariant
                rest@.len() <= all.len(),
                rest@ == all.skip(all.len() - rest@.len()),
                fv == all.map_values(|x: PropertyInsertion| insertion_view(x)),
                actions@.map_values(|f: QuickFix| fix_view(f)) == start.map_values(|f: QuickFix| fix_view(f))
                    + fv.take(all.len() - rest@.len()).map_values(|x: (Seq<char>, Seq<char>, u32, Seq<char>)| (x, i)),
            decreases rest.len(),
        {
            let ghost k = all.len() - rest@.len();
            let ghost before = actions@;
            let x = rest.remove(0);
            proof { assert(rest@ =~= all.skip(k + 1)); }
            actions.push(QuickFix { insertion: x, diagnostic: i });
            proof {
                assert(fv.take(k + 1) =~= fv.take(k).push(fv[k]));
                assert(actions@.map_values(|f: QuickFix| fix_view(f)) =~= before.map_values(|f: QuickFix| fix_view(f)).push(fix_view(actions@.last())));
                assert(fv.take(k + 1).map_values(|x: (Seq<char>, Seq<char>, u32, Seq<char>)| (x, i))
                    =~= fv.take(k).map_values(|x: (Seq<char>, Seq<char>, u32, Seq<char>)| (x, i)).push((fv[k], i)));
            }
        }
        proof { assert(fv.take(all.len() as int) =~= fv); }
    }

    /// The insertions for the finding `d` of the template `uri`.
    fn actions_for_diagnostic(&self, uri: &str, d: &Diagnostic, sources: &Vec<(String, String)>) -> (r: Vec<PropertyInsertion>)
        ensures
            self.fixes_are(uri@, *d, sources@, r@.map_values(|x: PropertyInsertion| insertion_view(x))),
    {
        let line = d.range.start.line;
        let col = d.range.start.character;
        let h = self.index.html.find_html_scope_reference_at(uri, line, col);
        let html_ref = match h {
            Some(x) => x,
            None => {
                assert(first_found(list_at(self.index.html@.scope_references, uri@), scope_reference_at(line as int, col as int), h));
                return Vec::new();
            },
        };
        assert(first_found(list_at(self.index.html@.scope_references, uri@), scope_reference_at(line as int, col as int), h));
        let (alias, property) = split_alias_and_property(&html_ref.property_path);
        let ghost p = html_ref.property_path@;
        assert(property@ == property_part(p));
        let mut cands: Vec<(String, bool)> = Vec::new();
        match &alias {
            Some(a) => {
                assert(alias_part(p) == Some(a@));
                let res = self.index.resolve_controller_by_alias(uri, line, a);
                let ghost rv = crate::index::query::opt_view(res);
                match res {
                    Some(c) => cands.push((c, true)),
                    None => {},
                }
                proof {
                    assert(self.index.alias_resolution_is(uri@, line as int, a@, rv));
                    assert(cand_view(cands@) =~= match rv { Some(c) => seq![(c, true)], None => Seq::empty() });
                    assert(self.candidates_are(uri@, line as int, alias_part(p), cand_view(cands@)));
                }
            },
            None => {
                assert(alias_part(p) is None);
                let cs = self.index.resolve_controllers_for_html(uri, line);
                let ghost csv = views(cs@);
                assert(self.index.controllers_are(uri@, line as int, csv));
                cands = pair_with(cs, false);
                assert(cand_view(cands@) =~= csv.map_values(|c: Seq<char>| (c, false)));
                assert(self.candidates_are(uri@, line as int, alias_part(p), cand_view(cands@)));
            },
        }
        let ghost cv = cand_view(cands@);
        let r = self.fixes_for_candidates(&cands, &property, sources);
        assert(self.expression_fixes_are(uri@, line as int, html_ref.property_path@, sources@, r@.map_values(|x: PropertyInsertion| insertion_view(x))));
        r
    }

    /// The insertions for each candidate of `cands`.
    fn fixes_for_candidates(&self, cands: &Vec<(String, bool)>, property: &String, sources: &Vec<(String, String)>) -> (r: Vec<PropertyInsertion>)
        ensures
            exists|ss: Seq<Seq<ControllerScope>>| #![trigger candidate_fixes(cand_view(cands@), ss, property@, sources@)]
                ss.len() == cands@.len()
                && (forall|k: int| 0 <= k < cands@.len() ==> #[trigger] self.index.controllers.scopes_by_name_are(cands@[k].0@, ss[k]))
                && r@.map_values(|x: PropertyInsertion| insertion_view(x)) == candidate_fixes(cand_view(cands@), ss, property@, sources@),
    {
        let ghost cv = cand_view(cands@);
        let ghost mut ss: Seq<Seq<ControllerScope>> = Seq::empty();
        let mut r: Vec<PropertyInsertion> = Vec::new();
        let mut j: usize = 0;
        while j < cands.len()
            invariant
                j <= cands@.len(),
                ss.len() == j,
                cv == cand_view(cands@),
                forall|k: int| 0 <= k < j ==> #[trigger] self.index.controllers.scopes_by_name_are(cands@[k].0@, ss[k]),
                r@.map_values(|x: PropertyInsertion| insertion_view(x)) == candidate_fixes(cv.take(j as int), ss, property@, sources@),
            decreases cands.len() - j,
        {
            let scopes = self.index.controllers.get_controller_scopes_by_name(&cands[j].0);
            let ghost sv = scopes@;
            let ghost before = r@;
            let mut more = scope_insertions(&cands[j].0, cands[j].1, &scopes, property, sources);
            r.append(&mut more);
            proof {
                let ss2 = ss.push(sv);
                assert(cv.take(j + 1).drop_last() =~= cv.take(j as int));
                assert(cv.take(j + 1).last() == cv[j as int]);
                lemma_candidate_fixes_frame(cv.take(j as int), ss, ss2, property@, sources@);
                ss = ss2;
                assert(r@.map_values(|x: PropertyInsertion| insertion_view(x)) =~= before.map_values(|x: PropertyInsertion| insertion_view(x))
                    + scope_fixes(cv[j as int], sv, property@, sources@));
            }
            j += 1;
        }
        proof { assert(cv.take(cands@.len() as int) =~= cv); }
        r
    }
}

/// Only the insertions of the first `n` findings matter.
proof fn lemma_collected_frame(diags: Seq<Diagnostic>, range: Range, per: Seq<Seq<(Seq<char>, Seq<char>, u32, Seq<char>)>>, per2: Seq<Seq<(Seq<char>, Seq<char>, u32, Seq<char>)>>, n: int)
    requires
        n <= per.len(),
        n <= per2.len(),
        forall|k: int| 0 <= k < n ==> per[k] == per2[k],
    ensures
        collected_fixes(diags, range, per, n) == collected_fixes(diags, range, per2, n),
    decreases n,
{
    if n > 0 {
        lemma_collected_frame(diags, range, per, per2, n - 1);
    }
}

/// Only the first `cands.len()` lists of scopes matter.
proof fn lemma_candidate_fixes_frame(cands: Seq<(Seq<char>, bool)>, ss: Seq<Seq<ControllerScope>>, ss2: Seq<Seq<ControllerScope>>, property: Seq<char>, sources: Seq<(String, String)>)
    requires
        cands.len() <= ss.len(),
        cands.len() <= ss2.len(),
        forall|k: int| 0 <= k < cands.len() ==> ss[k] == ss2[k],
    ensures
        candidate_fixes(cands, ss, property, sources) == candidate_fixes(cands, ss2, property, sources),
    decreases cands.len(),
{
    if cands.len() > 0 {
        lemma_candidate_fixes_frame(cands.drop_last(), ss, ss2, property, sources);
    }
}

/// The names and flags of candidate controllers.
pub open spec fn cand_view(cs: Seq<(String, bool)>) -> Seq<(Seq<char>, bool)> {
    cs.map_values(|c: (String, bool)| (c.0@, c.1))
}

/// Each name of `cs` with `flag`.
fn pair_with(cs: Vec<String>, flag: bool) -> (r: Vec<(String, bool)>)
    ensures
        cand_view(r@) == views(cs@).map_values(|c: Seq<char>| (c, flag)),
{
    let ghost all = cs@;
    let mut rest = cs;
    let mut r: Vec<(String, bool)> = Vec::new();
    while rest.len() > 0
        invariant
            rest@.len() <= all.len(),
            rest@ == all.skip(all.len() - rest@.len()),
            cand_view(r@) == views(all.take(all.len() - rest@.len())).map_values(|c: Seq<char>| (c, flag)),
        decreases rest.len(),
    {
        let ghost k = all.len() - rest@.len();
        let ghost before = r@;
        let c = rest.remove(0);
        proof { assert(rest@ =~= all.skip(k + 1)); }
        r.push((c, flag));
        proof {
            assert(views(all.take(k + 1)) =~= views(all.take(k)).push(all[k]@));
            assert(cand_view(r@) =~= cand_view(before).push((all[k]@, flag)));
        }
    }
    proof { assert(all.take(all.len() as int) =~= all); }
    r
}

/// The text `sources` gives for `uri`.
fn lookup_source<'b>(sources: &'b Vec<(String, String)>, uri: &str) -> (r: Option<&'b String>)
    ensures
        match r {
            Some(t) => source_for(sources@, uri@) == Some(t@),
            None => source_for(sources@, uri@) is None,
        },
{
    let mut k: usize = 0;
    while k < sources.len()
        invariant
            k <= sources@.len(),
            source_for(sources@.take(k as int), uri@) is None,
        decreases sources.len() - k,
    {
        proof {
            assert(sources@.take(k + 1).drop_last() =~= sources@.take(k as int));
        }
        if str_eq(&sources[k].0, uri) {
            proof { lemma_source_for_prefix(sources@, uri@, k + 1); }
            return Some(&sources[k].1);
        }
        k += 1;
    }
    proof { assert(sources@.take(sources@.len() as int) =~= sources@); }
    None
}

/// Once a prefix of `sources` has the document, the whole list gives the same text.
proof fn lemma_source_for_prefix(sources: Seq<(String, String)>, uri: Seq<char>, k: int)
    requires
        0 <= k <= sources.len(),
        source_for(sources.take(k), uri) is Some,
    ensures
        source_for(sources, uri) == source_for(sources.take(k), uri),
    decreases sources.len() - k,
{
    if k < sources.len() {
        assert(sources.take(k + 1).drop_last() =~= sources.take(k));
        lemma_source_for_prefix(sources, uri, k + 1);
    } else {
        assert(sources.take(k) =~= sources);
    }
}

/// The insertions for the controller `name` of each scope of `scopes`.
fn scope_insertions(name: &String, prefer_this: bool, scopes: &Vec<ControllerScope>, property: &String, sources: &Vec<(String, String)>) -> (r: Vec<PropertyInsertion>)
    ensures
        r@.map_values(|x: PropertyInsertion| insertion_view(x)) == scope_fixes((name@, prefer_this), scopes@, property@, sources@),
{
    let mut r: Vec<PropertyInsertion> = Vec::new();
    let mut k: usize = 0;
    while k < scopes.len()
        invariant
            k <= scopes@.len(),
            r@.map_values(|x: PropertyInsertion| insertion_view(x)) == scope_fixes((name@, prefer_this), scopes@.take(k as int), property@, sources@),
        decreases scopes.len() - k,
    {
        let scope = &scopes[k];
        proof {
            assert(scopes@.take(k + 1).drop_last() =~= scopes@.take(k as int));
            assert(scopes@.take(k + 1).last() == scopes@[k as int]);
        }
        let ghost before = r@;
        let src = lookup_source(sources, &scope.uri);
        match build_insert_property_action(name, property, prefer_this, scope, src) {
            Some(a) => {
                r.push(a);
                proof {
                    assert(r@.map_values(|x: PropertyInsertion| insertion_view(x)) =~= before.map_values(|x: PropertyInsertion| insertion_view(x)).push(insertion_view(a)));
                }
            },
            None => {},
        }
        k += 1;
    }
    proof { assert(scopes@.take(scopes@.len() as int) =~= scopes@); }
    r
}
} // verus!
