//! What the cursor is on in a template, by a fixed order of precedence shared by
//! definition, hover and references.
use vstd::prelude::*;

use crate::handler::inlay_hints::{utf8_len, utf8_width};
use crate::index::html_store::{
    directive_at, first_found, form_name_at, local_reference_at, local_variable_name_at,
    scope_reference_at, ui_sref_at,
};
use crate::index::query::{opt_view, split_at_marker};
use crate::index::snapshot::{flatten, list_at};
use crate::index::tables::list_snapshot_of;
use crate::index::Index;
use crate::lsp::Position;
use crate::model::{
    HtmlDirectiveReference, HtmlFormBinding, HtmlLocalVariable, HtmlLocalVariableReference,
    HtmlScopeReference, HtmlUiSrefReference,
};
use crate::text::{
    char_is_alphanumeric, chars_of, first_index, line_bounds, line_range, string_from_chars,
    unicode_alphanumeric, views,
};

verus! {

/// What the cursor is on, in order of precedence.
#[derive(Debug, Clone)]
pub enum HtmlResolution {
    /// The state name of a `ui-sref`.
    UiSref(HtmlUiSrefReference),
    /// A custom directive or component.
    Directive(HtmlDirectiveReference),
    /// Where a local variable is defined.
    LocalVarDef(HtmlLocalVariable),
    /// A use of a local variable, with the variable's definition.
    LocalVarRef(HtmlLocalVariable),
    /// The name of a `<form name="x">`.
    FormBindingDef(HtmlFormBinding),
    /// A form defined in this or a parent template, used by name.
    InheritedFormBinding(HtmlFormBinding),
    /// A local variable defined in this or a parent template, used by name.
    InheritedLocalVar(HtmlLocalVariable),
    /// A scope property: the candidate controllers, the property path, and whether an
    /// alias named the controller.
    Scope { controllers: Vec<String>, property_path: String, is_alias: bool },
}

/// A character of an identifier: alphanumeric, `_` or `$`.
pub open spec fn is_identifier_char(c: char) -> bool {
    unicode_alphanumeric(c) || c == '_' || c == '$'
}

/// Where the run of identifier characters that ends at `i` starts.
pub open spec fn identifier_start(l: Seq<char>, i: int) -> int
    decreases i,
{
    if i <= 0 || i > l.len() || !is_identifier_char(l[i - 1]) { i } else { identifier_start(l, i - 1) }
}

/// Where the run of identifier characters that starts at `i` ends.
pub open spec fn identifier_end(l: Seq<char>, i: int) -> int
    decreases l.len() - i,
{
    if i < 0 || i >= l.len() || !is_identifier_char(l[i]) { i } else { identifier_end(l, i + 1) }
}

/// The text of line `k` of `s`, as `str::lines` yields it.
pub open spec fn line_text(s: Seq<char>, k: nat) -> Option<Seq<char>> {
    match line_bounds(s, k) {
        Some((a, b)) => Some(s.subrange(a, b)),
        None => None,
    }
}

/// The identifier at `(line, col)` of `s`: on that line, the run of identifier
/// characters around character `col`; none when the line is missing, when `col` is not
/// below the line's length in bytes, or when the run is empty.
pub open spec fn identifier_at(s: Seq<char>, line: nat, col: nat) -> Option<Seq<char>> {
    match line_text(s, line) {
        None => None,
        Some(l) => if col >= utf8_len(l) {
            None
        } else {
            let a = identifier_start(l, col as int);
            let b = identifier_end(l, col as int);
            if a == b { None } else { Some(l.subrange(a, b)) }
        },
    }
}

/// The line can be cut at character `col`: it has that many characters, or `col` is at
/// least its length in bytes.
pub open spec fn cuttable_at(s: Seq<char>, line: nat, col: nat) -> bool {
    match line_text(s, line) {
        None => true,
        Some(l) => col <= l.len() || col >= utf8_len(l),
    }
}

/// `utf8_len` of a prefix grows by the width of the next character.
proof fn lemma_utf8_len_take(s: Seq<char>, i: int)
    requires
        0 <= i < s.len(),
    ensures
        utf8_len(s.take(i + 1)) == utf8_len(s.take(i)) + utf8_width(s[i]),
{
    assert(s.take(i + 1).drop_last() =~= s.take(i));
}

/// Whether the UTF-8 length of `cs[a..b]` exceeds `col`.
pub(crate) fn bytes_exceed(cs: &Vec<char>, a: usize, b: usize, col: u32) -> (r: bool)
    requires
        a <= b <= cs@.len(),
    ensures
        r == (utf8_len(cs@.subrange(a as int, b as int)) > col),
{
    let ghost l = cs@.subrange(a as int, b as int);
    let mut n: u64 = 0;
    let mut i: usize = a;
    while i < b
        invariant
            a <= i <= b <= cs@.len(),
            l == cs@.subrange(a as int, b as int),
            n == utf8_len(l.take(i - a)),
            n <= col,
        decreases b - i,
    {
        proof { lemma_utf8_len_take(l, i - a); }
        let c = cs[i];
        let w: u64 = if (c as u32) < 0x80 { 1 } else if (c as u32) < 0x800 { 2 } else if (c as u32) < 0x10000 { 3 } else { 4 };
        n = n + w;
        if n > col as u64 {
            proof { lemma_utf8_len_prefix_bound(l, i - a + 1); }
            return true;
        }
        i += 1;
    }
    proof { assert(l.take(i - a) =~= l); }
    false
}

/// A longer prefix takes at least as many bytes.
proof fn lemma_utf8_len_prefix_bound(l: Seq<char>, k: int)
    requires
        0 <= k <= l.len(),
    ensures
        utf8_len(l) >= utf8_len(l.take(k)),
    decreases l.len() - k,
{
    if k < l.len() {
        lemma_utf8_len_take(l, k);
        lemma_utf8_len_prefix_bound(l, k + 1);
    } else {
        assert(l.take(k) =~= l);
    }
}

/// The identifier at `position` of `source`: on that line, the run of alphanumeric, `_`
/// and `$` characters around the position's character.
pub fn extract_identifier_at_position(source: &str, position: Position) -> (r: Option<String>)
    requires
        cuttable_at(source@, position.line as nat, position.character as nat),
    ensures
        opt_view(r) == identifier_at(source@, position.line as nat, position.character as nat),
{
    let cs = chars_of(source);
    let (a, b) = match line_range(&cs, position.line) {
        Some(bounds) => bounds,
        None => {
            return None;
        },
    };
    proof { crate::text::lemma_line_bounds_ok(cs@, position.line as nat); }
    let ghost l = cs@.subrange(a as int, b as int);
    let col = position.character;
    if !bytes_exceed(&cs, a, b, col) {
        return None;
    }
    let c = col as usize;
    proof { assert(c <= l.len()); }
    let mut start: usize = c;
    while start > 0 && is_ident(cs[a + start - 1])
        invariant
            start <= c <= l.len(),
            l == cs@.subrange(a as int, b as int),
            a + l.len() == b,
            b <= cs@.len(),
            identifier_start(l, start as int) == identifier_start(l, c as int),
        decreases start,
    {
        start -= 1;
    }
    let mut end: usize = c;
    while end < b - a && is_ident(cs[a + end])
        invariant
            c <= end <= l.len(),
            l == cs@.subrange(a as int, b as int),
            a + l.len() == b,
            b <= cs@.len(),
            identifier_end(l, end as int) == identifier_end(l, c as int),
        decreases b - a - end,
    {
        end += 1;
    }
    if start == end {
        return None;
    }
    let r = string_from_chars(&cs, a + start, a + end);
    proof { assert(r@ =~= l.subrange(start as int, end as int)); }
    Some(r)
}

/// Whether `c` is alphanumeric, `_` or `$`.
pub(crate) fn is_ident(c: char) -> (r: bool)
    ensures
        r == is_identifier_char(c),
{
    char_is_alphanumeric(c) || c == '_' || c == '$'
}

/// What `resolve_scope_target` gives for a property path: the controller its alias
/// names with the rest of the path, when the path has an alias that resolves; else every
/// controller in effect with the whole path.
pub open spec fn scope_target_is(idx: &Index, uri: Seq<char>, line: int, path: Seq<char>, cs: Seq<Seq<char>>, prop: Seq<char>, is_alias: bool) -> bool {
    match split_at_marker(path, "."@) {
        Some((alias, rest)) => exists|res: Option<Seq<char>>| #[trigger] idx.alias_resolution_is(uri, line, alias, res) && match res {
            Some(c) => cs == seq![c] && prop == rest && is_alias,
            None => idx.controllers_are(uri, line, cs) && prop == path && !is_alias,
        },
        None => idx.controllers_are(uri, line, cs) && prop == path && !is_alias,
    }
}

impl Index {
    /// The controllers and property a scope path at `line` of `uri` stands for.
    fn resolve_scope_target(&self, uri: &str, line: u32, property_path: &str) -> (r: (Vec<String>, String, bool))
        ensures
            scope_target_is(self, uri@, line as int, property_path@, views(r.0@), r.1@, r.2),
    {
        proof { reveal_strlit("."); }
        match crate::index::query::split_first_pub(property_path, ".") {
            Some((alias, prop)) => {
                let res = self.resolve_controller_by_alias(uri, line, &alias);
                let ghost w = opt_view(res);
                match res {
                    Some(controller) => {
                        let mut v: Vec<String> = Vec::new();
                        v.push(controller);
                        proof {
                            assert(views(v@) =~= seq![w.unwrap()]);
                            assert(self.alias_resolution_is(uri@, line as int, alias@, w));
                            let sp = split_at_marker(property_path@, "."@);
                            assert(sp == Some((alias@, prop@)));
                            let al = sp.unwrap().0;
                            assert(self.alias_resolution_is(uri@, line as int, al, w));
                            assert(scope_target_is(self, uri@, line as int, property_path@, views(v@), prop@, true));
                        }
                        return (v, prop, true);
                    },
                    None => {
                        let cs = self.resolve_controllers_for_html(uri, line);
                        let whole = property_path.to_owned();
                        proof {
                            assert(self.alias_resolution_is(uri@, line as int, alias@, w));
                            let sp = split_at_marker(property_path@, "."@);
                            assert(sp == Some((alias@, prop@)));
                            let al = sp.unwrap().0;
                            assert(self.alias_resolution_is(uri@, line as int, al, w));
                            assert(scope_target_is(self, uri@, line as int, property_path@, views(cs@), whole@, false));
                        }
                        (cs, whole, false)
                    },
                }
            },
            None => (self.resolve_controllers_for_html(uri, line), property_path.to_owned(), false),
        }
    }

    /// `r` is what `resolve_html_position` gives at `(line, col)` of the template `uri`
    /// whose text is `source`, when known: the first `ui-sref` state name there; else the
    /// first directive; else the first local variable defined there; else, for a use of a
    /// local variable there, its definition when it has one; else as
    /// [`Self::after_local_reference_is`] says.
    pub open spec fn html_resolution_holds(&self, uri: Seq<char>, line: int, col: int, source: Option<Seq<char>>, r: Option<HtmlResolution>) -> bool {
        let srefs = list_at(self.html@.ui_sref_references, uri);
        let dirs = list_at(self.html@.directive_references, uri);
        let vars = list_at(self.html@.local_variables, uri);
        exists|s: Option<HtmlUiSrefReference>| #[trigger] first_found(srefs, ui_sref_at(line, col), s) && match s {
            Some(x) => r == Some(HtmlResolution::UiSref(x)),
            None => exists|d: Option<HtmlDirectiveReference>| #[trigger] first_found(dirs, directive_at(line, col), d) && match d {
                Some(x) => r == Some(HtmlResolution::Directive(x)),
                None => exists|vd: Option<HtmlLocalVariable>| #[trigger] first_found(vars, local_variable_name_at(line, col), vd) && match vd {
                    Some(x) => r == Some(HtmlResolution::LocalVarDef(x)),
                    None => exists|lr: Option<HtmlLocalVariableReference>| #[trigger] self.html.local_reference_at_is(uri, line, col, lr) && match lr {
                        Some(v) => exists|def: Option<HtmlLocalVariable>| #[trigger] self.local_definition_is(uri, v.variable_name@, line, def) && match def {
                            Some(x) => r == Some(HtmlResolution::LocalVarRef(x)),
                            None => self.after_local_reference_is(uri, line, col, source, r),
                        },
                        None => self.after_local_reference_is(uri, line, col, source, r),
                    },
                },
            },
        }
    }

    /// After the local-variable steps: the first form named there; else as
    /// [`Self::scope_step_is`] says.
    pub open spec fn after_local_reference_is(&self, uri: Seq<char>, line: int, col: int, source: Option<Seq<char>>, r: Option<HtmlResolution>) -> bool {
        let forms = list_at(self.html@.form_bindings, uri);
        exists|b: Option<HtmlFormBinding>| #[trigger] first_found(forms, form_name_at(line, col), b) && match b {
            Some(x) => r == Some(HtmlResolution::FormBindingDef(x)),
            None => self.scope_step_is(uri, line, col, source, r),
        }
    }

    /// For the first scope expression there: the form its first segment names, else the
    /// local variable its first segment names, else the scope target of its path. Without
    /// a scope expression, as [`Self::identifier_fallback_is`] says.
    pub open spec fn scope_step_is(&self, uri: Seq<char>, line: int, col: int, source: Option<Seq<char>>, r: Option<HtmlResolution>) -> bool {
        let scopes = list_at(self.html@.scope_references, uri);
        exists|h: Option<HtmlScopeReference>| #[trigger] first_found(scopes, scope_reference_at(line, col), h) && match h {
            Some(h) => {
                let base = root_segment(h.property_path@);
                exists|fb: Option<HtmlFormBinding>| #[trigger] self.form_definition_is(uri, base, line, fb) && match fb {
                    Some(x) => r == Some(HtmlResolution::InheritedFormBinding(x)),
                    None => exists|lv: Option<HtmlLocalVariable>| #[trigger] self.local_definition_is(uri, base, line, lv) && match lv {
                        Some(x) => r == Some(HtmlResolution::InheritedLocalVar(x)),
                        None => r matches Some(HtmlResolution::Scope { controllers, property_path, is_alias })
                            && scope_target_is(self, uri, line, h.property_path@, views(controllers@), property_path@, is_alias),
                    },
                }
            },
            None => self.identifier_fallback_is(uri, line, col, source, r),
        }
    }

    /// With the template's text: for the identifier at the cursor, the form its first
    /// segment names, else the local variable it names; else nothing.
    pub open spec fn identifier_fallback_is(&self, uri: Seq<char>, line: int, col: int, source: Option<Seq<char>>, r: Option<HtmlResolution>) -> bool {
        match source {
            None => r is None,
            Some(src) => match identifier_at(src, line as nat, col as nat) {
                None => r is None,
                Some(id) => exists|fb: Option<HtmlFormBinding>| #[trigger] self.form_definition_is(uri, root_segment(id), line, fb) && match fb {
                    Some(x) => r == Some(HtmlResolution::InheritedFormBinding(x)),
                    None => exists|lv: Option<HtmlLocalVariable>| #[trigger] self.local_definition_is(uri, id, line, lv) && match lv {
                        Some(x) => r == Some(HtmlResolution::InheritedLocalVar(x)),
                        None => r is None,
                    },
                },
            },
        }
    }

    /// What the cursor at `position` of the template `uri` is on. In order: a `ui-sref`
    /// state name, a directive, a local variable's definition, a use of a local variable
    /// that has a definition, a form's name, a scope expression (a form or local variable
    /// known by its first segment, else a scope property); failing all of these, with the
    /// template's text, the identifier at the cursor as an inherited form or local variable.
    pub fn resolve_html_position(&self, uri: &str, position: Position, source: Option<&str>) -> (r: Option<HtmlResolution>)
        requires
            match source {
                Some(src) => cuttable_at(src@, position.line as nat, position.character as nat),
                None => true,
            },
        ensures
            self.html_resolution_holds(uri@, position.line as int, position.character as int,
                match source { Some(s) => Some(s@), None => None }, r),
    {
        let line = position.line;
        let col = position.character;
        let ghost src_view: Option<Seq<char>> = match source { Some(s) => Some(s@), None => None };
        let s = self.html.find_ui_sref_reference_at(uri, line, col);
        if let Some(x) = s {
            return Some(HtmlResolution::UiSref(x));
        }
        let d = self.html.find_html_directive_reference_at(uri, line, col);
        if let Some(x) = d {
            return Some(HtmlResolution::Directive(x));
        }
        let vd = self.html.find_html_local_variable_definition_at(uri, line, col);
        if let Some(x) = vd {
            return Some(HtmlResolution::LocalVarDef(x));
        }
        let lr = self.html.find_html_local_variable_at(uri, line, col);
        match lr {
            Some(v) => {
                let def = self.find_local_variable_definition(uri, &v.variable_name, line);
                match def {
                    Some(x) => {
                        return Some(HtmlResolution::LocalVarRef(x));
                    },
                    None => {
                        let r = self.resolve_after_local_reference(uri, position, source);
                        proof {
                            assert(self.local_definition_is(uri@, v.variable_name@, line as int, def));
                            assert(self.html.local_reference_at_is(uri@, line as int, col as int, lr));
                        }
                        return r;
                    },
                }
            },
            None => {},
        }
        self.resolve_after_local_reference(uri, position, source)
    }

    /// [`Self::after_local_reference_is`]: the form named there, else the scope step.
    fn resolve_after_local_reference(&self, uri: &str, position: Position, source: Option<&str>) -> (r: Option<HtmlResolution>)
        requires
            match source {
                Some(src) => cuttable_at(src@, position.line as nat, position.character as nat),
                None => true,
            },
        ensures
            self.after_local_reference_is(uri@, position.line as int, position.character as int,
                match source { Some(s) => Some(s@), None => None }, r),
    {
        let line = position.line;
        let col = position.character;
        let b = self.html.find_html_form_binding_at(uri, line, col);
        if let Some(x) = b {
            return Some(HtmlResolution::FormBindingDef(x));
        }
        let h = self.html.find_html_scope_reference_at(uri, line, col);
        match h {
            Some(h) => {
                let base = crate::handler::code_action::property_root_segment(&h.property_path);
                proof { lemma_root_segment(h.property_path@, base@); }
                let fb = self.find_form_binding_definition(uri, base, line);
                if let Some(x) = fb {
                    return Some(HtmlResolution::InheritedFormBinding(x));
                }
                let lv = self.find_local_variable_definition(uri, base, line);
                if let Some(x) = lv {
                    return Some(HtmlResolution::InheritedLocalVar(x));
                }
                let (controllers, property_path, is_alias) = self.resolve_scope_target(uri, line, &h.property_path);
                let res = HtmlResolution::Scope { controllers, property_path, is_alias };
                proof {
                    assert(res matches HtmlResolution::Scope { controllers: c2, property_path: p2, is_alias: a2 }
                        && scope_target_is(self, uri@, line as int, h.property_path@, views(c2@), p2@, a2));
                    assert(self.form_definition_is(uri@, root_segment(h.property_path@), line as int, fb));
                    assert(self.local_definition_is(uri@, root_segment(h.property_path@), line as int, lv));
                }
                Some(res)
            },
            None => {
                let r = self.resolve_identifier_fallback(uri, position, source);
                proof {
                    assert(first_found(list_at(self.html@.scope_references, uri@), scope_reference_at(line as int, col as int), h));
                }
                r
            },
        }
    }

    /// [`Self::identifier_fallback_is`].
    fn resolve_identifier_fallback(&self, uri: &str, position: Position, source: Option<&str>) -> (r: Option<HtmlResolution>)
        requires
            match source {
                Some(src) => cuttable_at(src@, position.line as nat, position.character as nat),
                None => true,
            },
        ensures
            self.identifier_fallback_is(uri@, position.line as int, position.character as int,
                match source { Some(s) => Some(s@), None => None }, r),
    {
        let line = position.line;
        match source {
            Some(src) => {
                match extract_identifier_at_position(src, position) {
                    Some(identifier) => {
                        let base = crate::handler::code_action::property_root_segment(&identifier);
                        proof { lemma_root_segment(identifier@, base@); }
                        let fb = self.find_form_binding_definition(uri, base, line);
                        proof {
                            assert(identifier_at(src@, position.line as nat, position.character as nat) == Some(identifier@));
                            assert(identifier_at(src@, (position.line as int) as nat, (position.character as int) as nat) == Some(identifier@));
                            assert(self.form_definition_is(uri@, root_segment(identifier@), line as int, fb));
                        }
                        if let Some(x) = fb {
                            let r = Some(HtmlResolution::InheritedFormBinding(x));
                            proof {
                                let id = identifier_at(src@, (position.line as int) as nat, (position.character as int) as nat)->0;
                                assert(id == identifier@);
                                assert(self.form_definition_is(uri@, root_segment(id), position.line as int, fb));
                                assert(fb == Some(x));
                                assert(self.identifier_fallback_is(uri@, position.line as int, position.character as int, Some(src@), r));
                            }
                            return r;
                        }
                        let lv = self.find_local_variable_definition(uri, &identifier, line);
                        let ghost id = identifier_at(src@, (position.line as int) as nat, (position.character as int) as nat)->0;
                        proof {
                            assert(id == identifier@);
                            assert(self.local_definition_is(uri@, id, position.line as int, lv));
                            assert(self.form_definition_is(uri@, root_segment(id), position.line as int, fb));
                        }
                        if let Some(x) = lv {
                            let r = Some(HtmlResolution::InheritedLocalVar(x));
                            proof {
                                assert(self.identifier_fallback_is(uri@, position.line as int, position.character as int, Some(src@), r));
                            }
                            return r;
                        }
                        proof {
                            assert(self.identifier_fallback_is(uri@, position.line as int, position.character as int, Some(src@), None));
                        }
                        None
                    },
                    None => None,
                }
            },
            None => None,
        }
    }
}

/// The first segment of a property path: up to its first `.`, or the whole path.
pub open spec fn root_segment(p: Seq<char>) -> Seq<char> {
    match first_index(p, '.') {
        Some(i) => p.take(i),
        None => p,
    }
}

proof fn lemma_root_segment(p: Seq<char>, b: Seq<char>)
    requires
        match first_index(p, '.') {
            Some(i) => b == p.take(i),
            None => b == p,
        },
    ensures
        b == root_segment(p),
{
}

} // verus!
