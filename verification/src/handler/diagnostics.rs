//! Diagnostics on templates and scripts: undefined scope properties, undefined
//! local variables, unused scope variables, and component bindings that a
//! component element misses or does not have.
use vstd::prelude::*;

use crate::index::Index;
use crate::handler::code_action::split_alias_and_property;
use crate::lsp::{Position, Range};
use crate::model::{HtmlComponentAttribute, HtmlComponentUsage, SymbolKind, HtmlFormBinding, HtmlLocalVariable, HtmlLocalVariableReference, HtmlScopeReference, Symbol, SymbolReference, COMPONENT_BINDING_DOCS_PREFIX};
use crate::index::query::opt_view;
use crate::index::snapshot::list_at;
use crate::text::{chars_of, concat, find_char, find_str, first_index, first_occurrence, last_index, lemma_first_occurrence, lemma_last_index, rfind_char, str_eq, str_starts_with, string_from_chars, views};
use crate::index::definition_store::definitions_in;

verus! {

/// How serious a diagnostic is.
#[derive(Debug, Clone, Copy, PartialEq, Eq, Structural)]
pub enum Severity {
    Error,
    Warning,
    Information,
    Hint,
}

/// `c` lowered if it is an ASCII capital, unchanged otherwise.
pub open spec fn ascii_lower(c: char) -> char {
    if 'A' <= c <= 'Z' { ((c as u32) + 32) as char } else { c }
}

/// `s` with its ASCII capitals lowered.
pub open spec fn ascii_lowercase(s: Seq<char>) -> Seq<char> {
    s.map_values(|c: char| ascii_lower(c))
}

/// The lowered form of `c` (ASCII capitals only).
pub fn lower_char(c: char) -> (r: char)
    ensures
        r == ascii_lower(c),
{
    if 'A' <= c && c <= 'Z' {
        let b = (c as u8) + 32;
        b as char
    } else {
        c
    }
}

/// `s` with its ASCII capitals lowered, as characters.
pub fn ascii_lowercase_chars(s: &str) -> (r: Vec<char>)
    ensures
        r@ == ascii_lowercase(s@),
{
    let cs = chars_of(s);
    let mut r: Vec<char> = Vec::new();
    let mut i: usize = 0;
    while i < cs.len()
        invariant
            i <= cs@.len(),
            cs@ == s@,
            r@ == ascii_lowercase(s@).take(i as int),
        decreases cs.len() - i,
    {
        r.push(lower_char(cs[i]));
        proof {
            assert(ascii_lowercase(s@).take(i + 1) =~= ascii_lowercase(s@).take(i as int).push(ascii_lower(cs@[i as int])));
        }
        i += 1;
    }
    proof { assert(ascii_lowercase(s@).take(i as int) =~= ascii_lowercase(s@)); }
    r
}

/// `cs` equals the characters of `w`.
pub fn chars_equal(cs: &Vec<char>, w: &str) -> (r: bool)
    ensures
        r == (cs@ == w@),
{
    let ws = chars_of(w);
    if cs.len() != ws.len() {
        return false;
    }
    let mut i: usize = 0;
    while i < cs.len()
        invariant
            i <= cs@.len(),
            cs@.len() == ws@.len(),
            ws@ == w@,
            forall|j: int| 0 <= j < i ==> cs@[j] == ws@[j],
        decreases cs.len() - i,
    {
        if cs[i] != ws[i] {
            return false;
        }
        i += 1;
    }
    proof { assert(cs@ =~= ws@); }
    true
}

/// `cs` starts with the characters of `w`.
pub fn chars_start_with(cs: &Vec<char>, w: &str) -> (r: bool)
    ensures
        r == (w@.len() <= cs@.len() && cs@.take(w@.len() as int) == w@),
{
    let ws = chars_of(w);
    if ws.len() > cs.len() {
        return false;
    }
    let mut i: usize = 0;
    while i < ws.len()
        invariant
            i <= ws@.len() <= cs@.len(),
            ws@ == w@,
            forall|j: int| 0 <= j < i ==> cs@[j] == ws@[j],
        decreases ws.len() - i,
    {
        if cs[i] != ws[i] {
            return false;
        }
        i += 1;
    }
    proof { assert(cs@.take(ws@.len() as int) =~= ws@); }
    true
}

/// The severity a configuration word names, compared without regard to ASCII case;
/// unknown words give a warning.
pub open spec fn severity_of(s: Seq<char>) -> Severity {
    let l = ascii_lowercase(s);
    if l == "error"@ {
        Severity::Error
    } else if l == "warning"@ {
        Severity::Warning
    } else if l == "hint"@ {
        Severity::Hint
    } else if l == "information"@ || l == "info"@ {
        Severity::Information
    } else {
        Severity::Warning
    }
}

/// The severity named by a configuration word (`error`, `warning`, `hint`,
/// `information`/`info`); anything else is a warning. The words hold no letter whose
/// Unicode lowercase differs from its ASCII lowercase, so comparing ASCII-lowered text
/// decides the same as comparing Unicode-lowered text.
pub fn severity_from_str(s: &str) -> (r: Severity)
    ensures
        r == severity_of(s@),
{
    let l = ascii_lowercase_chars(s);
    if chars_equal(&l, "error") {
        Severity::Error
    } else if chars_equal(&l, "warning") {
        Severity::Warning
    } else if chars_equal(&l, "hint") {
        Severity::Hint
    } else if chars_equal(&l, "information") || chars_equal(&l, "info") {
        Severity::Information
    } else {
        Severity::Warning
    }
}

/// The kind of a component binding.
#[derive(Debug, Clone, Copy, PartialEq, Eq, Structural)]
pub enum BindingKind {
    /// `<`
    OneWay,
    /// `=`
    TwoWay,
    /// `@`
    String,
    /// `&`
    Callback,
    /// Anything else.
    Unknown,
}

/// The characters `char::is_whitespace` accepts (Unicode White_Space).
pub open spec fn unicode_whitespace(c: char) -> bool {
    let v = c as u32;
    (0x09 <= v <= 0x0d) || v == 0x20 || v == 0x85 || v == 0xa0 || v == 0x1680
        || (0x2000 <= v <= 0x200a) || v == 0x2028 || v == 0x2029 || v == 0x202f
        || v == 0x205f || v == 0x3000
}

/// `char::is_whitespace`.
pub fn is_whitespace(c: char) -> (r: bool)
    ensures
        r == unicode_whitespace(c),
{
    let v = c as u32;
    (0x09 <= v && v <= 0x0d) || v == 0x20 || v == 0x85 || v == 0xa0 || v == 0x1680
        || (0x2000 <= v && v <= 0x200a) || v == 0x2028 || v == 0x2029 || v == 0x202f
        || v == 0x205f || v == 0x3000
}

/// The kind a binding symbol's leading character stands for.
pub open spec fn binding_kind_of(c: char) -> BindingKind {
    if c == '<' {
        BindingKind::OneWay
    } else if c == '=' {
        BindingKind::TwoWay
    } else if c == '@' {
        BindingKind::String
    } else if c == '&' {
        BindingKind::Callback
    } else {
        BindingKind::Unknown
    }
}

/// The binding kind at `t[q]`, when `t` has that position.
pub open spec fn binding_kind_at(t: Seq<char>, q: int) -> BindingKind {
    if 0 <= q < t.len() { binding_kind_of(t[q]) } else { BindingKind::Unknown }
}

/// What a binding's documentation says: after the prefix and any whitespace, an
/// optional `?` and then the binding symbol (later characters, such as an alias, do
/// not matter). Documentation not in that form gives `(Unknown, false)`: without the
/// prefix, or with a `?` that no binding symbol follows.
pub open spec fn binding_type_spec(docs: Option<Seq<char>>) -> (BindingKind, bool) {
    let prefix = COMPONENT_BINDING_DOCS_PREFIX@;
    match docs {
        None => (BindingKind::Unknown, false),
        Some(d) => if d.len() >= prefix.len() && d.take(prefix.len() as int) == prefix {
            let t = d.skip(prefix.len() as int);
            if exists|p: int| 0 <= p < t.len() && !unicode_whitespace(t[p]) {
                let p = choose|p: int| 0 <= p < t.len() && !unicode_whitespace(t[p])
                    && forall|q: int| 0 <= q < p ==> unicode_whitespace(t[q]);
                if t[p] == '?' {
                    if binding_kind_at(t, p + 1) == BindingKind::Unknown {
                        (BindingKind::Unknown, false)
                    } else {
                        (binding_kind_at(t, p + 1), true)
                    }
                } else {
                    (binding_kind_of(t[p]), false)
                }
            } else {
                (BindingKind::Unknown, false)
            }
        } else {
            (BindingKind::Unknown, false)
        },
    }
}

/// Reads the kind of a component binding and whether it is optional from the
/// documentation text of its symbol.
pub fn parse_binding_type(docs: Option<&str>) -> (r: (BindingKind, bool))
    ensures
        r == binding_type_spec(match docs { Some(d) => Some(d@), None => None }),
{
    let d = match docs {
        Some(d) => d,
        None => return (BindingKind::Unknown, false),
    };
    let cs = chars_of(d);
    if !chars_start_with(&cs, COMPONENT_BINDING_DOCS_PREFIX) {
        return (BindingKind::Unknown, false);
    }
    let plen = chars_of(COMPONENT_BINDING_DOCS_PREFIX).len();
    let ghost t = d@.skip(plen as int);
    let mut p = plen;
    while p < cs.len() && is_whitespace(cs[p])
        invariant
            plen <= p <= cs@.len(),
            cs@ == d@,
            t == cs@.skip(plen as int),
            forall|q: int| 0 <= q < p - plen ==> unicode_whitespace(t[q]),
        decreases cs.len() - p,
    {
        p += 1;
    }
    if p == cs.len() {
        proof {
            assert(!(exists|q: int| 0 <= q < t.len() && !unicode_whitespace(t[q])));
        }
        return (BindingKind::Unknown, false);
    }
    let ghost pp = p - plen;
    proof {
        assert(0 <= pp < t.len() && !unicode_whitespace(t[pp]));
        let c = choose|q: int| 0 <= q < t.len() && !unicode_whitespace(t[q])
            && forall|k: int| 0 <= k < q ==> unicode_whitespace(t[k]);
        if c < pp {
            assert(unicode_whitespace(t[c]));
        }
        if pp < c {
            assert(unicode_whitespace(t[pp]));
        }
        assert(c == pp);
    }
    let (optional, q) = if cs[p] == '?' { (true, p + 1) } else { (false, p) };
    let kind = if q >= cs.len() {
        BindingKind::Unknown
    } else if cs[q] == '<' {
        BindingKind::OneWay
    } else if cs[q] == '=' {
        BindingKind::TwoWay
    } else if cs[q] == '@' {
        BindingKind::String
    } else if cs[q] == '&' {
        BindingKind::Callback
    } else {
        BindingKind::Unknown
    };
    if optional && kind == BindingKind::Unknown {
        return (BindingKind::Unknown, false);
    }
    (kind, optional)
}

/// Attribute names (lowercase) that HTML itself defines and a component binding never uses.
pub open spec fn standard_html_attributes() -> Seq<Seq<char>> {
    seq![
        "id"@, "class"@, "style"@, "title"@, "lang"@, "dir"@, "hidden"@, "tabindex"@,
        "accesskey"@, "contenteditable"@, "draggable"@, "spellcheck"@, "translate"@, "role"@,
        "name"@, "type"@, "value"@, "href"@, "src"@, "alt"@, "target"@, "rel"@, "for"@,
        "placeholder"@, "disabled"@, "readonly"@, "required"@, "checked"@, "selected"@,
        "multiple"@, "autofocus"@, "autocomplete"@, "maxlength"@, "minlength"@, "max"@,
        "min"@, "step"@, "pattern"@, "size"@, "width"@, "height"@, "action"@, "method"@,
        "novalidate"@, "form"@, "colspan"@, "rowspan"@, "onclick"@, "onchange"@,
        "oninput"@, "onsubmit"@, "slot"@, "is"@
    ]
}

/// The standard attribute names as strings, in the order of [`standard_html_attributes`].
pub fn standard_attribute_names() -> (r: Vec<&'static str>)
    ensures
        r@.len() == standard_html_attributes().len(),
        forall|i: int| 0 <= i < r@.len() ==> #[trigger] r@[i]@ == standard_html_attributes()[i],
{
    let r: Vec<&'static str> = vec![
        "id", "class", "style", "title", "lang", "dir", "hidden", "tabindex",
        "accesskey", "contenteditable", "draggable", "spellcheck", "translate", "role",
        "name", "type", "value", "href", "src", "alt", "target", "rel", "for",
        "placeholder", "disabled", "readonly", "required", "checked", "selected",
        "multiple", "autofocus", "autocomplete", "maxlength", "minlength", "max",
        "min", "step", "pattern", "size", "width", "height", "action", "method",
        "novalidate", "form", "colspan", "rowspan", "onclick", "onchange",
        "oninput", "onsubmit", "slot", "is"
    ];
    assert(r@.len() == standard_html_attributes().len());
    r
}

/// `s` starts with `p`.
pub open spec fn starts_with(s: Seq<char>, p: Seq<char>) -> bool {
    p.len() <= s.len() && s.take(p.len() as int) == p
}

/// Whether a component-bindings diagnostic ignores this attribute: AngularJS's own
/// `ng-*` / `data-ng-*` directives, `aria-*` and `data-*` attributes and the standard
/// HTML attributes, all compared after lowering ASCII capitals.
pub open spec fn skips_attribute(name: Seq<char>) -> bool {
    let l = ascii_lowercase(name);
    starts_with(l, "ng-"@) || starts_with(l, "data-ng-"@) || starts_with(l, "aria-"@)
        || starts_with(l, "data-"@) || standard_html_attributes().contains(l)
}

/// See [`skips_attribute`].
pub fn should_skip_attribute(attr_name: &str) -> (r: bool)
    ensures
        r == skips_attribute(attr_name@),
{
    let lower = ascii_lowercase_chars(attr_name);
    if chars_start_with(&lower, "ng-") || chars_start_with(&lower, "data-ng-") {
        return true;
    }
    if chars_start_with(&lower, "aria-") || chars_start_with(&lower, "data-") {
        return true;
    }
    let all = standard_attribute_names();
    let mut i: usize = 0;
    while i < all.len()
        invariant
            i <= all@.len(),
            lower@ == ascii_lowercase(attr_name@),
            all@.len() == standard_html_attributes().len(),
            forall|j: int| 0 <= j < all@.len() ==> #[trigger] all@[j]@ == standard_html_attributes()[j],
            forall|j: int| 0 <= j < i ==> standard_html_attributes()[j] != lower@,
        decreases all.len() - i,
    {
        if chars_equal(&lower, all[i]) {
            assert(standard_html_attributes()[i as int] == lower@);
            return true;
        }
        i += 1;
    }
    false
}

/// Settings of the diagnostics.
pub struct DiagnosticsConfig {
    /// Whether any diagnostic is produced.
    pub enabled: bool,
    /// The severity word of every diagnostic (see [`severity_from_str`]).
    pub severity: String,
    /// The severity word of component-binding diagnostics; when absent, `severity`.
    pub bindings_mismatch_severity: Option<String>,
    /// Whether scripts get diagnostics on scope variables nothing uses.
    pub unused_scope_variables: bool,
    /// Whether templates get diagnostics on component elements and their bindings.
    pub component_bindings_mismatch: bool,
    /// Whether a callback (`&`) binding a component element leaves out is reported.
    pub require_callback_bindings: bool,
}

/// What every diagnostic names as its source.
pub const DIAGNOSTIC_SOURCE: &'static str = "angularjs-lsp";

/// A finding on a document.
pub struct Diagnostic {
    pub range: Range,
    pub severity: Severity,
    pub message: String,
    /// The marked code is not needed (editors show it faded).
    pub unnecessary: bool,
    /// What kind of finding it is, for the findings a quick fix is offered for.
    pub code: Option<String>,
}

/// The code of the findings on a scope property no controller defines; code actions
/// offer to define the property.
pub const UNDEFINED_SCOPE_PROPERTY_CODE: &'static str = "undefined-scope-property";

/// `d` has these range, severity, message and marking.
pub open spec fn is_diagnostic(d: Diagnostic, range: Range, severity: Severity, message: Seq<char>, unnecessary: bool) -> bool {
    d.range == range && d.severity == severity && d.message@ == message && d.unnecessary == unnecessary && d.code is None
}

/// `d` is a finding on an undefined scope property with these range, severity and
/// message.
pub open spec fn is_property_diagnostic(d: Diagnostic, range: Range, severity: Severity, message: Seq<char>) -> bool {
    &&& d.range == range && d.severity == severity && d.message@ == message && !d.unnecessary
    &&& d.code matches Some(c) && c@ == UNDEFINED_SCOPE_PROPERTY_CODE@
}

/// The range from `(sl, sc)` to `(el, ec)`.
pub open spec fn range_of(sl: u32, sc: u32, el: u32, ec: u32) -> Range {
    Range { start: Position { line: sl, character: sc }, end: Position { line: el, character: ec } }
}

fn make_range(sl: u32, sc: u32, el: u32, ec: u32) -> (r: Range)
    ensures
        r == range_of(sl, sc, el, ec),
{
    Range { start: Position { line: sl, character: sc }, end: Position { line: el, character: ec } }
}

/// The values present in `s`, in order.
pub open spec fn present<T>(s: Seq<Option<T>>) -> Seq<T>
    decreases s.len(),
{
    if s.len() == 0 {
        Seq::empty()
    } else {
        let p = present(s.drop_last());
        match s.last() {
            Some(x) => p.push(x),
            None => p,
        }
    }
}

/// Scope paths the check passes over: index expressions (`a[i]`), string literals and
/// `$`-names such as `$index`.
pub open spec fn unchecked_path(p: Seq<char>) -> bool {
    p.contains('[') || (p.len() > 0 && (p[0] == '\'' || p[0] == '"' || p[0] == '$'))
}

fn is_unchecked_path(p: &str) -> (r: bool)
    ensures
        r == unchecked_path(p@),
{
    let cs = chars_of(p);
    if find_char(&cs, '[').is_some() {
        proof { assert(p@.contains('[')); }
        return true;
    }
    proof { assert(!p@.contains('[')); }
    if cs.len() > 0 {
        let c = cs[0];
        c == '\'' || c == '"' || c == '$'
    } else {
        false
    }
}

/// The alias of a scope path: what precedes its first `.`.
pub open spec fn path_alias(p: Seq<char>) -> Option<Seq<char>> {
    match first_index(p, '.') {
        Some(i) => Some(p.take(i)),
        None => None,
    }
}

/// The property of a scope path: what follows its first `.`, or the whole path.
pub open spec fn path_property(p: Seq<char>) -> Seq<char> {
    match first_index(p, '.') {
        Some(i) => p.skip(i + 1),
        None => p,
    }
}

/// The name a scope path's first segment gives: its alias, or the whole path.
pub open spec fn path_variable(p: Seq<char>) -> Seq<char> {
    match path_alias(p) {
        Some(a) => a,
        None => path_property(p),
    }
}

/// The script of `controller` defines `property` on `$scope` or on `this`.
pub open spec fn defined_on_controller(defs: Map<Seq<char>, Seq<Symbol>>, controller: Seq<char>, property: Seq<char>) -> bool {
    defs.contains_key(controller + ".$scope."@ + property) || defs.contains_key(controller + "."@ + property)
}

/// The severity of the configuration.
pub open spec fn config_severity(c: DiagnosticsConfig) -> Severity {
    severity_of(c.severity@)
}

/// The severity of component-binding diagnostics.
pub open spec fn config_bindings_severity(c: DiagnosticsConfig) -> Severity {
    match c.bindings_mismatch_severity {
        Some(s) => severity_of(s@),
        None => severity_of(c.severity@),
    }
}

/// Diagnostics of templates and scripts over an index.
pub struct DiagnosticsHandler<'a> {
    pub index: &'a Index,
    pub config: DiagnosticsConfig,
}

impl<'a> DiagnosticsHandler<'a> {
    pub fn new(index: &'a Index, config: DiagnosticsConfig) -> (r: Self)
        ensures
            r.index == index,
            r.config == config,
    {
        DiagnosticsHandler { index, config }
    }

    /// The severity the configuration names for every diagnostic.
    pub fn parse_severity(&self) -> (r: Severity)
        ensures
            r == config_severity(self.config),
    {
        severity_from_str(self.config.severity.as_str())
    }

    /// `r` is the diagnostics of the template `uri`: none when diagnostics are off;
    /// otherwise those on scope expressions, then those on local variable references,
    /// then, when enabled, those on component elements.
    pub open spec fn html_diagnostics_are(&self, uri: Seq<char>, r: Seq<Diagnostic>) -> bool {
        if !self.config.enabled {
            r.len() == 0
        } else {
            exists|a: Seq<Diagnostic>, b: Seq<Diagnostic>| #![trigger self.scope_diagnostics_are(uri, a), self.local_diagnostics_are(uri, b)]
                self.scope_diagnostics_are(uri, a) && self.local_diagnostics_are(uri, b) && if self.config.component_bindings_mismatch {
                    exists|c: Seq<Diagnostic>| #[trigger] self.component_diagnostics_are(uri, c) && r == a + b + c
                } else {
                    r == a + b
                }
        }
    }

    /// The diagnostics of the template `uri`.
    pub fn diagnose_html(&self, uri: &str) -> (r: Vec<Diagnostic>)
        ensures
            self.html_diagnostics_are(uri@, r@),
    {
        if !self.config.enabled {
            return Vec::new();
        }
        let mut diagnostics = self.check_scope_references(uri);
        let ghost a = diagnostics@;
        let mut locals = self.check_local_variable_references(uri);
        let ghost b = locals@;
        diagnostics.append(&mut locals);
        if self.config.component_bindings_mismatch {
            let mut comps = self.check_component_bindings_mismatch_html(uri);
            let ghost c = comps@;
            diagnostics.append(&mut comps);
            assert(self.component_diagnostics_are(uri@, c));
        }
        assert(self.scope_diagnostics_are(uri@, a) && self.local_diagnostics_are(uri@, b));
        diagnostics
    }

    /// The diagnostics of the script `uri`: those on unused scope variables when enabled,
    /// none when diagnostics are off.
    pub fn diagnose_js(&self, uri: &str) -> (r: Vec<Diagnostic>)
        ensures
            !self.config.enabled || !self.config.unused_scope_variables ==> r@.len() == 0,
            self.config.enabled && self.config.unused_scope_variables ==> self.unused_diagnostics_are(uri@, r@),
    {
        if !self.config.enabled {
            return Vec::new();
        }
        if self.config.unused_scope_variables {
            self.check_unused_scope_variables(uri)
        } else {
            Vec::new()
        }
    }

    /// `m` is what asking `has_ng_model_implicit_def` for each of `cs` in turn, stopping
    /// at the first yes, answers.
    pub open spec fn ng_models_define(&self, uri: Seq<char>, cs: Seq<Seq<char>>, property: Seq<char>, m: bool) -> bool {
        &&& m ==> exists|k: int| 0 <= k < cs.len() && self.index.ng_model_defines(uri, cs[k], property, true)
        &&& !m ==> forall|k: int| 0 <= k < cs.len() ==> self.index.ng_model_defines(uri, #[trigger] cs[k], property, false)
    }

    /// `out` is what the check of the scope expression `r` of `uri` gives: nothing when
    /// the path is unchecked or its first segment names a local variable or form in
    /// effect; otherwise as [`Self::aliased_verdict`] or [`Self::unaliased_verdict`] say.
    pub open spec fn scope_reference_verdict(&self, uri: Seq<char>, r: HtmlScopeReference, out: Option<Diagnostic>) -> bool {
        let p = r.property_path@;
        let line = r.start_line as int;
        if unchecked_path(p) {
            out is None
        } else {
            exists|lv: Option<HtmlLocalVariable>| #[trigger] self.index.local_definition_is(uri, path_variable(p), line, lv) && if lv is Some {
                out is None
            } else {
                exists|fb: Option<HtmlFormBinding>| #[trigger] self.index.form_definition_is(uri, path_variable(p), line, fb) && if fb is Some {
                    out is None
                } else {
                    match path_alias(p) {
                        Some(a) => self.aliased_verdict(uri, r, a, path_property(p), out),
                        None => self.unaliased_verdict(uri, r, path_property(p), out),
                    }
                }
            }
        }
    }

    /// A path `alias.prop`: nothing when the alias names no controller, or names one
    /// without a script yet, or one that defines `prop` (on `$scope`, on `this`, on
    /// `$rootScope` or through an `ng-model`); otherwise a diagnostic naming that
    /// controller.
    pub open spec fn aliased_verdict(&self, uri: Seq<char>, r: HtmlScopeReference, a: Seq<char>, prop: Seq<char>, out: Option<Diagnostic>) -> bool {
        let defs = self.index.definitions.defs();
        exists|res: Option<Seq<char>>| #[trigger] self.index.alias_resolution_is(uri, r.start_line as int, a, res) && match res {
            None => out is None,
            Some(c) => if !defs.contains_key(c) || defined_on_controller(defs, c, prop) {
                out is None
            } else {
                exists|rs: Seq<Symbol>| #[trigger] self.index.definitions.root_scope_definitions_are(prop, rs) && if rs.len() > 0 {
                    out is None
                } else {
                    exists|m: bool| #[trigger] self.index.ng_model_defines(uri, c, prop, m) && if m {
                        out is None
                    } else {
                        out is Some && is_property_diagnostic(out->0, range_of(r.start_line, r.start_col, r.end_line, r.end_col),
                            config_severity(self.config),
                            "Property '"@ + prop + "' is not defined in controller '"@ + c + "'"@)
                    }
                }
            },
        }
    }

    /// A path without alias: nothing when it is itself a controller alias, or some
    /// controller in effect that has a script defines it, or `$rootScope` or an `ng-model`
    /// does, or no controller in effect has a script yet; otherwise a diagnostic.
    pub open spec fn unaliased_verdict(&self, uri: Seq<char>, r: HtmlScopeReference, prop: Seq<char>, out: Option<Diagnostic>) -> bool {
        let defs = self.index.definitions.defs();
        let line = r.start_line as int;
        exists|res: Option<Seq<char>>| #[trigger] self.index.alias_resolution_is(uri, line, prop, res) && if res is Some {
            out is None
        } else {
            exists|cs: Seq<Seq<char>>| #[trigger] self.index.controllers_are(uri, line, cs) && if directly_defined(defs, cs, prop) {
                out is None
            } else {
                exists|rs: Seq<Symbol>| #[trigger] self.index.definitions.root_scope_definitions_are(prop, rs) && if rs.len() > 0 {
                    out is None
                } else {
                    exists|m: bool| #[trigger] self.ng_models_define(uri, cs, prop, m) && if m || !any_with_script(defs, cs) {
                        out is None
                    } else {
                        out is Some && is_property_diagnostic(out->0, range_of(r.start_line, r.start_col, r.end_line, r.end_col),
                            config_severity(self.config), "Property '"@ + prop + "' is not defined in scope"@)
                    }
                }
            }
        }
    }

    /// Whether the script of `controller` defines `property` on `$scope` or `this`.
    fn is_defined_on_controller(&self, controller: &str, property: &str) -> (r: bool)
        ensures
            r == defined_on_controller(self.index.definitions.defs(), controller@, property@),
    {
        let a = concat(concat(controller, ".$scope.").as_str(), property);
        let b = concat(concat(controller, ".").as_str(), property);
        proof {
            assert(a@ == controller@ + ".$scope."@ + property@);
            assert(b@ == controller@ + "."@ + property@);
        }
        self.index.definitions.has_definition(&a) || self.index.definitions.has_definition(&b)
    }

    /// Whether a controller of `controllers` with a script defines `property`, and whether
    /// any of them has a script.
    fn scan_controllers(&self, controllers: &Vec<String>, property: &str) -> (r: (bool, bool))
        ensures
            r.0 == directly_defined(self.index.definitions.defs(), views(controllers@), property@),
            !r.0 ==> r.1 == any_with_script(self.index.definitions.defs(), views(controllers@)),
    {
        let ghost cs = views(controllers@);
        let ghost defs = self.index.definitions.defs();
        let mut any_defined = false;
        let mut i: usize = 0;
        while i < controllers.len()
            invariant
                i <= controllers@.len(),
                cs == views(controllers@),
                defs == self.index.definitions.defs(),
                any_defined == exists|k: int| 0 <= k < i && defs.contains_key(#[trigger] cs[k]),
                forall|k: int| 0 <= k < i && defs.contains_key(#[trigger] cs[k]) ==> !defined_on_controller(defs, cs[k], property@),
            decreases controllers.len() - i,
        {
            assert(cs[i as int] == controllers@[i as int]@);
            if self.index.definitions.has_definition(controllers[i].as_str()) {
                any_defined = true;
                if self.is_defined_on_controller(controllers[i].as_str(), property) {
                    assert(defs.contains_key(cs[i as int]) && defined_on_controller(defs, cs[i as int], property@));
                    return (true, true);
                }
            }
            i += 1;
        }
        (false, any_defined)
    }

    /// Whether an `ng-model` writes `property` to one of `controllers`, asked of each in
    /// turn.
    fn ng_model_defines_any(&self, uri: &str, controllers: &Vec<String>, property: &str) -> (m: bool)
        ensures
            self.ng_models_define(uri@, views(controllers@), property@, m),
    {
        let ghost cs = views(controllers@);
        let mut j: usize = 0;
        while j < controllers.len()
            invariant
                j <= controllers@.len(),
                cs == views(controllers@),
                forall|k: int| 0 <= k < j ==> self.index.ng_model_defines(uri@, #[trigger] cs[k], property@, false),
            decreases controllers.len() - j,
        {
            assert(cs[j as int] == controllers@[j as int]@);
            if self.index.has_ng_model_implicit_def(uri, controllers[j].as_str(), property) {
                assert(self.index.ng_model_defines(uri@, cs[j as int], property@, true));
                return true;
            }
            j += 1;
        }
        false
    }

    fn check_aliased(&self, uri: &str, reference: &HtmlScopeReference, alias: &str, property: &str) -> (out: Option<Diagnostic>)
        ensures
            self.aliased_verdict(uri@, *reference, alias@, property@, out),
    {
        let res = self.index.resolve_controller_by_alias(uri, reference.start_line, alias);
        assert(self.index.alias_resolution_is(uri@, reference.start_line as int, alias@, opt_view(res)));
        let controller_name = match res {
            None => return None,
            Some(c) => c,
        };
        if !self.index.definitions.has_definition(controller_name.as_str()) {
            return None;
        }
        if self.is_defined_on_controller(controller_name.as_str(), property) {
            return None;
        }
        let rs = self.index.definitions.find_root_scope_definitions_by_property(property);
        assert(self.index.definitions.root_scope_definitions_are(property@, rs@));
        if rs.len() > 0 {
            return None;
        }
        let m = self.index.has_ng_model_implicit_def(uri, controller_name.as_str(), property);
        assert(self.index.ng_model_defines(uri@, controller_name@, property@, m));
        if m {
            return None;
        }
        let t1 = concat("Property '", property);
        let t2 = concat(t1.as_str(), "' is not defined in controller '");
        let t3 = concat(t2.as_str(), controller_name.as_str());
        let message = concat(t3.as_str(), "'");
        let severity = severity_from_str(self.config.severity.as_str());
        let range = make_range(reference.start_line, reference.start_col, reference.end_line, reference.end_col);
        Some(Diagnostic { range, severity, message, unnecessary: false, code: Some(UNDEFINED_SCOPE_PROPERTY_CODE.to_owned()) })
    }

    fn check_unaliased(&self, uri: &str, reference: &HtmlScopeReference, property: &str) -> (out: Option<Diagnostic>)
        ensures
            self.unaliased_verdict(uri@, *reference, property@, out),
    {
        let line = reference.start_line;
        let res = self.index.resolve_controller_by_alias(uri, line, property);
        assert(self.index.alias_resolution_is(uri@, line as int, property@, opt_view(res)));
        if res.is_some() {
            return None;
        }
        let controllers = self.index.resolve_controllers_for_html(uri, line);
        assert(self.index.controllers_are(uri@, line as int, views(controllers@)));
        let (found, any_defined) = self.scan_controllers(&controllers, property);
        if found {
            return None;
        }
        let rs = self.index.definitions.find_root_scope_definitions_by_property(property);
        assert(self.index.definitions.root_scope_definitions_are(property@, rs@));
        if rs.len() > 0 {
            return None;
        }
        let m = self.ng_model_defines_any(uri, &controllers, property);
        assert(self.ng_models_define(uri@, views(controllers@), property@, m));
        if m || !any_defined {
            return None;
        }
        let t1 = concat("Property '", property);
        let message = concat(t1.as_str(), "' is not defined in scope");
        let severity = severity_from_str(self.config.severity.as_str());
        let range = make_range(reference.start_line, reference.start_col, reference.end_line, reference.end_col);
        Some(Diagnostic { range, severity, message, unnecessary: false, code: Some(UNDEFINED_SCOPE_PROPERTY_CODE.to_owned()) })
    }

    /// `r` is the diagnostics of the scope expressions of `uri`: each expression's
    /// verdict, in the order the expressions were recorded.
    pub open spec fn scope_diagnostics_are(&self, uri: Seq<char>, r: Seq<Diagnostic>) -> bool {
        let refs = list_at(self.index.html@.scope_references, uri);
        exists|outs: Seq<Option<Diagnostic>>| #![trigger present(outs)] outs.len() == refs.len()
            && (forall|i: int| 0 <= i < refs.len() ==> #[trigger] self.scope_reference_verdict(uri, refs[i], outs[i]))
            && r == present(outs)
    }

    /// Diagnostics on the scope expressions of the template `uri` whose property no
    /// controller in effect defines.
    pub fn check_scope_references(&self, uri: &str) -> (r: Vec<Diagnostic>)
        ensures
            self.scope_diagnostics_are(uri@, r@),
    {
        let references = self.index.html.get_html_scope_references(uri);
        let mut r: Vec<Diagnostic> = Vec::new();
        let ghost mut outs: Seq<Option<Diagnostic>> = Seq::empty();
        let mut i: usize = 0;
        while i < references.len()
            invariant
                i <= references@.len(),
                references@ == list_at(self.index.html@.scope_references, uri@),
                outs.len() == i,
                forall|k: int| 0 <= k < i ==> #[trigger] self.scope_reference_verdict(uri@, references@[k], outs[k]),
                r@ == present(outs),
            decreases references.len() - i,
        {
            let out = self.check_scope_reference(uri, &references[i]);
            proof {
                assert(outs.push(out).drop_last() =~= outs);
                outs = outs.push(out);
            }
            match out {
                Some(d) => r.push(d),
                None => {},
            }
            i += 1;
        }
        r
    }

    /// `out` is what the check of the local variable reference `r` of `uri` gives:
    /// nothing for a `$`-name or a name a local variable in effect defines, otherwise a
    /// diagnostic.
    pub open spec fn local_reference_verdict(&self, uri: Seq<char>, r: HtmlLocalVariableReference, out: Option<Diagnostic>) -> bool {
        let n = r.variable_name@;
        if n.len() > 0 && n[0] == '$' {
            out is None
        } else {
            exists|lv: Option<HtmlLocalVariable>| #[trigger] self.index.local_definition_is(uri, n, r.start_line as int, lv) && if lv is Some {
                out is None
            } else {
                out is Some && is_diagnostic(out->0, range_of(r.start_line, r.start_col, r.end_line, r.end_col),
                    config_severity(self.config), "Local variable '"@ + n + "' is not defined in scope"@, false)
            }
        }
    }

    /// `r` is the diagnostics of the local variable references of `uri`.
    pub open spec fn local_diagnostics_are(&self, uri: Seq<char>, r: Seq<Diagnostic>) -> bool {
        exists|refs: Seq<HtmlLocalVariableReference>, outs: Seq<Option<Diagnostic>>|
            #![trigger self.index.html.local_references_in_are(uri, refs), present(outs)]
            self.index.html.local_references_in_are(uri, refs) && outs.len() == refs.len()
            && (forall|i: int| 0 <= i < refs.len() ==> #[trigger] self.local_reference_verdict(uri, refs[i], outs[i]))
            && r == present(outs)
    }

    fn check_local_reference(&self, uri: &str, reference: &HtmlLocalVariableReference) -> (out: Option<Diagnostic>)
        ensures
            self.local_reference_verdict(uri@, *reference, out),
    {
        let name = reference.variable_name.as_str();
        let cs = chars_of(name);
        if cs.len() > 0 && cs[0] == '$' {
            return None;
        }
        let lv = self.index.find_local_variable_definition(uri, name, reference.start_line);
        assert(self.index.local_definition_is(uri@, name@, reference.start_line as int, lv));
        if lv.is_some() {
            return None;
        }
        let t1 = concat("Local variable '", name);
        let message = concat(t1.as_str(), "' is not defined in scope");
        let severity = severity_from_str(self.config.severity.as_str());
        let range = make_range(reference.start_line, reference.start_col, reference.end_line, reference.end_col);
        Some(Diagnostic { range, severity, message, unnecessary: false, code: None })
    }

    /// Diagnostics on the local variable references of the template `uri` that no local
    /// variable in effect defines.
    pub fn check_local_variable_references(&self, uri: &str) -> (r: Vec<Diagnostic>)
        ensures
            self.local_diagnostics_are(uri@, r@),
    {
        let references = self.index.html.get_all_local_variable_references_for_uri(uri);
        let ghost refs = references@;
        let mut r: Vec<Diagnostic> = Vec::new();
        let ghost mut outs: Seq<Option<Diagnostic>> = Seq::empty();
        let mut i: usize = 0;
        while i < references.len()
            invariant
                i <= references@.len(),
                refs == references@,
                outs.len() == i,
                forall|k: int| 0 <= k < i ==> #[trigger] self.local_reference_verdict(uri@, references@[k], outs[k]),
                r@ == present(outs),
            decreases references.len() - i,
        {
            let out = self.check_local_reference(uri, &references[i]);
            proof {
                assert(outs.push(out).drop_last() =~= outs);
                outs = outs.push(out);
            }
            match out {
                Some(d) => r.push(d),
                None => {},
            }
            i += 1;
        }
        assert(self.index.html.local_references_in_are(uri@, refs));
        r
    }

    /// `out` is what the check of the scope variable `s` of the script `uri` gives:
    /// nothing when its name has no property part, or a template or another script
    /// refers to it; otherwise a diagnostic on its name marked as unneeded, whose message
    /// says whether its own script still uses it.
    pub open spec fn unused_verdict(&self, uri: Seq<char>, s: Symbol, out: Option<Diagnostic>) -> bool {
        let refs = list_at(self.index.definitions.refs(), s.name@);
        match scope_property_name(s.name@) {
            None => out is None,
            Some(prop) => exists|h: bool| #[trigger] self.index.scope_variable_referenced_is(s.name@, h) && if h || referenced_outside(refs, uri) {
                out is None
            } else {
                out is Some && is_diagnostic(out->0,
                    range_of(s.name_span.start_line, s.name_span.start_col, s.name_span.end_line, s.name_span.end_col),
                    config_severity(self.config),
                    if referenced_inside(refs, uri) {
                        "'"@ + prop + "' is defined but not used in HTML templates or other controllers"@
                    } else {
                        "'"@ + prop + "' is defined but never referenced"@
                    }, true)
            },
        }
    }

    /// `r` is the diagnostics of the scope variables the script `uri` defines.
    pub open spec fn unused_diagnostics_are(&self, uri: Seq<char>, r: Seq<Diagnostic>) -> bool {
        let syms = definitions_in(self.index.definitions.defs(), list_at(self.index.definitions.docs(), uri), uri, true);
        exists|outs: Seq<Option<Diagnostic>>| #![trigger present(outs)] outs.len() == syms.len()
            && (forall|i: int| 0 <= i < syms.len() ==> #[trigger] self.unused_verdict(uri, syms[i], outs[i]))
            && r == present(outs)
    }

    fn check_unused(&self, uri: &str, symbol: &Symbol) -> (out: Option<Diagnostic>)
        ensures
            self.unused_verdict(uri@, *symbol, out),
    {
        let name = symbol.name.as_str();
        let property = match scope_property(name) {
            Some(p) => p,
            None => return None,
        };
        let h = self.index.is_scope_variable_referenced(name);
        assert(self.index.scope_variable_referenced_is(name@, h));
        let ghost refs = list_at(self.index.definitions.refs(), name@);
        let other = self.index.definitions.any_reference(name, |r: &SymbolReference| -> (b: bool)
            ensures
                b == (r.uri@ != uri@),
            { !str_eq(r.uri.as_str(), uri) });
        assert(other == referenced_outside(refs, uri@));
        if h || other {
            return None;
        }
        let same = self.index.definitions.any_reference(name, |r: &SymbolReference| -> (b: bool)
            ensures
                b == (r.uri@ == uri@),
            { str_eq(r.uri.as_str(), uri) });
        assert(same == referenced_inside(refs, uri@));
        let t1 = concat("'", property.as_str());
        let message = if same {
            concat(t1.as_str(), "' is defined but not used in HTML templates or other controllers")
        } else {
            concat(t1.as_str(), "' is defined but never referenced")
        };
        let severity = severity_from_str(self.config.severity.as_str());
        let range = make_range(symbol.name_span.start_line, symbol.name_span.start_col, symbol.name_span.end_line, symbol.name_span.end_col);
        Some(Diagnostic { range, severity, message, unnecessary: true, code: None })
    }

    /// Diagnostics, marked as unneeded, on the scope variables the script `uri` defines
    /// and no template or other script refers to.
    pub fn check_unused_scope_variables(&self, uri: &str) -> (r: Vec<Diagnostic>)
        ensures
            self.unused_diagnostics_are(uri@, r@),
    {
        let scope_defs = self.index.definitions.get_scope_definitions_for_js(uri);
        let mut r: Vec<Diagnostic> = Vec::new();
        let ghost mut outs: Seq<Option<Diagnostic>> = Seq::empty();
        let mut i: usize = 0;
        while i < scope_defs.len()
            invariant
                i <= scope_defs@.len(),
                scope_defs@ == definitions_in(self.index.definitions.defs(), list_at(self.index.definitions.docs(), uri@), uri@, true),
                outs.len() == i,
                forall|k: int| 0 <= k < i ==> #[trigger] self.unused_verdict(uri@, scope_defs@[k], outs[k]),
                r@ == present(outs),
            decreases scope_defs.len() - i,
        {
            let out = self.check_unused(uri, &scope_defs[i]);
            proof {
                assert(outs.push(out).drop_last() =~= outs);
                outs = outs.push(out);
            }
            match out {
                Some(d) => r.push(d),
                None => {},
            }
            i += 1;
        }
        r
    }

    /// `out` is what the check of the attribute `a` of the component element `u` gives,
    /// against the component's bindings `ms`: nothing when the attribute is one the check
    /// ignores, matches a binding by its camel-case name, or is itself a directive;
    /// otherwise a diagnostic on the attribute.
    pub open spec fn attribute_verdict(&self, u: HtmlComponentUsage, ms: Seq<(Seq<char>, BindingKind, bool)>, a: HtmlComponentAttribute, out: Option<Diagnostic>) -> bool {
        let defs = self.index.definitions.defs();
        if skips_attribute(a.name@) || names_binding(ms, a.camel_name@) || has_kind(defs, a.camel_name@, SymbolKind::Directive) {
            out is None
        } else {
            out is Some && is_diagnostic(out->0, range_of(a.start_line, a.start_col, a.end_line, a.end_col),
                config_bindings_severity(self.config),
                "Attribute '"@ + a.name@ + "' does not match any binding of component '"@ + u.component_name@ + "'"@, false)
        }
    }

    /// `out` is the diagnostic on the element of `u` about the required bindings of `ms`
    /// it leaves out: one naming them all, or none when it leaves none out.
    pub open spec fn missing_verdict(&self, u: HtmlComponentUsage, ms: Seq<(Seq<char>, BindingKind, bool)>, out: Option<Diagnostic>) -> bool {
        let missing = missing_bindings(ms, u.attributes@, self.config.require_callback_bindings);
        let c = u.component_name@;
        if missing.len() == 0 {
            out is None
        } else {
            out is Some && is_diagnostic(out->0,
                range_of(u.element_start_line, u.element_start_col, u.element_end_line, u.element_end_col),
                config_bindings_severity(self.config),
                if missing.len() == 1 {
                    "Missing required binding '"@ + missing[0] + "' on component '"@ + c + "'"@
                } else {
                    "Missing required bindings on component '"@ + c + "': "@ + quoted_list(missing)
                }, false)
        }
    }

    /// `r` is the diagnostics of the component element `u`: none unless its component is
    /// defined and has bindings; else those on its attributes, in order, then the one on
    /// the bindings it leaves out.
    pub open spec fn usage_verdict(&self, u: HtmlComponentUsage, r: Seq<Diagnostic>) -> bool {
        let c = u.component_name@;
        if !has_kind(self.index.definitions.defs(), c, SymbolKind::Component) {
            r.len() == 0
        } else {
            exists|bs: Seq<Symbol>| #[trigger] self.index.definitions.component_bindings_are(c, bs) && {
                let ms = binding_metas(bs, c + "."@);
                if bs.len() == 0 || ms.len() == 0 {
                    r.len() == 0
                } else {
                    exists|aouts: Seq<Option<Diagnostic>>, mout: Option<Diagnostic>|
                        #![trigger present(aouts), self.missing_verdict(u, ms, mout)]
                        aouts.len() == u.attributes@.len()
                        && (forall|i: int| 0 <= i < aouts.len() ==> #[trigger] self.attribute_verdict(u, ms, u.attributes@[i], aouts[i]))
                        && self.missing_verdict(u, ms, mout)
                        && r == match mout {
                            Some(d) => present(aouts).push(d),
                            None => present(aouts),
                        }
                }
            }
        }
    }

    /// `r` is the component-binding diagnostics of the template `uri`: each component
    /// element's, in the order the elements were recorded.
    pub open spec fn component_diagnostics_are(&self, uri: Seq<char>, r: Seq<Diagnostic>) -> bool {
        let us = list_at(self.index.html@.component_usages, uri);
        exists|outs: Seq<Seq<Diagnostic>>| #![trigger joined(outs)] outs.len() == us.len()
            && (forall|i: int| 0 <= i < us.len() ==> #[trigger] self.usage_verdict(us[i], outs[i]))
            && r == joined(outs)
    }

    fn check_attribute(&self, usage: &HtmlComponentUsage, metas: &Vec<BindingMeta>, attr: &HtmlComponentAttribute) -> (out: Option<Diagnostic>)
        ensures
            self.attribute_verdict(*usage, metas@.map_values(|m: BindingMeta| meta_view(m)), *attr, out),
    {
        let ghost ms = metas@.map_values(|m: BindingMeta| meta_view(m));
        if should_skip_attribute(attr.name.as_str()) {
            return None;
        }
        let mut k: usize = 0;
        while k < metas.len()
            invariant
                k <= metas@.len(),
                ms == metas@.map_values(|m: BindingMeta| meta_view(m)),
                forall|j: int| 0 <= j < k ==> ms[j].0 != attr.camel_name@,
            decreases metas.len() - k,
        {
            if str_eq(metas[k].name.as_str(), attr.camel_name.as_str()) {
                assert(ms[k as int].0 == attr.camel_name@);
                return None;
            }
            k += 1;
        }
        if self.index.definitions.has_definition_of_kind(attr.camel_name.as_str(), SymbolKind::Directive) {
            return None;
        }
        let t1 = concat("Attribute '", attr.name.as_str());
        let t2 = concat(t1.as_str(), "' does not match any binding of component '");
        let t3 = concat(t2.as_str(), usage.component_name.as_str());
        let message = concat(t3.as_str(), "'");
        let severity = self.bindings_mismatch_severity();
        let range = make_range(attr.start_line, attr.start_col, attr.end_line, attr.end_col);
        Some(Diagnostic { range, severity, message, unnecessary: false, code: None })
    }

    /// The severity of component-binding diagnostics.
    fn bindings_mismatch_severity(&self) -> (r: Severity)
        ensures
            r == config_bindings_severity(self.config),
    {
        match &self.config.bindings_mismatch_severity {
            Some(s) => severity_from_str(s.as_str()),
            None => severity_from_str(self.config.severity.as_str()),
        }
    }

    fn check_missing(&self, usage: &HtmlComponentUsage, metas: &Vec<BindingMeta>) -> (out: Option<Diagnostic>)
        ensures
            self.missing_verdict(*usage, metas@.map_values(|m: BindingMeta| meta_view(m)), out),
    {
        let ghost ms = metas@.map_values(|m: BindingMeta| meta_view(m));
        let cb = self.config.require_callback_bindings;
        let mut missing: Vec<String> = Vec::new();
        let mut k: usize = 0;
        while k < metas.len()
            invariant
                k <= metas@.len(),
                ms == metas@.map_values(|m: BindingMeta| meta_view(m)),
                cb == self.config.require_callback_bindings,
                views(missing@) == missing_bindings(ms.take(k as int), usage.attributes@, cb),
            decreases metas.len() - k,
        {
            proof {
                assert(ms.take(k + 1).drop_last() =~= ms.take(k as int));
                assert(ms.take(k + 1).last() == meta_view(metas@[k as int]));
            }
            let b = &metas[k];
            let needed = !b.optional && !(b.kind == BindingKind::Callback && !cb) && b.kind != BindingKind::Unknown;
            if needed && !provides_exec(&usage.attributes, b.name.as_str()) {
                let n = b.name.clone();
                missing.push(n);
                proof { assert(views(missing@) =~= missing_bindings(ms.take(k as int), usage.attributes@, cb).push(b.name@)); }
            }
            k += 1;
        }
        proof { assert(ms.take(metas@.len() as int) =~= ms); }
        if missing.len() == 0 {
            return None;
        }
        let c = usage.component_name.as_str();
        let message = if missing.len() == 1 {
            let t1 = concat("Missing required binding '", missing[0].as_str());
            let t2 = concat(t1.as_str(), "' on component '");
            let t3 = concat(t2.as_str(), c);
            concat(t3.as_str(), "'")
        } else {
            let t1 = concat("Missing required bindings on component '", c);
            let t2 = concat(t1.as_str(), "': ");
            let list = quote_all(&missing);
            concat(t2.as_str(), list.as_str())
        };
        let severity = self.bindings_mismatch_severity();
        let range = make_range(usage.element_start_line, usage.element_start_col, usage.element_end_line, usage.element_end_col);
        Some(Diagnostic { range, severity, message, unnecessary: false, code: None })
    }

    fn check_usage(&self, usage: &HtmlComponentUsage) -> (r: Vec<Diagnostic>)
        ensures
            self.usage_verdict(*usage, r@),
    {
        let c = usage.component_name.as_str();
        if !self.index.definitions.has_definition_of_kind(c, SymbolKind::Component) {
            return Vec::new();
        }
        let bindings = self.index.definitions.get_component_bindings(c);
        assert(self.index.definitions.component_bindings_are(c@, bindings@));
        if bindings.len() == 0 {
            return Vec::new();
        }
        let prefix = concat(c, ".");
        let metas = collect_metas(&bindings, prefix.as_str());
        let ghost ms = metas@.map_values(|m: BindingMeta| meta_view(m));
        assert(ms.len() == metas@.len());
        if metas.len() == 0 {
            return Vec::new();
        }
        let mut r: Vec<Diagnostic> = Vec::new();
        let ghost mut aouts: Seq<Option<Diagnostic>> = Seq::empty();
        let mut i: usize = 0;
        while i < usage.attributes.len()
            invariant
                i <= usage.attributes@.len(),
                ms == metas@.map_values(|m: BindingMeta| meta_view(m)),
                aouts.len() == i,
                forall|k: int| 0 <= k < i ==> #[trigger] self.attribute_verdict(*usage, ms, usage.attributes@[k], aouts[k]),
                r@ == present(aouts),
            decreases usage.attributes.len() - i,
        {
            let out = self.check_attribute(usage, &metas, &usage.attributes[i]);
            proof {
                assert(aouts.push(out).drop_last() =~= aouts);
                aouts = aouts.push(out);
            }
            match out {
                Some(d) => r.push(d),
                None => {},
            }
            i += 1;
        }
        let mout = self.check_missing(usage, &metas);
        match mout {
            Some(d) => r.push(d),
            None => {},
        }
        r
    }

    /// Diagnostics on the component elements of the template `uri`: attributes that match
    /// no binding of the component, and required bindings an element leaves out.
    pub fn check_component_bindings_mismatch_html(&self, uri: &str) -> (r: Vec<Diagnostic>)
        ensures
            self.component_diagnostics_are(uri@, r@),
    {
        let usages = self.index.html.get_component_usages_for_uri(uri);
        let mut r: Vec<Diagnostic> = Vec::new();
        let ghost mut outs: Seq<Seq<Diagnostic>> = Seq::empty();
        let mut i: usize = 0;
        while i < usages.len()
            invariant
                i <= usages@.len(),
                usages@ == list_at(self.index.html@.component_usages, uri@),
                outs.len() == i,
                forall|k: int| 0 <= k < i ==> #[trigger] self.usage_verdict(usages@[k], outs[k]),
                r@ == joined(outs),
            decreases usages.len() - i,
        {
            let mut ds = self.check_usage(&usages[i]);
            proof {
                assert(outs.push(ds@).drop_last() =~= outs);
                outs = outs.push(ds@);
            }
            r.append(&mut ds);
            i += 1;
        }
        r
    }

    /// The check of one scope expression; see [`Self::scope_reference_verdict`].
    fn check_scope_reference(&self, uri: &str, reference: &HtmlScopeReference) -> (out: Option<Diagnostic>)
        ensures
            self.scope_reference_verdict(uri@, *reference, out),
    {
        let path = &reference.property_path;
        if is_unchecked_path(path.as_str()) {
            return None;
        }
        let (alias, property) = split_alias_and_property(path.as_str());
        assert(opt_view(alias) == path_alias(path@));
        assert(property@ == path_property(path@));
        let line = reference.start_line;
        let var_name: &str = match &alias {
            Some(a) => a.as_str(),
            None => property.as_str(),
        };
        assert(var_name@ == path_variable(path@));
        let lv = self.index.find_local_variable_definition(uri, var_name, line);
        assert(self.index.local_definition_is(uri@, path_variable(path@), line as int, lv));
        if lv.is_some() {
            return None;
        }
        let fb = self.index.find_form_binding_definition(uri, var_name, line);
        assert(self.index.form_definition_is(uri@, path_variable(path@), line as int, fb));
        if fb.is_some() {
            return None;
        }
        match alias {
            Some(a) => self.check_aliased(uri, reference, a.as_str(), property.as_str()),
            None => self.check_unaliased(uri, reference, property.as_str()),
        }
    }
}

/// Some controller of `cs` has a script, and it defines `prop` on `$scope` or `this`.
pub open spec fn directly_defined(defs: Map<Seq<char>, Seq<Symbol>>, cs: Seq<Seq<char>>, prop: Seq<char>) -> bool {
    exists|k: int| 0 <= k < cs.len() && defs.contains_key(#[trigger] cs[k]) && defined_on_controller(defs, cs[k], prop)
}

/// Some controller of `cs` has a script.
pub open spec fn any_with_script(defs: Map<Seq<char>, Seq<Symbol>>, cs: Seq<Seq<char>>) -> bool {
    exists|k: int| 0 <= k < cs.len() && defs.contains_key(#[trigger] cs[k])
}


/// Some reference of `refs` is made outside `uri`.
pub open spec fn referenced_outside(refs: Seq<SymbolReference>, uri: Seq<char>) -> bool {
    exists|i: int| 0 <= i < refs.len() && (#[trigger] refs[i]).uri@ != uri
}

/// Some reference of `refs` is made in `uri`.
pub open spec fn referenced_inside(refs: Seq<SymbolReference>, uri: Seq<char>) -> bool {
    exists|i: int| 0 <= i < refs.len() && (#[trigger] refs[i]).uri@ == uri
}

/// The property a scope symbol's name ends with: what follows its first `.$scope.`,
/// else what follows its last `.`; a name without `.` has none.
pub open spec fn scope_property_name(n: Seq<char>) -> Option<Seq<char>> {
    match first_occurrence(n, ".$scope."@) {
        Some(i) => Some(n.skip(i + 8)),
        None => match last_index(n, '.') {
            Some(i) => Some(n.skip(i + 1)),
            None => None,
        },
    }
}

/// See [`scope_property_name`].
pub fn scope_property(name: &str) -> (r: Option<String>)
    ensures
        opt_view(r) == scope_property_name(name@),
{
    let cs = chars_of(name);
    proof { reveal_strlit(".$scope."); }
    match find_str(name, ".$scope.") {
        Some(i) => {
            proof { lemma_first_occurrence(name@, ".$scope."@, i as int); }
            let p = string_from_chars(&cs, i + 8, cs.len());
            assert(p@ =~= name@.skip(i + 8));
            Some(p)
        },
        None => {
            assert(first_occurrence(name@, ".$scope."@) is None);
            match rfind_char(&cs, '.') {
                Some(i) => {
                    proof { lemma_last_index(name@, '.', i as int); }
                    let p = string_from_chars(&cs, i + 1, cs.len());
                    assert(p@ =~= name@.skip(i + 1));
                    Some(p)
                },
                None => {
                    assert(!(exists|j: int| 0 <= j < name@.len() && name@[j] == '.'));
                    None
                },
            }
        },
    }
}


/// A binding as the check reads it.
struct BindingMeta {
    /// Its name without the component prefix.
    name: String,
    kind: BindingKind,
    optional: bool,
}

/// The name, kind and optionality of a binding.
spec fn meta_view(m: BindingMeta) -> (Seq<char>, BindingKind, bool) {
    (m.name@, m.kind, m.optional)
}

/// The bindings among `bs` whose name starts with `prefix`, each as its name after the
/// prefix, its kind and whether it is optional, in order.
pub open spec fn binding_metas(bs: Seq<Symbol>, prefix: Seq<char>) -> Seq<(Seq<char>, BindingKind, bool)>
    decreases bs.len(),
{
    if bs.len() == 0 {
        Seq::empty()
    } else {
        let m = binding_metas(bs.drop_last(), prefix);
        let b = bs.last();
        if starts_with(b.name@, prefix) {
            let t = binding_type_spec(match b.docs { Some(d) => Some(d@), None => None });
            m.push((b.name@.skip(prefix.len() as int), t.0, t.1))
        } else {
            m
        }
    }
}

fn collect_metas(bindings: &Vec<Symbol>, prefix: &str) -> (r: Vec<BindingMeta>)
    ensures
        r@.map_values(|m: BindingMeta| meta_view(m)) == binding_metas(bindings@, prefix@),
{
    let pcs = chars_of(prefix);
    let mut r: Vec<BindingMeta> = Vec::new();
    let mut i: usize = 0;
    while i < bindings.len()
        invariant
            i <= bindings@.len(),
            pcs@ == prefix@,
            r@.map_values(|m: BindingMeta| meta_view(m)) == binding_metas(bindings@.take(i as int), prefix@),
        decreases bindings.len() - i,
    {
        let b = &bindings[i];
        proof {
            assert(bindings@.take(i + 1).drop_last() =~= bindings@.take(i as int));
            assert(bindings@.take(i + 1).last() == bindings@[i as int]);
        }
        if str_starts_with(b.name.as_str(), prefix) {
            let ncs = chars_of(b.name.as_str());
            let local = string_from_chars(&ncs, pcs.len(), ncs.len());
            let docs: Option<&str> = match &b.docs {
                Some(d) => Some(d.as_str()),
                None => None,
            };
            let (kind, optional) = parse_binding_type(docs);
            let ghost old_r = r@;
            r.push(BindingMeta { name: local, kind, optional });
            proof {
                assert(local@ =~= b.name@.skip(prefix@.len() as int));
                assert(r@.map_values(|m: BindingMeta| meta_view(m)) =~= old_r.map_values(|m: BindingMeta| meta_view(m)).push(meta_view(r@[i as int - (i as int - old_r.len())])));
            }
        }
        i += 1;
    }
    proof { assert(bindings@.take(bindings@.len() as int) =~= bindings@); }
    r
}

/// Some binding of `ms` has the name `n`.
pub open spec fn names_binding(ms: Seq<(Seq<char>, BindingKind, bool)>, n: Seq<char>) -> bool {
    exists|k: int| 0 <= k < ms.len() && (#[trigger] ms[k]).0 == n
}

/// `name` has a definition of kind `kind`.
pub open spec fn has_kind(defs: Map<Seq<char>, Seq<Symbol>>, name: Seq<char>, kind: SymbolKind) -> bool {
    exists|i: int| 0 <= i < list_at(defs, name).len() && list_at(defs, name)[i].kind == kind
}

/// Some attribute of `attrs` has the camel-case name `n`.
pub open spec fn provides(attrs: Seq<HtmlComponentAttribute>, n: Seq<char>) -> bool {
    exists|j: int| 0 <= j < attrs.len() && (#[trigger] attrs[j]).camel_name@ == n
}

fn provides_exec(attrs: &Vec<HtmlComponentAttribute>, n: &str) -> (r: bool)
    ensures
        r == provides(attrs@, n@),
{
    let mut j: usize = 0;
    while j < attrs.len()
        invariant
            j <= attrs@.len(),
            forall|k: int| 0 <= k < j ==> (#[trigger] attrs@[k]).camel_name@ != n@,
        decreases attrs.len() - j,
    {
        if str_eq(attrs[j].camel_name.as_str(), n) {
            return true;
        }
        j += 1;
    }
    false
}

/// A binding an element must give: not optional, of a known kind, and a callback only
/// when callbacks are required.
pub open spec fn required_binding(m: (Seq<char>, BindingKind, bool), require_callbacks: bool) -> bool {
    !m.2 && !(m.1 == BindingKind::Callback && !require_callbacks) && m.1 != BindingKind::Unknown
}

/// The names of the required bindings of `ms` that no attribute of `attrs` gives, in
/// order.
pub open spec fn missing_bindings(ms: Seq<(Seq<char>, BindingKind, bool)>, attrs: Seq<HtmlComponentAttribute>, require_callbacks: bool) -> Seq<Seq<char>>
    decreases ms.len(),
{
    if ms.len() == 0 {
        Seq::empty()
    } else {
        let m = missing_bindings(ms.drop_last(), attrs, require_callbacks);
        let b = ms.last();
        if required_binding(b, require_callbacks) && !provides(attrs, b.0) {
            m.push(b.0)
        } else {
            m
        }
    }
}

/// The bindings a component element is missing are exactly its component's required
/// bindings (not optional; one-way, two-way or string, or a callback when callbacks are
/// required) that none of its attributes gives, in order.
pub proof fn law_missing_bindings_are_required_and_not_given(ms: Seq<(Seq<char>, BindingKind, bool)>, attrs: Seq<HtmlComponentAttribute>, rc: bool)
    ensures
        forall|b: Seq<char>| #[trigger] missing_bindings(ms, attrs, rc).contains(b) <==>
            exists|j: int| 0 <= j < ms.len() && (#[trigger] ms[j]).0 == b && required_binding(ms[j], rc) && !provides(attrs, b),
    decreases ms.len(),
{
    if ms.len() > 0 {
        let m0 = ms.drop_last();
        law_missing_bindings_are_required_and_not_given(m0, attrs, rc);
        let prev = missing_bindings(m0, attrs, rc);
        let cur = missing_bindings(ms, attrs, rc);
        assert forall|b: Seq<char>| #[trigger] cur.contains(b) <==>
            exists|j: int| 0 <= j < ms.len() && (#[trigger] ms[j]).0 == b && required_binding(ms[j], rc) && !provides(attrs, b) by {
            if cur.contains(b) {
                let x = choose|x: int| 0 <= x < cur.len() && cur[x] == b;
                if x < prev.len() {
                    assert(cur[x] == prev[x]);
                    assert(prev.contains(b));
                    let j = choose|j: int| 0 <= j < m0.len() && (#[trigger] m0[j]).0 == b && required_binding(m0[j], rc) && !provides(attrs, b);
                    assert(ms[j] == m0[j]);
                } else {
                    assert(ms[ms.len() - 1] == ms.last());
                }
            }
            if exists|j: int| 0 <= j < ms.len() && (#[trigger] ms[j]).0 == b && required_binding(ms[j], rc) && !provides(attrs, b) {
                let j = choose|j: int| 0 <= j < ms.len() && (#[trigger] ms[j]).0 == b && required_binding(ms[j], rc) && !provides(attrs, b);
                if j < m0.len() {
                    assert(m0[j] == ms[j]);
                    assert(prev.contains(b));
                    let x = choose|x: int| 0 <= x < prev.len() && prev[x] == b;
                    assert(cur[x] == b);
                } else {
                    assert(ms[j] == ms.last());
                    assert(cur[prev.len() as int] == b);
                }
            }
        }
    }
}

/// `d` reports required bindings left out on a component element.
pub open spec fn reports_missing_bindings(d: Diagnostic) -> bool {
    "Missing required binding"@.is_prefix_of(d.message@)
}

/// Each element of `present(s)` is one of the values `s` holds.
proof fn lemma_present_from(s: Seq<Option<Diagnostic>>)
    ensures
        forall|x: int| 0 <= x < present(s).len() ==> exists|k: int| 0 <= k < s.len() && s[k] == Some(#[trigger] present(s)[x]),
    decreases s.len(),
{
    if s.len() > 0 {
        lemma_present_from(s.drop_last());
        let p = present(s.drop_last());
        assert forall|x: int| 0 <= x < present(s).len() implies exists|k: int| 0 <= k < s.len() && s[k] == Some(#[trigger] present(s)[x]) by {
            if x < p.len() {
                assert(present(s)[x] == p[x]);
                let k = choose|k: int| 0 <= k < s.drop_last().len() && s.drop_last()[k] == Some(p[x]);
                assert(s[k] == s.drop_last()[k]);
            } else {
                assert(s[s.len() - 1] == s.last());
            }
        }
    }
}

impl<'a> DiagnosticsHandler<'a> {
    /// A component element gets at most one diagnostic about required bindings it leaves
    /// out: the last of its diagnostics, at the element's range, naming exactly the
    /// required bindings no attribute gives; it gets one exactly when there is such a
    /// binding (and the component is defined with bindings).
    proof fn lemma_attribute_diagnostics_not_missing(&self, u: HtmlComponentUsage, ms: Seq<(Seq<char>, BindingKind, bool)>, aouts: Seq<Option<Diagnostic>>)
        requires
            aouts.len() == u.attributes@.len(),
            forall|i: int| 0 <= i < aouts.len() ==> #[trigger] self.attribute_verdict(u, ms, u.attributes@[i], aouts[i]),
        ensures
            forall|x: int| 0 <= x < present(aouts).len() ==> !reports_missing_bindings(#[trigger] present(aouts)[x]),
    {
        reveal_strlit("Missing required binding");
        reveal_strlit("Attribute '");
        let p = present(aouts);
        lemma_present_from(aouts);
        assert forall|x: int| 0 <= x < p.len() implies !reports_missing_bindings(#[trigger] p[x]) by {
            let k = choose|k: int| 0 <= k < aouts.len() && aouts[k] == Some(p[x]);
            assert(self.attribute_verdict(u, ms, u.attributes@[k], aouts[k]));
            assert(p[x].message@[0] == 'A');
            if reports_missing_bindings(p[x]) {
                assert(p[x].message@[0] == "Missing required binding"@[0]);
            }
        }
    }

    proof fn lemma_missing_diagnostic_reports(&self, u: HtmlComponentUsage, ms: Seq<(Seq<char>, BindingKind, bool)>, d: Diagnostic)
        requires
            self.missing_verdict(u, ms, Some(d)),
        ensures
            reports_missing_bindings(d),
            missing_bindings(ms, u.attributes@, self.config.require_callback_bindings).len() > 0,
    {
        reveal_strlit("Missing required binding");
        reveal_strlit("Missing required binding '");
        reveal_strlit("Missing required bindings on component '");
        let pre = "Missing required binding"@;
        assert(d.message@.subrange(0, pre.len() as int) =~= pre);
    }

    #[verifier::spinoff_prover]
    #[verifier::rlimit(40)]
    pub proof fn law_one_missing_bindings_diagnostic_per_element(&self, u: HtmlComponentUsage, r: Seq<Diagnostic>)
        requires
            self.usage_verdict(u, r),
        ensures
            forall|i: int, j: int| 0 <= i < j < r.len() ==> !(reports_missing_bindings(#[trigger] r[i]) && reports_missing_bindings(#[trigger] r[j])),
            !has_kind(self.index.definitions.defs(), u.component_name@, SymbolKind::Component) ==> r.len() == 0,
            has_kind(self.index.definitions.defs(), u.component_name@, SymbolKind::Component) ==>
                exists|bs: Seq<Symbol>| #[trigger] self.index.definitions.component_bindings_are(u.component_name@, bs) && {
                    let ms = binding_metas(bs, u.component_name@ + "."@);
                    let missing = missing_bindings(ms, u.attributes@, self.config.require_callback_bindings);
                    &&& (exists|i: int| 0 <= i < r.len() && reports_missing_bindings(#[trigger] r[i]))
                        <==> (bs.len() > 0 && ms.len() > 0 && missing.len() > 0)
                    &&& forall|i: int| 0 <= i < r.len() && reports_missing_bindings(#[trigger] r[i]) ==> i == r.len() - 1
                        && self.missing_verdict(u, ms, Some(r[i]))
                        && r[i].range == range_of(u.element_start_line, u.element_start_col, u.element_end_line, u.element_end_col)
                },
    {
        let c = u.component_name@;
        if has_kind(self.index.definitions.defs(), c, SymbolKind::Component) {
            let bs = choose|bs: Seq<Symbol>| #[trigger] self.index.definitions.component_bindings_are(c, bs) && {
                let ms = binding_metas(bs, c + "."@);
                if bs.len() == 0 || ms.len() == 0 {
                    r.len() == 0
                } else {
                    exists|aouts: Seq<Option<Diagnostic>>, mout: Option<Diagnostic>|
                        #![trigger present(aouts), self.missing_verdict(u, ms, mout)]
                        aouts.len() == u.attributes@.len()
                        && (forall|i: int| 0 <= i < aouts.len() ==> #[trigger] self.attribute_verdict(u, ms, u.attributes@[i], aouts[i]))
                        && self.missing_verdict(u, ms, mout)
                        && r == match mout {
                            Some(d) => present(aouts).push(d),
                            None => present(aouts),
                        }
                }
            };
            let ms = binding_metas(bs, c + "."@);
            if !(bs.len() == 0 || ms.len() == 0) {
                let (aouts, mout) = choose|aouts: Seq<Option<Diagnostic>>, mout: Option<Diagnostic>|
                    #![trigger present(aouts), self.missing_verdict(u, ms, mout)]
                    aouts.len() == u.attributes@.len()
                    && (forall|i: int| 0 <= i < aouts.len() ==> #[trigger] self.attribute_verdict(u, ms, u.attributes@[i], aouts[i]))
                    && self.missing_verdict(u, ms, mout)
                    && r == match mout {
                        Some(d) => present(aouts).push(d),
                        None => present(aouts),
                    };
                let p = present(aouts);
                self.lemma_attribute_diagnostics_not_missing(u, ms, aouts);
                let missing = missing_bindings(ms, u.attributes@, self.config.require_callback_bindings);
                match mout {
                    Some(d) => {
                        self.lemma_missing_diagnostic_reports(u, ms, d);
                        assert(r[r.len() - 1] == d);
                        assert forall|i: int| 0 <= i < r.len() && reports_missing_bindings(#[trigger] r[i]) implies i == r.len() - 1 by {
                            if i < p.len() {
                                assert(r[i] == p[i]);
                            }
                        }
                    },
                    None => {
                        assert forall|i: int| 0 <= i < r.len() implies !reports_missing_bindings(#[trigger] r[i]) by {
                            assert(r[i] == p[i]);
                        }
                    },
                }
            }
            assert(self.index.definitions.component_bindings_are(c, bs));
        }
    }
}

/// `'a', 'b', 'c'`: each name in single quotes, separated by a comma and a space.
pub open spec fn quoted_list(ms: Seq<Seq<char>>) -> Seq<char>
    decreases ms.len(),
{
    if ms.len() == 0 {
        Seq::empty()
    } else if ms.len() == 1 {
        "'"@ + ms[0] + "'"@
    } else {
        quoted_list(ms.drop_last()) + ", '"@ + ms.last() + "'"@
    }
}

fn quote_all(ms: &Vec<String>) -> (r: String)
    requires
        ms@.len() > 0,
    ensures
        r@ == quoted_list(views(ms@)),
{
    let t = concat("'", ms[0].as_str());
    let mut r = concat(t.as_str(), "'");
    proof { assert(views(ms@).take(1).len() == 1); }
    let mut k: usize = 1;
    while k < ms.len()
        invariant
            1 <= k <= ms@.len(),
            r@ == quoted_list(views(ms@).take(k as int)),
        decreases ms.len() - k,
    {
        proof {
            assert(views(ms@).take(k + 1).drop_last() =~= views(ms@).take(k as int));
            assert(views(ms@).take(k + 1).last() == ms@[k as int]@);
        }
        let t1 = concat(r.as_str(), ", '");
        let t2 = concat(t1.as_str(), ms[k].as_str());
        r = concat(t2.as_str(), "'");
        k += 1;
    }
    proof { assert(views(ms@).take(ms@.len() as int) =~= views(ms@)); }
    r
}

/// The lists of `outs` one after another.
pub open spec fn joined(outs: Seq<Seq<Diagnostic>>) -> Seq<Diagnostic>
    decreases outs.len(),
{
    if outs.len() == 0 {
        Seq::empty()
    } else {
        joined(outs.drop_last()) + outs.last()
    }
}

} // verus!
