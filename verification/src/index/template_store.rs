//! Which controller each template is bound to, which templates include which
//! (`ng-include`), what routed templates inherit from `ng-view`, and which templates
//! must be analysed again.
use vstd::prelude::*;

use crate::index::snapshot::{lemma_with_name_contains, list_at, picked, with_name};
use crate::index::tables::{
    list_snapshot_of, name_lists, name_lists_entries, name_lists_get, name_lists_insert, name_lists_new, ng_include_map,
    ng_include_map_entries, ng_include_map_get, ng_include_map_insert, ng_include_map_new,
    ng_include_map_remove, ng_view_map, ng_view_map_entries, ng_view_map_insert, ng_view_map_new,
    ng_view_map_remove, snapshot_of, template_binding_map, template_binding_map_entries,
    template_binding_map_insert, template_binding_map_new, text_set, text_set_contains,
    text_set_insert, text_set_items, text_set_new, text_set_remove,
};
use crate::model::{
    BindingSource, HtmlLocalVariableReference, InheritedFormBinding, InheritedLocalVariable,
    NgIncludeBinding, NgViewBinding, TemplateBinding,
};
use crate::text::{
    after_last, concat, contains_str, last_index, decimal, decimal_string, ends_with, ends_with_segment,
    push_char, str_after_last, str_ends_with, str_ends_with_segment, str_eq, views,
};
use crate::uri::{path_of, uri_path, url_with_path};
use crate::util::{normalize_template_path, normalized_template_path};

verus! {

/// The key of a template binding: the binding script, its line and the normalised path.
pub open spec fn binding_key(uri: Seq<char>, line: u32, path: Seq<char>) -> Seq<char> {
    uri + seq!['#'] + decimal(line as nat) + seq!['#'] + path
}

/// The key of an `ng-include`: the including template and the normalised path.
pub open spec fn include_key(parent: Seq<char>, path: Seq<char>) -> Seq<char> {
    parent + seq!['#'] + path
}

/// The template path an include key ends with.
pub open spec fn key_template_path(key: Seq<char>) -> Seq<char> {
    after_last(key, '#')
}

/// The file name of a path: what follows its last `/`.
pub open spec fn file_name(path: Seq<char>) -> Seq<char> {
    after_last(path, '/')
}

/// A binding's template is the document at `path`, by the end of the path.
pub open spec fn binds_path(b: TemplateBinding, path: Seq<char>) -> bool {
    ends_with_segment(path, b.template_path@)
}

/// A binding's template has the file name of the document at `path`.
pub open spec fn binds_file(b: TemplateBinding, path: Seq<char>) -> bool {
    file_name(b.template_path@) == file_name(path)
}

/// Bound by the end of the path `path`.
pub open spec fn bound_by_path(path: Seq<char>) -> spec_fn(TemplateBinding) -> bool {
    |x: TemplateBinding| binds_path(x, path)
}

/// Bound by the file name of `path`.
pub open spec fn bound_by_file(path: Seq<char>) -> spec_fn(TemplateBinding) -> bool {
    |x: TemplateBinding| binds_file(x, path)
}

/// `i` is the first binding of a snapshot satisfying `p`.
pub open spec fn first_binding(e: Seq<(String, TemplateBinding)>, p: spec_fn(TemplateBinding) -> bool, i: int) -> bool {
    &&& 0 <= i < e.len()
    &&& p(e[i].1)
    &&& forall|j: int| 0 <= j < i ==> !p(#[trigger] e[j].1)
}

/// The binding that decides the controller of the document at `path`: the first one
/// bound by the end of the path, else the first one with the same file name.
pub open spec fn chosen_binding(e: Seq<(String, TemplateBinding)>, path: Seq<char>, r: Option<TemplateBinding>) -> bool {
    match r {
        Some(b) => (exists|i: int| first_binding(e, bound_by_path(path), i) && e[i].1 == b)
            || ((forall|j: int| 0 <= j < e.len() ==> !binds_path(#[trigger] e[j].1, path))
                && exists|i: int| first_binding(e, bound_by_file(path), i) && e[i].1 == b),
        None => forall|j: int| 0 <= j < e.len() ==> !binds_path(#[trigger] e[j].1, path) && !binds_file(e[j].1, path),
    }
}

/// The source description of a binding: controller, how it was bound, where, and on
/// which line.
pub open spec fn source_of(b: TemplateBinding) -> (Seq<char>, BindingSource, Seq<char>, u32) {
    (b.controller_name@, b.source, b.binding_uri@, b.binding_line)
}

/// The source descriptions of the bindings of a snapshot satisfying `p`, in order.
pub open spec fn sources_where(e: Seq<(String, TemplateBinding)>, p: spec_fn(TemplateBinding) -> bool) -> Seq<(Seq<char>, BindingSource, Seq<char>, u32)>
    decreases e.len(),
{
    if e.len() == 0 {
        Seq::empty()
    } else {
        let rest = sources_where(e.drop_last(), p);
        if p(e.last().1) { rest.push(source_of(e.last().1)) } else { rest }
    }
}

/// The bindings of a snapshot declared in the script `uri`, in order.
pub open spec fn bindings_of_script(e: Seq<(String, TemplateBinding)>, uri: Seq<char>) -> Seq<TemplateBinding>
    decreases e.len(),
{
    if e.len() == 0 {
        Seq::empty()
    } else {
        let rest = bindings_of_script(e.drop_last(), uri);
        if e.last().1.binding_uri@ == uri { rest.push(e.last().1) } else { rest }
    }
}

/// The template paths bound to controller `c` in a snapshot, each once, in order.
pub open spec fn paths_of_controller(e: Seq<(String, TemplateBinding)>, c: Seq<char>) -> Seq<Seq<char>>
    decreases e.len(),
{
    if e.len() == 0 {
        Seq::empty()
    } else {
        let rest = paths_of_controller(e.drop_last(), c);
        if e.last().1.controller_name@ == c { with_name(rest, e.last().1.template_path@) } else { rest }
    }
}

/// A binding as stored: its template path normalised.
pub open spec fn stored_binding(b: TemplateBinding) -> TemplateBinding {
    TemplateBinding {
        template_path: b.template_path,
        controller_name: b.controller_name,
        source: b.source,
        binding_uri: b.binding_uri,
        binding_line: b.binding_line,
    }
}

/// Two includes differ at most in what they inherit.
pub open spec fn same_shape(a: NgIncludeBinding, b: NgIncludeBinding) -> bool {
    &&& a.parent_uri@ == b.parent_uri@
    &&& a.template_path@ == b.template_path@
    &&& a.resolved_filename@ == b.resolved_filename@
    &&& a.line == b.line
}

/// The includes keep their keys and their shape; only what they inherit may change.
pub open spec fn reshaped(before: Map<Seq<char>, NgIncludeBinding>, after: Map<Seq<char>, NgIncludeBinding>) -> bool {
    &&& after.dom() == before.dom()
    &&& forall|k: Seq<char>| #[trigger] after.contains_key(k) ==> same_shape(after[k], before[k])
}

/// `list` merged into `acc`: each name not yet there appended, in order.
pub open spec fn merge_names(acc: Seq<Seq<char>>, list: Seq<String>) -> Seq<Seq<char>>
    decreases list.len(),
{
    if list.len() == 0 { acc } else { with_name(merge_names(acc, list.drop_last()), list.last()@) }
}

/// The names of `b` merged into `a`: each not yet there appended, in order.
pub open spec fn merge_names_seq(a: Seq<Seq<char>>, b: Seq<Seq<char>>) -> Seq<Seq<char>>
    decreases b.len(),
{
    if b.len() == 0 { a } else { with_name(merge_names_seq(a, b.drop_last()), b.last()) }
}

/// Whether some variable of `s` has the name `n`.
pub open spec fn has_variable_named(s: Seq<InheritedLocalVariable>, n: Seq<char>) -> bool {
    exists|i: int| 0 <= i < s.len() && (#[trigger] s[i]).name@ == n
}

/// `list` merged into `acc`: each variable whose name is not yet there appended, in order.
pub open spec fn merge_variables(acc: Seq<InheritedLocalVariable>, list: Seq<InheritedLocalVariable>) -> Seq<InheritedLocalVariable>
    decreases list.len(),
{
    if list.len() == 0 {
        acc
    } else {
        let m = merge_variables(acc, list.drop_last());
        if has_variable_named(m, list.last().name@) { m } else { m.push(list.last()) }
    }
}

/// Whether some form of `s` has the name `n`.
pub open spec fn has_form_named(s: Seq<InheritedFormBinding>, n: Seq<char>) -> bool {
    exists|i: int| 0 <= i < s.len() && (#[trigger] s[i]).name@ == n
}

/// `list` merged into `acc`: each form whose name is not yet there appended, in order.
pub open spec fn merge_forms(acc: Seq<InheritedFormBinding>, list: Seq<InheritedFormBinding>) -> Seq<InheritedFormBinding>
    decreases list.len(),
{
    if list.len() == 0 {
        acc
    } else {
        let m = merge_forms(acc, list.drop_last());
        if has_form_named(m, list.last().name@) { m } else { m.push(list.last()) }
    }
}

/// The controllers the includes named by `keys` hand down, merged in key order.
pub open spec fn inherited_controllers(inc: Map<Seq<char>, NgIncludeBinding>, keys: Seq<Seq<char>>) -> Seq<Seq<char>>
    decreases keys.len(),
{
    if keys.len() == 0 {
        Seq::empty()
    } else {
        let acc = inherited_controllers(inc, keys.drop_last());
        if inc.contains_key(keys.last()) { merge_names(acc, inc[keys.last()].inherited_controllers@) } else { acc }
    }
}

/// The local variables the includes named by `keys` hand down, merged in key order.
pub open spec fn inherited_variables(inc: Map<Seq<char>, NgIncludeBinding>, keys: Seq<Seq<char>>) -> Seq<InheritedLocalVariable>
    decreases keys.len(),
{
    if keys.len() == 0 {
        Seq::empty()
    } else {
        let acc = inherited_variables(inc, keys.drop_last());
        if inc.contains_key(keys.last()) { merge_variables(acc, inc[keys.last()].inherited_local_variables@) } else { acc }
    }
}

/// The forms the includes named by `keys` hand down, merged in key order.
pub open spec fn inherited_forms(inc: Map<Seq<char>, NgIncludeBinding>, keys: Seq<Seq<char>>) -> Seq<InheritedFormBinding>
    decreases keys.len(),
{
    if keys.len() == 0 {
        Seq::empty()
    } else {
        let acc = inherited_forms(inc, keys.drop_last());
        if inc.contains_key(keys.last()) { merge_forms(acc, inc[keys.last()].inherited_form_bindings@) } else { acc }
    }
}

/// The include keys listed under the paths of a snapshot that end the path `path`.
pub open spec fn keys_by_path(e: Seq<(String, Vec<String>)>, path: Seq<char>) -> Seq<Seq<char>>
    decreases e.len(),
{
    if e.len() == 0 {
        Seq::empty()
    } else {
        let rest = keys_by_path(e.drop_last(), path);
        if ends_with_segment(path, e.last().0@) { rest + views(e.last().1@) } else { rest }
    }
}

/// An include includes the document at `path`: by the path in its key, or by its
/// resolved file name.
pub open spec fn includes_document(key: Seq<char>, b: NgIncludeBinding, path: Seq<char>) -> bool {
    ends_with_segment(path, key_template_path(key)) || b.resolved_filename@ == file_name(path)
}

/// The keys of a snapshot of includes that include the document at `path`, in order.
pub open spec fn keys_including(e: Seq<(String, NgIncludeBinding)>, path: Seq<char>) -> Seq<Seq<char>>
    decreases e.len(),
{
    if e.len() == 0 {
        Seq::empty()
    } else {
        let rest = keys_including(e.drop_last(), path);
        if includes_document(e.last().0@, e.last().1, path) { rest.push(e.last().0@) } else { rest }
    }
}

/// The includers of the document at `path` in a snapshot: each one's template and line.
pub open spec fn includers(e: Seq<(String, NgIncludeBinding)>, path: Seq<char>) -> Seq<(Seq<char>, u32)>
    decreases e.len(),
{
    if e.len() == 0 {
        Seq::empty()
    } else {
        let rest = includers(e.drop_last(), path);
        if includes_document(e.last().0@, e.last().1, path) { rest.push((e.last().1.parent_uri@, e.last().1.line)) } else { rest }
    }
}

/// Template bindings, includes and the analysis queue.
pub struct TemplateStore {
    template_bindings: dashmap::DashMap<String, TemplateBinding>,
    ng_include_bindings: dashmap::DashMap<String, NgIncludeBinding>,
    ng_include_by_filename: dashmap::DashMap<String, Vec<String>>,
    ng_include_by_path: dashmap::DashMap<String, Vec<String>>,
    ng_view_bindings: dashmap::DashMap<String, NgViewBinding>,
    route_provider_templates: dashmap::DashSet<String>,
    pending_reanalysis: dashmap::DashSet<String>,
    analyzed_html_files: dashmap::DashSet<String>,
}

impl TemplateStore {
    /// Template bindings by key.
    pub closed spec fn bindings(&self) -> Map<Seq<char>, TemplateBinding> {
        template_binding_map(self.template_bindings)
    }

    /// Includes by key.
    pub closed spec fn includes(&self) -> Map<Seq<char>, NgIncludeBinding> {
        ng_include_map(self.ng_include_bindings)
    }

    /// Include keys by included file name.
    pub closed spec fn by_filename(&self) -> Map<Seq<char>, Seq<Seq<char>>> {
        name_lists(self.ng_include_by_filename).map_values(|v: Seq<String>| views(v))
    }

    /// Include keys by normalised included path.
    pub closed spec fn by_path(&self) -> Map<Seq<char>, Seq<Seq<char>>> {
        name_lists(self.ng_include_by_path).map_values(|v: Seq<String>| views(v))
    }

    /// `ng-view`s by including template.
    pub closed spec fn views_of(&self) -> Map<Seq<char>, NgViewBinding> {
        ng_view_map(self.ng_view_bindings)
    }

    /// File names and paths of templates routed by `$routeProvider`.
    pub closed spec fn route_templates(&self) -> Set<Seq<char>> {
        text_set(self.route_provider_templates)
    }

    /// Templates waiting to be analysed again.
    pub closed spec fn pending(&self) -> Set<Seq<char>> {
        text_set(self.pending_reanalysis)
    }

    /// Templates analysed so far.
    pub closed spec fn analyzed(&self) -> Set<Seq<char>> {
        text_set(self.analyzed_html_files)
    }

    pub fn new() -> (r: Self)
        ensures
            r.bindings() =~= Map::empty(),
            r.includes() =~= Map::empty(),
            r.by_filename() =~= Map::empty(),
            r.by_path() =~= Map::empty(),
            r.views_of() =~= Map::empty(),
            r.route_templates() =~= Set::empty(),
            r.pending() =~= Set::empty(),
            r.analyzed() =~= Set::empty(),
    {
        let r = TemplateStore {
            template_bindings: template_binding_map_new(),
            ng_include_bindings: ng_include_map_new(),
            ng_include_by_filename: name_lists_new(),
            ng_include_by_path: name_lists_new(),
            ng_view_bindings: ng_view_map_new(),
            route_provider_templates: text_set_new(),
            pending_reanalysis: text_set_new(),
            analyzed_html_files: text_set_new(),
        };
        proof {
            assert(r.by_filename() =~= Map::empty());
            assert(r.by_path() =~= Map::empty());
        }
        r
    }

    /// The controller bound to the template `uri`: by the first binding whose path ends
    /// the document's path, else by the first binding with the same file name.
    pub fn get_controller_for_template(&self, uri: &str) -> (r: Option<String>)
        ensures
            self.controller_for_template_is(uri@, match r { Some(c) => Some(c@), None => None }),
    {
        let (e, b) = self.choose_binding(uri);
        match b {
            Some(x) => Some(x.controller_name),
            None => None,
        }
    }

    /// The snapshot and binding `get_controller_for_template` goes by.
    fn choose_binding(&self, uri: &str) -> (r: (Vec<(String, TemplateBinding)>, Option<TemplateBinding>))
        ensures
            snapshot_of(r.0@, self.bindings()),
            chosen_binding(r.0@, path_of(uri@), r.1),
    {
        let path = uri_path(uri);
        let filename = str_after_last(&path, '/');
        let entries = template_binding_map_entries(&self.template_bindings);
        let mut i: usize = 0;
        while i < entries.len()
            invariant
                i <= entries@.len(),
                path@ == path_of(uri@),
                snapshot_of(entries@, self.bindings()),
                forall|j: int| 0 <= j < i ==> !binds_path(#[trigger] entries@[j].1, path@),
            decreases entries.len() - i,
        {
            if str_ends_with_segment(&path, &entries[i].1.template_path) {
                let b = entries[i].1.clone();
                proof { assert(first_binding(entries@, bound_by_path(path@), i as int)); }
                return (entries, Some(b));
            }
            i += 1;
        }
        let mut i: usize = 0;
        while i < entries.len()
            invariant
                i <= entries@.len(),
                path@ == path_of(uri@),
                snapshot_of(entries@, self.bindings()),
                filename@ == file_name(path@),
                forall|j: int| 0 <= j < entries@.len() ==> !binds_path(#[trigger] entries@[j].1, path@),
                forall|j: int| 0 <= j < i ==> !binds_file(#[trigger] entries@[j].1, path@),
            decreases entries.len() - i,
        {
            let name = str_after_last(&entries[i].1.template_path, '/');
            if str_eq(&name, &filename) {
                let b = entries[i].1.clone();
                proof { assert(first_binding(entries@, bound_by_file(path@), i as int)); }
                return (entries, Some(b));
            }
            i += 1;
        }
        (entries, None)
    }

    /// Where the template `uri` got its controller: the controller, how it was bound,
    /// the script and the line of the binding; chosen as in `get_controller_for_template`.
    pub fn get_template_binding_source(&self, uri: &str) -> (r: Option<(String, BindingSource, String, u32)>)
        ensures
            exists|e: Seq<(String, TemplateBinding)>, b: Option<TemplateBinding>| snapshot_of(e, self.bindings())
                && chosen_binding(e, path_of(uri@), b) && match b {
                    Some(x) => r is Some && (r.unwrap().0@, r.unwrap().1, r.unwrap().2@, r.unwrap().3) == source_of(x),
                    None => r is None,
                },
    {
        let (e, b) = self.choose_binding(uri);
        match b {
            Some(x) => Some((x.controller_name, x.source, x.binding_uri, x.binding_line)),
            None => None,
        }
    }

    /// Every binding of the template `uri`: those whose path ends the document's path,
    /// or, when there is none, those with the same file name; in the map's own order.
    pub fn get_all_template_binding_sources(&self, uri: &str) -> (r: Vec<(String, BindingSource, String, u32)>)
        ensures
            self.binding_sources_are(uri@, r@.map_values(|t: (String, BindingSource, String, u32)| (t.0@, t.1, t.2@, t.3))),
    {
        let path = uri_path(uri);
        let filename = str_after_last(&path, '/');
        let entries = template_binding_map_entries(&self.template_bindings);
        let ghost pp = bound_by_path(path@);
        let ghost pf = bound_by_file(path@);
        let mut r: Vec<(String, BindingSource, String, u32)> = Vec::new();
        let mut i: usize = 0;
        while i < entries.len()
            invariant
                i <= entries@.len(),
                pp == bound_by_path(path@),
                path@ == path_of(uri@),
                snapshot_of(entries@, self.bindings()),
                r@.map_values(|t: (String, BindingSource, String, u32)| (t.0@, t.1, t.2@, t.3)) == sources_where(entries@.take(i as int), pp),
            decreases entries.len() - i,
        {
            proof { assert(entries@.take(i + 1).drop_last() =~= entries@.take(i as int)); }
            let ghost before = r@;
            if str_ends_with_segment(&path, &entries[i].1.template_path) {
                let b = &entries[i].1;
                r.push((b.controller_name.clone(), b.source, b.binding_uri.clone(), b.binding_line));
                proof {
                    assert(r@.map_values(|t: (String, BindingSource, String, u32)| (t.0@, t.1, t.2@, t.3))
                        =~= before.map_values(|t: (String, BindingSource, String, u32)| (t.0@, t.1, t.2@, t.3)).push(source_of(entries@[i as int].1)));
                }
            }
            i += 1;
        }
        proof { assert(entries@.take(i as int) =~= entries@); }
        if r.len() > 0 {
            return r;
        }
        proof { assert(sources_where(entries@, pp).len() == 0); }
        let mut i: usize = 0;
        while i < entries.len()
            invariant
                i <= entries@.len(),
                filename@ == file_name(path@),
                pf == bound_by_file(path@),
                path@ == path_of(uri@),
                snapshot_of(entries@, self.bindings()),
                sources_where(entries@, pp).len() == 0,
                r@.map_values(|t: (String, BindingSource, String, u32)| (t.0@, t.1, t.2@, t.3)) == sources_where(entries@.take(i as int), pf),
            decreases entries.len() - i,
        {
            proof { assert(entries@.take(i + 1).drop_last() =~= entries@.take(i as int)); }
            let ghost before = r@;
            let name = str_after_last(&entries[i].1.template_path, '/');
            if str_eq(&name, &filename) {
                let b = &entries[i].1;
                r.push((b.controller_name.clone(), b.source, b.binding_uri.clone(), b.binding_line));
                proof {
                    assert(r@.map_values(|t: (String, BindingSource, String, u32)| (t.0@, t.1, t.2@, t.3))
                        =~= before.map_values(|t: (String, BindingSource, String, u32)| (t.0@, t.1, t.2@, t.3)).push(source_of(entries@[i as int].1)));
                }
            }
            i += 1;
        }
        proof { assert(entries@.take(i as int) =~= entries@); }
        r
    }

    /// The bindings declared in the script `uri`, in the map's own order.
    pub fn get_template_bindings_for_js_file(&self, uri: &str) -> (r: Vec<TemplateBinding>)
        ensures
            self.script_bindings_are(uri@, r@),
    {
        let entries = template_binding_map_entries(&self.template_bindings);
        let mut r: Vec<TemplateBinding> = Vec::new();
        let mut i: usize = 0;
        while i < entries.len()
            invariant
                i <= entries@.len(),
                r@ == bindings_of_script(entries@.take(i as int), uri@),
            decreases entries.len() - i,
        {
            proof { assert(entries@.take(i + 1).drop_last() =~= entries@.take(i as int)); }
            if str_eq(&entries[i].1.binding_uri, uri) {
                r.push(entries[i].1.clone());
            }
            i += 1;
        }
        proof { assert(entries@.take(i as int) =~= entries@); }
        r
    }

    /// The template paths bound to `controller_name`, each once, in the map's own order.
    pub fn get_templates_for_controller(&self, controller_name: &str) -> (r: Vec<String>)
        ensures
            exists|e: Seq<(String, TemplateBinding)>| snapshot_of(e, self.bindings())
                && views(r@) == paths_of_controller(e, controller_name@),
    {
        let entries = template_binding_map_entries(&self.template_bindings);
        let mut r: Vec<String> = Vec::new();
        let mut i: usize = 0;
        while i < entries.len()
            invariant
                i <= entries@.len(),
                views(r@) == paths_of_controller(entries@.take(i as int), controller_name@),
            decreases entries.len() - i,
        {
            proof { assert(entries@.take(i + 1).drop_last() =~= entries@.take(i as int)); }
            if str_eq(&entries[i].1.controller_name, controller_name) {
                let path = entries[i].1.template_path.clone();
                if !contains_str(&r, &path) {
                    let ghost before = r@;
                    r.push(path);
                    proof { assert(views(r@) =~= views(before).push(entries@[i as int].1.template_path@)); }
                }
            }
            i += 1;
        }
        proof { assert(entries@.take(i as int) =~= entries@); }
        r
    }

    /// Every template binding, in the map's own order.
    pub fn get_all_template_bindings(&self) -> (r: Vec<TemplateBinding>)
        ensures
            exists|e: Seq<(String, TemplateBinding)>| snapshot_of(e, self.bindings())
                && r@ == e.map_values(|p: (String, TemplateBinding)| p.1),
    {
        let entries = template_binding_map_entries(&self.template_bindings);
        let mut r: Vec<TemplateBinding> = Vec::new();
        let mut i: usize = 0;
        while i < entries.len()
            invariant
                i <= entries@.len(),
                r@ == entries@.take(i as int).map_values(|p: (String, TemplateBinding)| p.1),
            decreases entries.len() - i,
        {
            r.push(entries[i].1.clone());
            proof {
                assert(entries@.take(i + 1).map_values(|p: (String, TemplateBinding)| p.1)
                    =~= entries@.take(i as int).map_values(|p: (String, TemplateBinding)| p.1).push(entries@[i as int].1));
            }
            i += 1;
        }
        proof {
            assert(entries@.take(i as int) =~= entries@);
            assert(snapshot_of(entries@, self.bindings()));
        }
        r
    }

    /// Records an `ng-view` under the template that holds it.
    pub fn add_ng_view_binding(&mut self, binding: NgViewBinding)
        ensures
            final(self).views_of() == old(self).views_of().insert(binding.parent_uri@, binding),
            final(self).bindings() == old(self).bindings(),
            final(self).includes() == old(self).includes(),
    {
        let key = binding.parent_uri.clone();
        ng_view_map_insert(&mut self.ng_view_bindings, key, binding);
    }

    /// Whether the template `uri` is routed by `$routeProvider` (by its file name).
    pub fn is_route_provider_template(&self, uri: &str) -> (r: bool)
        ensures
            r == self.route_templates().contains(file_name(path_of(uri@))),
    {
        let path = uri_path(uri);
        let filename = str_after_last(&path, '/');
        text_set_contains(&self.route_provider_templates, &filename)
    }

    /// Takes every template waiting to be analysed again; the queue is left empty.
    pub fn take_pending_reanalysis(&mut self) -> (r: Vec<String>)
        ensures
            forall|i: int, j: int| 0 <= i < j < r@.len() ==> r@[i]@ != r@[j]@,
            forall|k: Seq<char>| old(self).pending().contains(k) <==> exists|i: int| 0 <= i < r@.len() && #[trigger] r@[i]@ == k,
            final(self).pending() =~= Set::empty(),
            final(self).includes() == old(self).includes(),
            final(self).analyzed() == old(self).analyzed(),
    {
        let r = text_set_items(&self.pending_reanalysis);
        self.pending_reanalysis = text_set_new();
        r
    }

    /// Drops `uri` from the queue.
    pub fn remove_from_pending_reanalysis(&mut self, uri: &str)
        ensures
            final(self).pending() == old(self).pending().remove(uri@),
            final(self).analyzed() == old(self).analyzed(),
    {
        text_set_remove(&mut self.pending_reanalysis, uri);
    }

    /// Puts `uri` in the queue.
    pub fn add_pending_reanalysis(&mut self, uri: String)
        ensures
            final(self).pending() == old(self).pending().insert(uri@),
            final(self).analyzed() == old(self).analyzed(),
    {
        text_set_insert(&mut self.pending_reanalysis, uri);
    }

    /// Records that the template `uri` has been analysed.
    pub fn mark_html_analyzed(&mut self, uri: &str)
        ensures
            final(self).analyzed() == old(self).analyzed().insert(uri@),
            final(self).pending() == old(self).pending(),
    {
        text_set_insert(&mut self.analyzed_html_files, uri.to_owned());
    }

    /// Every analysed template, each once, in the set's own order.
    pub fn analyzed_html_uris(&self) -> (r: Vec<String>)
        ensures
            forall|i: int, j: int| 0 <= i < j < r@.len() ==> r@[i]@ != r@[j]@,
            forall|k: Seq<char>| self.analyzed().contains(k) <==> exists|i: int| 0 <= i < r@.len() && #[trigger] r@[i]@ == k,
    {
        text_set_items(&self.analyzed_html_files)
    }

    /// Include keys by normalised included path, as stored.
    pub closed spec fn path_index(&self) -> Map<Seq<char>, Seq<String>> {
        name_lists(self.ng_include_by_path)
    }

    /// `c` is the controller `get_controller_for_template` gives for the template `uri`.
    pub open spec fn controller_for_template_is(&self, uri: Seq<char>, c: Option<Seq<char>>) -> bool {
        exists|e: Seq<(String, TemplateBinding)>, b: Option<TemplateBinding>| snapshot_of(e, self.bindings())
            && chosen_binding(e, path_of(uri), b) && c == match b {
                Some(x) => Some(x.controller_name@),
                None => None,
            }
    }

    /// `r` is what `get_inherited_controllers_for_template` gives for the template `uri`.
    pub open spec fn inherited_controllers_are(&self, uri: Seq<char>, r: Seq<Seq<char>>) -> bool {
        exists|ep: Seq<(String, Vec<String>)>, ei: Seq<(String, NgIncludeBinding)>|
            list_snapshot_of(ep, self.path_index()) && snapshot_of(ei, self.includes())
            && r == inherited_controllers(self.includes(), self.keys_for(ep, ei, path_of(uri)))
    }

    /// `r` is what `get_inherited_local_variables_for_template` gives for the template `uri`.
    pub open spec fn inherited_variables_are(&self, uri: Seq<char>, r: Seq<InheritedLocalVariable>) -> bool {
        exists|ep: Seq<(String, Vec<String>)>, ei: Seq<(String, NgIncludeBinding)>|
            list_snapshot_of(ep, self.path_index()) && snapshot_of(ei, self.includes())
            && r == inherited_variables(self.includes(), self.keys_for(ep, ei, path_of(uri)))
    }

    /// `r` is what `get_inherited_form_bindings_for_template` gives for the template `uri`.
    pub open spec fn inherited_forms_are(&self, uri: Seq<char>, r: Seq<InheritedFormBinding>) -> bool {
        exists|ep: Seq<(String, Vec<String>)>, ei: Seq<(String, NgIncludeBinding)>|
            list_snapshot_of(ep, self.path_index()) && snapshot_of(ei, self.includes())
            && r == inherited_forms(self.includes(), self.keys_for(ep, ei, path_of(uri)))
    }

    /// The include keys `find_all_ng_include_keys_for_template` gives for the document at
    /// `path`, for snapshots `ep` of the path index and `ei` of the includes: the keys
    /// under the paths that end the document's path; failing those, the keys under its
    /// file name; failing those, the keys of the includes that include it.
    pub open spec fn keys_for(&self, ep: Seq<(String, Vec<String>)>, ei: Seq<(String, NgIncludeBinding)>, path: Seq<char>) -> Seq<Seq<char>> {
        if keys_by_path(ep, path).len() > 0 {
            keys_by_path(ep, path)
        } else if list_at(self.by_filename(), file_name(path)).len() > 0 {
            list_at(self.by_filename(), file_name(path))
        } else {
            keys_including(ei, path)
        }
    }

    /// The include keys that concern the template `uri`, as `keys_for` says.
    pub fn find_all_ng_include_keys_for_template(&self, uri: &str) -> (r: Vec<String>)
        ensures
            exists|ep: Seq<(String, Vec<String>)>, ei: Seq<(String, NgIncludeBinding)>|
                list_snapshot_of(ep, self.path_index()) && snapshot_of(ei, self.includes())
                && views(r@) == self.keys_for(ep, ei, path_of(uri@)),
    {
        let path = uri_path(uri);
        let filename = str_after_last(&path, '/');
        let ep = name_lists_entries(&self.ng_include_by_path);
        let ei = ng_include_map_entries(&self.ng_include_bindings);
        let mut keys: Vec<String> = Vec::new();
        let mut i: usize = 0;
        while i < ep.len()
            invariant
                i <= ep@.len(),
                views(keys@) == keys_by_path(ep@.take(i as int), path@),
            decreases ep.len() - i,
        {
            proof { assert(ep@.take(i + 1).drop_last() =~= ep@.take(i as int)); }
            if str_ends_with_segment(&path, &ep[i].0) {
                let ghost before = keys@;
                let mut more = ep[i].1.clone();
                proof { assert(views(more@) =~= views(ep@[i as int].1@)); }
                keys.append(&mut more);
                proof { assert(views(keys@) =~= views(before) + views(ep@[i as int].1@)); }
            }
            i += 1;
        }
        proof { assert(ep@.take(i as int) =~= ep@); }
        if keys.len() > 0 {
            proof {
                assert(views(keys@) == self.keys_for(ep@, ei@, path_of(uri@)));
                assert(list_snapshot_of(ep@, self.path_index()) && snapshot_of(ei@, self.includes()));
            }
            return keys;
        }
        proof { assert(keys_by_path(ep@, path@).len() == 0); }
        match name_lists_get(&self.ng_include_by_filename, &filename) {
            Some(v) => {
                if v.len() > 0 {
                    proof {
                        assert(views(v@) == list_at(self.by_filename(), filename@));
                        assert(views(v@) == self.keys_for(ep@, ei@, path_of(uri@)));
                        assert(list_snapshot_of(ep@, self.path_index()) && snapshot_of(ei@, self.includes()));
                    }
                    return v;
                }
                proof { assert(views(v@) == list_at(self.by_filename(), filename@)); }
            },
            None => {
                proof { assert(list_at(self.by_filename(), filename@) =~= Seq::empty()); }
            },
        }
        let mut i: usize = 0;
        while i < ei.len()
            invariant
                i <= ei@.len(),
                views(keys@) == keys_including(ei@.take(i as int), path@),
                path@ == path_of(uri@),
                filename@ == file_name(path@),
            decreases ei.len() - i,
        {
            proof { assert(ei@.take(i + 1).drop_last() =~= ei@.take(i as int)); }
            let tp = str_after_last(&ei[i].0, '#');
            if str_ends_with_segment(&path, &tp) || str_eq(&ei[i].1.resolved_filename, &filename) {
                let ghost before = keys@;
                keys.push(ei[i].0.clone());
                proof { assert(views(keys@) =~= views(before).push(ei@[i as int].0@)); }
            }
            i += 1;
        }
        proof {
            assert(ei@.take(i as int) =~= ei@);
            assert(views(keys@) == self.keys_for(ep@, ei@, path_of(uri@)));
            assert(list_snapshot_of(ep@, self.path_index()) && snapshot_of(ei@, self.includes()));
        }
        keys
    }

    /// The controllers the template `uri` inherits through its includes: those of each
    /// include `find_all_ng_include_keys_for_template` names, merged in order.
    pub fn get_inherited_controllers_for_template(&self, uri: &str) -> (r: Vec<String>)
        ensures
            self.inherited_controllers_are(uri@, views(r@)),
    {
        let keys = self.find_all_ng_include_keys_for_template(uri);
        let mut r: Vec<String> = Vec::new();
        let mut i: usize = 0;
        while i < keys.len()
            invariant
                i <= keys@.len(),
                views(r@) == inherited_controllers(self.includes(), views(keys@).take(i as int)),
            decreases keys.len() - i,
        {
            proof { assert(views(keys@).take(i + 1).drop_last() =~= views(keys@).take(i as int)); }
            match ng_include_map_get(&self.ng_include_bindings, &keys[i]) {
                Some(b) => merge_names_into(&mut r, &b.inherited_controllers),
                None => {},
            }
            i += 1;
        }
        proof { assert(views(keys@).take(i as int) =~= views(keys@)); }
        r
    }

    /// The local variables the template `uri` inherits through its includes, merged by
    /// name in order.
    pub fn get_inherited_local_variables_for_template(&self, uri: &str) -> (r: Vec<InheritedLocalVariable>)
        ensures
            self.inherited_variables_are(uri@, r@),
    {
        let keys = self.find_all_ng_include_keys_for_template(uri);
        let mut r: Vec<InheritedLocalVariable> = Vec::new();
        let mut i: usize = 0;
        while i < keys.len()
            invariant
                i <= keys@.len(),
                r@ == inherited_variables(self.includes(), views(keys@).take(i as int)),
            decreases keys.len() - i,
        {
            proof { assert(views(keys@).take(i + 1).drop_last() =~= views(keys@).take(i as int)); }
            match ng_include_map_get(&self.ng_include_bindings, &keys[i]) {
                Some(b) => merge_variables_into(&mut r, &b.inherited_local_variables),
                None => {},
            }
            i += 1;
        }
        proof { assert(views(keys@).take(i as int) =~= views(keys@)); }
        r
    }

    /// The forms the template `uri` inherits through its includes, merged by name in order.
    pub fn get_inherited_form_bindings_for_template(&self, uri: &str) -> (r: Vec<InheritedFormBinding>)
        ensures
            self.inherited_forms_are(uri@, r@),
    {
        let keys = self.find_all_ng_include_keys_for_template(uri);
        let mut r: Vec<InheritedFormBinding> = Vec::new();
        let mut i: usize = 0;
        while i < keys.len()
            invariant
                i <= keys@.len(),
                r@ == inherited_forms(self.includes(), views(keys@).take(i as int)),
            decreases keys.len() - i,
        {
            proof { assert(views(keys@).take(i + 1).drop_last() =~= views(keys@).take(i as int)); }
            match ng_include_map_get(&self.ng_include_bindings, &keys[i]) {
                Some(b) => merge_forms_into(&mut r, &b.inherited_form_bindings),
                None => {},
            }
            i += 1;
        }
        proof { assert(views(keys@).take(i as int) =~= views(keys@)); }
        r
    }

    /// The templates that include `uri`, each with the line of its `ng-include`; in the
    /// map's own order.
    pub fn get_parent_templates_for_child(&self, uri: &str) -> (r: Vec<(String, u32)>)
        ensures
            self.parents_are(uri@, r@.map_values(|p: (String, u32)| (p.0@, p.1))),
    {
        let path = uri_path(uri);
        let filename = str_after_last(&path, '/');
        let ei = ng_include_map_entries(&self.ng_include_bindings);
        let mut r: Vec<(String, u32)> = Vec::new();
        let mut i: usize = 0;
        while i < ei.len()
            invariant
                i <= ei@.len(),
                r@.map_values(|p: (String, u32)| (p.0@, p.1)) == includers(ei@.take(i as int), path@),
                path@ == path_of(uri@),
                filename@ == file_name(path@),
            decreases ei.len() - i,
        {
            proof { assert(ei@.take(i + 1).drop_last() =~= ei@.take(i as int)); }
            let tp = str_after_last(&ei[i].0, '#');
            if str_ends_with_segment(&path, &tp) || str_eq(&ei[i].1.resolved_filename, &filename) {
                let ghost before = r@;
                r.push((ei[i].1.parent_uri.clone(), ei[i].1.line));
                proof {
                    assert(r@.map_values(|p: (String, u32)| (p.0@, p.1))
                        =~= before.map_values(|p: (String, u32)| (p.0@, p.1)).push((ei@[i as int].1.parent_uri@, ei@[i as int].1.line)));
                }
            }
            i += 1;
        }
        proof {
            assert(ei@.take(i as int) =~= ei@);
            assert(snapshot_of(ei@, self.includes()));
        }
        r
    }

    /// The controllers every `ng-view` hands down, merged in the map's own order; none
    /// unless the template `uri` is routed.
    pub fn get_ng_view_inherited_controllers(&self, uri: &str) -> (r: Vec<String>)
        ensures
            !self.route_templates().contains(file_name(path_of(uri@))) ==> r@.len() == 0,
            self.route_templates().contains(file_name(path_of(uri@))) ==> exists|ev: Seq<(String, NgViewBinding)>|
                snapshot_of(ev, self.views_of()) && views(r@) == view_controllers(ev),
    {
        if !self.is_route_provider_template(uri) {
            return Vec::new();
        }
        let ev = ng_view_map_entries(&self.ng_view_bindings);
        let mut r: Vec<String> = Vec::new();
        let mut i: usize = 0;
        while i < ev.len()
            invariant
                i <= ev@.len(),
                views(r@) == view_controllers(ev@.take(i as int)),
            decreases ev.len() - i,
        {
            proof { assert(ev@.take(i + 1).drop_last() =~= ev@.take(i as int)); }
            merge_names_into(&mut r, &ev[i].1.inherited_controllers);
            i += 1;
        }
        proof {
            assert(ev@.take(i as int) =~= ev@);
            assert(snapshot_of(ev@, self.views_of()));
        }
        r
    }

    /// `b` is whether the template `uri` inherits the variable `var_name` from
    /// `parent_uri`.
    pub open spec fn inherits_variable(&self, uri: Seq<char>, var_name: Seq<char>, parent_uri: Seq<char>, b: bool) -> bool {
        exists|inh: Seq<InheritedLocalVariable>| #[trigger] self.inherited_variables_are(uri, inh)
            && b == exists|j: int| 0 <= j < inh.len() && inh[j].name@ == var_name && inh[j].uri@ == parent_uri
    }

    /// `r` is those of `refs` made outside `parent_uri` in templates that inherit
    /// `var_name` from it, in order.
    pub open spec fn inherited_references_are(&self, parent_uri: Seq<char>, var_name: Seq<char>, refs: Seq<HtmlLocalVariableReference>, r: Seq<HtmlLocalVariableReference>) -> bool {
        exists|keep: Seq<bool>| #![trigger picked(refs, keep)] keep.len() == refs.len()
            && (forall|i: int| 0 <= i < refs.len() ==> (#[trigger] refs[i]).uri@ == parent_uri ==> !keep[i])
            && (forall|i: int| 0 <= i < refs.len() ==> (#[trigger] refs[i]).uri@ != parent_uri
                ==> self.inherits_variable(refs[i].uri@, var_name, parent_uri, keep[i]))
            && r == picked(refs, keep)
    }

    /// Of `refs` (the references to the variable `var_name`), those made outside
    /// `parent_uri` in templates that inherit `var_name` from `parent_uri`, in order.
    pub fn get_inherited_local_variable_references(
        &self,
        parent_uri: &str,
        var_name: &str,
        refs: &Vec<HtmlLocalVariableReference>,
    ) -> (r: Vec<HtmlLocalVariableReference>)
        ensures
            self.inherited_references_are(parent_uri@, var_name@, refs@, r@),
    {
        let mut r: Vec<HtmlLocalVariableReference> = Vec::new();
        let ghost mut keep: Seq<bool> = Seq::empty();
        let mut i: usize = 0;
        while i < refs.len()
            invariant
                i <= refs@.len(),
                keep.len() == i,
                forall|x: int| 0 <= x < i ==> (#[trigger] refs@[x]).uri@ == parent_uri@ ==> !keep[x],
                forall|x: int| 0 <= x < i ==> (#[trigger] refs@[x]).uri@ != parent_uri@
                    ==> self.inherits_variable(refs@[x].uri@, var_name@, parent_uri@, keep[x]),
                r@ == picked(refs@.take(i as int), keep),
            decreases refs.len() - i,
        {
            let mut found = false;
            if !str_eq(&refs[i].uri, parent_uri) {
                let inherited = self.get_inherited_local_variables_for_template(&refs[i].uri);
                let mut j: usize = 0;
                while j < inherited.len()
                    invariant
                        j <= inherited@.len(),
                        found == exists|k: int| 0 <= k < j && inherited@[k].name@ == var_name@ && inherited@[k].uri@ == parent_uri@,
                    decreases inherited.len() - j,
                {
                    if str_eq(&inherited[j].name, var_name) && str_eq(&inherited[j].uri, parent_uri) {
                        found = true;
                    }
                    j += 1;
                }
                assert(self.inherits_variable(refs@[i as int].uri@, var_name@, parent_uri@, found));
            }
            proof {
                assert(refs@.take(i + 1).drop_last() =~= refs@.take(i as int));
                assert(refs@.take(i + 1).last() == refs@[i as int]);
                assert(keep.push(found).drop_last() =~= keep);
                lemma_picked_extend(refs@.take(i as int), keep, found);
                keep = keep.push(found);
            }
            if found {
                r.push(refs[i].clone());
            }
            i += 1;
        }
        proof { assert(refs@.take(refs@.len() as int) =~= refs@); }
        r
    }

    /// Every include with its key, in the map's own order.
    pub fn get_all_ng_include_bindings(&self) -> (r: Vec<(String, NgIncludeBinding)>)
        ensures
            snapshot_of(r@, self.includes()),
    {
        ng_include_map_entries(&self.ng_include_bindings)
    }

    /// Records an include under `key`, and the key under the include's file name and
    /// under its normalised path.
    pub fn add_ng_include_binding_with_key(&mut self, key: String, binding: NgIncludeBinding)
        ensures
            final(self).includes() == old(self).includes().insert(key@, binding),
            final(self).by_filename() == old(self).by_filename().insert(binding.resolved_filename@,
                list_at(old(self).by_filename(), binding.resolved_filename@).push(key@)),
            final(self).path_index().dom() == old(self).path_index().dom().insert(normalized_template_path(binding.template_path@)),
            final(self).bindings() == old(self).bindings(),
            final(self).views_of() == old(self).views_of(),
            final(self).route_templates() == old(self).route_templates(),
            final(self).pending() == old(self).pending(),
            final(self).analyzed() == old(self).analyzed(),
    {
        let filename = binding.resolved_filename.clone();
        let path = normalize_template_path(&binding.template_path);
        let mut by_name = match name_lists_get(&self.ng_include_by_filename, &filename) {
            Some(v) => v,
            None => Vec::new(),
        };
        let ghost names0 = by_name@;
        by_name.push(key.clone());
        proof { assert(views(by_name@) =~= views(names0).push(key@)); }
        let ghost raw0 = name_lists(self.ng_include_by_filename);
        name_lists_insert(&mut self.ng_include_by_filename, filename, by_name);
        proof {
            assert(name_lists(self.ng_include_by_filename).map_values(|v: Seq<String>| views(v))
                =~= raw0.map_values(|v: Seq<String>| views(v)).insert(binding.resolved_filename@, views(names0).push(key@)));
            assert(views(names0) =~= list_at(old(self).by_filename(), binding.resolved_filename@));
        }
        let mut by_path = match name_lists_get(&self.ng_include_by_path, &path) {
            Some(v) => v,
            None => Vec::new(),
        };
        by_path.push(key.clone());
        name_lists_insert(&mut self.ng_include_by_path, path, by_path);
        ng_include_map_insert(&mut self.ng_include_bindings, key, binding);
    }

    /// Drops the includes made by `parent_uri`, and their keys from the indexes.
    pub fn clear_ng_include_bindings_for_parent(&mut self, parent_uri: &str)
        ensures
            final(self).includes() == old(self).includes().restrict(
                old(self).includes().dom().filter(|k: Seq<char>| old(self).includes()[k].parent_uri@ != parent_uri@)),
            final(self).bindings() == old(self).bindings(),
            final(self).views_of() == old(self).views_of(),
            final(self).route_templates() == old(self).route_templates(),
            final(self).pending() == old(self).pending(),
            final(self).analyzed() == old(self).analyzed(),
    {
        let ei = ng_include_map_entries(&self.ng_include_bindings);
        let ghost m0 = self.includes();
        let ghost mut done: Set<Seq<char>> = Set::empty();
        proof {
            assert(self.includes() =~= m0.restrict(m0.dom().filter(|k: Seq<char>| m0[k].parent_uri@ != parent_uri@ || !done.contains(k))));
        }
        let mut i: usize = 0;
        while i < ei.len()
            invariant
                i <= ei@.len(),
                snapshot_of(ei@, m0),
                m0 == old(self).includes(),
                forall|j: int| 0 <= j < i ==> done.contains(#[trigger] ei@[j].0@),
                self.includes() == m0.restrict(m0.dom().filter(|k: Seq<char>| m0[k].parent_uri@ != parent_uri@ || !done.contains(k))),
                self.bindings() == old(self).bindings(),
                self.views_of() == old(self).views_of(),
                self.route_templates() == old(self).route_templates(),
                self.pending() == old(self).pending(),
                self.analyzed() == old(self).analyzed(),
            decreases ei.len() - i,
        {
            let ghost k0 = ei@[i as int].0@;
            proof { assert(m0.contains_key(k0)); }
            if str_eq(&ei[i].1.parent_uri, parent_uri) {
                let key = &ei[i].0;
                let filename = &ei[i].1.resolved_filename;
                let path = normalize_template_path(&ei[i].1.template_path);
                match name_lists_get(&self.ng_include_by_filename, filename) {
                    Some(v) => {
                        let kept = strings_without(v, key);
                        name_lists_insert(&mut self.ng_include_by_filename, filename.clone(), kept);
                    },
                    None => {},
                }
                match name_lists_get(&self.ng_include_by_path, &path) {
                    Some(v) => {
                        let kept = strings_without(v, key);
                        name_lists_insert(&mut self.ng_include_by_path, path, kept);
                    },
                    None => {},
                }
                ng_include_map_remove(&mut self.ng_include_bindings, key);
            }
            proof {
                let d2 = done.insert(k0);
                assert(self.includes() =~= m0.restrict(m0.dom().filter(|k: Seq<char>| m0[k].parent_uri@ != parent_uri@ || !d2.contains(k))));
                done = d2;
            }
            i += 1;
        }
        proof {
            assert forall|k: Seq<char>| #[trigger] m0.contains_key(k) implies done.contains(k) by {
                let j = choose|j: int| 0 <= j < ei@.len() && #[trigger] ei@[j].0@ == k;
                assert(done.contains(ei@[j].0@));
            }
            assert(self.includes() =~= m0.restrict(m0.dom().filter(|k: Seq<char>| m0[k].parent_uri@ != parent_uri@)));
        }
    }

    /// Drops the includes made by `uri` and its `ng-view`.
    pub fn clear_document(&mut self, uri: &str)
        ensures
            final(self).includes() == old(self).includes().restrict(
                old(self).includes().dom().filter(|k: Seq<char>| old(self).includes()[k].parent_uri@ != uri@)),
            final(self).views_of() == old(self).views_of().remove(uri@),
            final(self).bindings() == old(self).bindings(),
            final(self).route_templates() == old(self).route_templates(),
            final(self).pending() == old(self).pending(),
            final(self).analyzed() == old(self).analyzed(),
    {
        self.clear_ng_include_bindings_for_parent(uri);
        ng_view_map_remove(&mut self.ng_view_bindings, uri);
    }

    /// Empties the store.
    pub fn clear_all(&mut self)
        ensures
            final(self).bindings() =~= Map::empty(),
            final(self).includes() =~= Map::empty(),
            final(self).by_filename() =~= Map::empty(),
            final(self).by_path() =~= Map::empty(),
            final(self).views_of() =~= Map::empty(),
            final(self).route_templates() =~= Set::empty(),
            final(self).pending() =~= Set::empty(),
            final(self).analyzed() =~= Set::empty(),
    {
        *self = TemplateStore::new();
    }

    /// Records a binding keyed by its script, its line and its normalised template path;
    /// a `$routeProvider` binding also routes the template (by file name and by path);
    /// then the includes below the template learn its controller.
    pub fn add_template_binding(&mut self, binding: TemplateBinding)
        ensures
            ({
                let path = normalized_template_path(binding.template_path@);
                let key = binding_key(binding.binding_uri@, binding.binding_line, path);
                &&& final(self).bindings().dom() == old(self).bindings().dom().insert(key)
                &&& final(self).bindings()[key].template_path@ == path
                &&& final(self).bindings()[key].controller_name == binding.controller_name
                &&& final(self).bindings()[key].source == binding.source
                &&& final(self).bindings()[key].binding_uri == binding.binding_uri
                &&& final(self).bindings()[key].binding_line == binding.binding_line
                &&& forall|k: Seq<char>| k != key && #[trigger] old(self).bindings().contains_key(k)
                    ==> final(self).bindings()[k] == old(self).bindings()[k]
                &&& final(self).route_templates() == if binding.source == BindingSource::RouteProvider {
                    old(self).route_templates().insert(file_name(path)).insert(path)
                } else {
                    old(self).route_templates()
                }
            }),
            reshaped(old(self).includes(), final(self).includes()),
            final(self).views_of() == old(self).views_of(),
            final(self).pending() == old(self).pending(),
            final(self).analyzed() == old(self).analyzed(),
    {
        let path = normalize_template_path(&binding.template_path);
        let controller = binding.controller_name.clone();
        let source = binding.source;
        let mut key = binding.binding_uri.clone();
        push_char(&mut key, '#');
        let line = decimal_string(binding.binding_line as u64);
        key.append(&line);
        push_char(&mut key, '#');
        key.append(&path);
        proof {
            assert(key@ =~= binding_key(binding.binding_uri@, binding.binding_line, normalized_template_path(binding.template_path@)));
        }
        let stored = TemplateBinding {
            template_path: path.clone(),
            controller_name: binding.controller_name,
            source: binding.source,
            binding_uri: binding.binding_uri,
            binding_line: binding.binding_line,
        };
        template_binding_map_insert(&mut self.template_bindings, key, stored);
        if source == BindingSource::RouteProvider {
            let filename = str_after_last(&path, '/');
            text_set_insert(&mut self.route_provider_templates, filename);
            text_set_insert(&mut self.route_provider_templates, path.clone());
        }
        let mut controllers: Vec<String> = Vec::new();
        controllers.push(controller);
        let depth = ng_include_map_entries(&self.ng_include_bindings).len();
        self.propagate_inheritance_to_children(&path, &controllers, &Vec::new(), &Vec::new(), depth);
    }

    /// Records an include (keyed by its template and normalised path, and indexed by its
    /// file name and path), queues the included template for analysis, and brings what
    /// the includes below it inherit up to date.
    pub fn add_ng_include_binding(&mut self, binding: NgIncludeBinding)
        ensures
            final(self).includes().contains_key(include_key(binding.parent_uri@, normalized_template_path(binding.template_path@))),
            final(self).includes().dom() == old(self).includes().dom().insert(
                include_key(binding.parent_uri@, normalized_template_path(binding.template_path@))),
            same_shape(final(self).includes()[include_key(binding.parent_uri@, normalized_template_path(binding.template_path@))], binding),
            forall|k: Seq<char>| k != include_key(binding.parent_uri@, normalized_template_path(binding.template_path@))
                && #[trigger] old(self).includes().contains_key(k) ==> same_shape(final(self).includes()[k], old(self).includes()[k]),
            final(self).bindings() == old(self).bindings(),
            final(self).views_of() == old(self).views_of(),
            final(self).analyzed() == old(self).analyzed(),
            old(self).pending().subset_of(final(self).pending()),
            forall|u: Seq<char>| #[trigger] final(self).pending().contains(u) && !old(self).pending().contains(u)
                ==> final(self).analyzed().contains(u) && (ends_with_segment(path_of(u), binding.resolved_filename@)
                    || ends_with_segment(path_of(u), normalized_template_path(binding.template_path@))),
    {
        let path = normalize_template_path(&binding.template_path);
        let filename = binding.resolved_filename.clone();
        let controllers = binding.inherited_controllers.clone();
        let variables = binding.inherited_local_variables.clone();
        let forms = binding.inherited_form_bindings.clone();
        let mut key = binding.parent_uri.clone();
        push_char(&mut key, '#');
        key.append(&path);
        proof { assert(key@ =~= include_key(binding.parent_uri@, normalized_template_path(binding.template_path@))); }
        let ghost b0 = binding;
        self.add_ng_include_binding_with_key(key, binding);
        let ghost mid = self.includes();
        self.queue_child_for_reanalysis(&filename, &path);
        let depth = ng_include_map_entries(&self.ng_include_bindings).len();
        self.propagate_inheritance_to_children(&path, &controllers, &variables, &forms, depth);
        proof {
            let key0 = include_key(b0.parent_uri@, normalized_template_path(b0.template_path@));
            assert(mid.contains_key(key0) && mid[key0] == b0);
            assert(same_shape(self.includes()[key0], mid[key0]));
            assert forall|k: Seq<char>| #[trigger] old(self).includes().contains_key(k) && k != key0
                implies same_shape(self.includes()[k], old(self).includes()[k]) by {
                assert(mid.contains_key(k));
            }
        }
    }

    /// Queues the analysed templates whose path ends with `/` and the included file name
    /// or path.
    fn queue_child_for_reanalysis(&mut self, resolved_filename: &str, normalized_path: &str)
        ensures
            final(self).includes() == old(self).includes(),
            final(self).by_filename() == old(self).by_filename(),
            final(self).path_index() == old(self).path_index(),
            final(self).bindings() == old(self).bindings(),
            final(self).views_of() == old(self).views_of(),
            final(self).route_templates() == old(self).route_templates(),
            final(self).analyzed() == old(self).analyzed(),
            final(self).pending() == old(self).pending().union(old(self).analyzed().filter(|u: Seq<char>|
                ends_with_segment(path_of(u), resolved_filename@) || ends_with_segment(path_of(u), normalized_path@))),
    {
        let items = text_set_items(&self.analyzed_html_files);
        let ghost p0 = self.pending();
        let ghost sel = |u: Seq<char>| ends_with_segment(path_of(u), resolved_filename@) || ends_with_segment(path_of(u), normalized_path@);
        let ghost mut done: Set<Seq<char>> = Set::empty();
        proof { assert(self.pending() =~= p0.union(done.filter(sel))); }
        let mut i: usize = 0;
        while i < items.len()
            invariant
                i <= items@.len(),
                forall|k: Seq<char>| self.analyzed().contains(k) <==> exists|x: int| 0 <= x < items@.len() && #[trigger] items@[x]@ == k,
                forall|x: int| 0 <= x < i ==> done.contains(#[trigger] items@[x]@),
                done.subset_of(self.analyzed()),
                self.pending() == p0.union(done.filter(sel)),
                sel == (|u: Seq<char>| ends_with_segment(path_of(u), resolved_filename@) || ends_with_segment(path_of(u), normalized_path@)),
                p0 == old(self).pending(),
                self.includes() == old(self).includes(),
                self.by_filename() == old(self).by_filename(),
                self.path_index() == old(self).path_index(),
                self.bindings() == old(self).bindings(),
                self.views_of() == old(self).views_of(),
                self.route_templates() == old(self).route_templates(),
                self.analyzed() == old(self).analyzed(),
            decreases items.len() - i,
        {
            let path = uri_path(&items[i]);
            let ghost u0 = items@[i as int]@;
            proof { assert(self.analyzed().contains(u0)); }
            if str_ends_with_segment(&path, resolved_filename) || str_ends_with_segment(&path, normalized_path) {
                text_set_insert(&mut self.pending_reanalysis, items[i].clone());
            }
            proof {
                let d2 = done.insert(u0);
                assert(self.pending() =~= p0.union(d2.filter(sel)));
                done = d2;
            }
            i += 1;
        }
        proof {
            assert forall|k: Seq<char>| self.analyzed().contains(k) implies done.contains(k) by {
                let x = choose|x: int| 0 <= x < items@.len() && #[trigger] items@[x]@ == k;
                assert(done.contains(items@[x]@));
            }
            assert(done =~= self.analyzed());
            assert(self.pending() =~= old(self).pending().union(old(self).analyzed().filter(sel)));
        }
    }

    /// Brings the includes made by templates at `child_path` up to date with what their
    /// template inherits (`parent_*` first, then what they already had, each name once),
    /// and goes on below each include that changed, at most `depth` levels deep.
    fn propagate_inheritance_to_children(
        &mut self,
        child_path: &str,
        parent_controllers: &Vec<String>,
        parent_local_variables: &Vec<InheritedLocalVariable>,
        parent_form_bindings: &Vec<InheritedFormBinding>,
        depth: usize,
    )
        ensures
            reshaped(old(self).includes(), final(self).includes()),
            propagated(old(self).includes(), child_path@, views(parent_controllers@), parent_local_variables@,
                parent_form_bindings@, depth as nat, final(self).includes()),
            final(self).by_filename() == old(self).by_filename(),
            final(self).path_index() == old(self).path_index(),
            final(self).bindings() == old(self).bindings(),
            final(self).views_of() == old(self).views_of(),
            final(self).route_templates() == old(self).route_templates(),
            final(self).pending() == old(self).pending(),
            final(self).analyzed() == old(self).analyzed(),
        decreases depth,
    {
        if depth == 0 {
            return;
        }
        let ghost pc = views(parent_controllers@);
        let ghost pv = parent_local_variables@;
        let ghost pf = parent_form_bindings@;
        let entries = ng_include_map_entries(&self.ng_include_bindings);
        let ghost e = entries@;
        let mut updates: Vec<(String, Vec<String>, Vec<InheritedLocalVariable>, Vec<InheritedFormBinding>)> = Vec::new();
        let mut i: usize = 0;
        proof { assert(updates_view(updates@) =~= updates_of(e.take(0), child_path@, pc, pv, pf)); }
        while i < entries.len()
            invariant
                i <= entries@.len(),
                e == entries@,
                pc == views(parent_controllers@),
                pv == parent_local_variables@,
                pf == parent_form_bindings@,
                updates_view(updates@) == updates_of(e.take(i as int), child_path@, pc, pv, pf),
            decreases entries.len() - i,
        {
            proof { assert(e.take(i + 1).drop_last() =~= e.take(i as int)); }
            let b = &entries[i].1;
            let ghost before = updates_view(updates@);
            let parent_path = uri_path(&b.parent_uri);
            if str_ends_with_segment(&parent_path, child_path) || str_ends_with(&parent_path, child_path) {
                let mut controllers = parent_controllers.clone();
                proof { assert(views(controllers@) =~= pc); }
                merge_names_into(&mut controllers, &b.inherited_controllers);
                let mut variables = parent_local_variables.clone();
                proof { assert(variables@ =~= pv); }
                merge_variables_into(&mut variables, &b.inherited_local_variables);
                let mut forms = parent_form_bindings.clone();
                proof { assert(forms@ =~= pf); }
                merge_forms_into(&mut forms, &b.inherited_form_bindings);
                let changed = !same_strings(&controllers, &b.inherited_controllers)
                    || variables.len() != b.inherited_local_variables.len()
                    || !every_variable_named_in(&variables, &b.inherited_local_variables)
                    || forms.len() != b.inherited_form_bindings.len()
                    || !every_form_named_in(&forms, &b.inherited_form_bindings);
                proof { assert(changed == update_changed(e[i as int].1, views(controllers@), variables@, forms@)); }
                if changed {
                    updates.push((entries[i].0.clone(), controllers, variables, forms));
                    proof { assert(updates_view(updates@) =~= before.push(update_view(updates@.last()))); }
                }
            }
            i += 1;
        }
        proof { assert(e.take(i as int) =~= e); }
        let ghost us = updates_view(updates@);
        let ghost d = (depth - 1) as nat;
        let ghost m0 = self.includes();
        proof { assert(us.skip(0) =~= us); }
        let mut k: usize = 0;
        while k < updates.len()
            invariant
                k <= updates@.len(),
                depth > 0,
                d == depth - 1,
                us == updates_view(updates@),
                m0 == old(self).includes(),
                forall|m2: Map<Seq<char>, NgIncludeBinding>| #[trigger] updates_applied(self.includes(), us.skip(k as int), d, m2)
                    ==> updates_applied(m0, us, d, m2),
                reshaped(old(self).includes(), self.includes()),
                self.by_filename() == old(self).by_filename(),
                self.path_index() == old(self).path_index(),
                self.bindings() == old(self).bindings(),
                self.views_of() == old(self).views_of(),
                self.route_templates() == old(self).route_templates(),
                self.pending() == old(self).pending(),
                self.analyzed() == old(self).analyzed(),
            decreases updates.len() - k,
        {
            let key = &updates[k].0;
            let ghost cur = self.includes();
            let ghost u = us[k as int];
            proof { assert(u == update_view(updates@[k as int])); }
            match ng_include_map_get(&self.ng_include_bindings, key) {
                Some(b) => {
                    let updated = NgIncludeBinding {
                        parent_uri: b.parent_uri,
                        template_path: b.template_path,
                        resolved_filename: b.resolved_filename,
                        line: b.line,
                        inherited_controllers: updates[k].1.clone(),
                        inherited_local_variables: updates[k].2.clone(),
                        inherited_form_bindings: updates[k].3.clone(),
                    };
                    proof {
                        assert(views(updated.inherited_controllers@) =~= u.1);
                        assert(updated.inherited_local_variables@ =~= u.2);
                        assert(updated.inherited_form_bindings@ =~= u.3);
                    }
                    ng_include_map_insert(&mut self.ng_include_bindings, key.clone(), updated);
                    proof { assert(self.includes().dom() =~= old(self).includes().dom()); }
                },
                None => {},
            }
            let ghost m1 = self.includes();
            proof { assert(inherited_set(cur, u, m1)); }
            let child = str_after_last(key, '#');
            self.propagate_inheritance_to_children(&child, &updates[k].1, &updates[k].2, &updates[k].3, depth - 1);
            proof {
                let mid = self.includes();
                assert(propagated(m1, after_last(u.0, '#'), u.1, u.2, u.3, d, mid));
                assert(us.skip(k as int).drop_first() =~= us.skip(k + 1));
                assert(us.skip(k as int)[0] == u);
                assert forall|m2: Map<Seq<char>, NgIncludeBinding>| #[trigger] updates_applied(mid, us.skip(k + 1), d, m2)
                    implies updates_applied(m0, us, d, m2) by {
                    let w = us.skip(k as int);
                    assert(w.len() > 0);
                    assert(inherited_set(cur, w[0], m1));
                    assert(propagated(m1, after_last(w[0].0, '#'), w[0].1, w[0].2, w[0].3, d, mid));
                    assert(updates_applied(mid, w.drop_first(), d, m2));
                    assert(reshaped(m1, mid));
                    lemma_updates_step(cur, w, d, m1, mid, m2);
                }
            }
            k += 1;
        }
        proof {
            assert(us.skip(k as int).len() == 0);
            assert(updates_applied(self.includes(), us.skip(k as int), d, self.includes()));
            assert(updates_applied(m0, us, d, self.includes()));
            assert(snapshot_of(e, m0));
            assert(us == updates_of(e, child_path@, pc, pv, pf));
        }
    }

    /// The includes made by `uri`: line, written path and the included document when it
    /// can be resolved; by line, ties in the map's own order.
    pub fn get_ng_includes_in_file(&self, uri: &str) -> (r: Vec<(u32, String, Option<String>)>)
        ensures
            self.includes_in_are(uri@, r@.map_values(|t: (u32, String, Option<String>)| (t.0, t.1@, match t.2 { Some(u) => Some(u@), None => None }))),
    {
        let ei = ng_include_map_entries(&self.ng_include_bindings);
        let mut r: Vec<(u32, String, Option<String>)> = Vec::new();
        let mut i: usize = 0;
        while i < ei.len()
            invariant
                i <= ei@.len(),
                r@.len() == includes_made_by(ei@.take(i as int), uri@).len(),
                forall|a: int, b: int| 0 <= a < b < r@.len() ==> r@[a].0 <= r@[b].0,
                forall|a: int| 0 <= a < r@.len() ==> includes_made_by(ei@.take(i as int), uri@).contains((#[trigger] r@[a]).0),
            decreases ei.len() - i,
        {
            proof { assert(ei@.take(i + 1).drop_last() =~= ei@.take(i as int)); }
            if str_eq(&ei[i].1.parent_uri, uri) {
                let resolved = self.resolve_template_uri(&ei[i].1.template_path);
                let line = ei[i].1.line;
                let item = (line, ei[i].1.template_path.clone(), resolved);
                let mut pos: usize = r.len();
                while pos > 0 && r[pos - 1].0 > line
                    invariant
                        pos <= r@.len(),
                        forall|a: int| pos <= a < r@.len() ==> r@[a].0 > line,
                    decreases pos,
                {
                    pos -= 1;
                }
                let ghost before = r@;
                let ghost lines = includes_made_by(ei@.take(i as int), uri@);
                r.insert(pos, item);
                proof {
                    let lines2 = includes_made_by(ei@.take(i + 1), uri@);
                    assert(lines2 == lines.push(line));
                    assert forall|a: int, b: int| 0 <= a < b < r@.len() implies r@[a].0 <= r@[b].0 by {
                        if b < pos {
                            assert(r@[a] == before[a] && r@[b] == before[b]);
                        } else if b == pos {
                            if a < pos { assert(r@[a] == before[a]); }
                        } else if a < pos {
                            assert(r@[a] == before[a] && r@[b] == before[b - 1]);
                        } else if a == pos {
                            assert(r@[b] == before[b - 1]);
                        } else {
                            assert(r@[a] == before[a - 1] && r@[b] == before[b - 1]);
                        }
                    }
                    assert forall|a: int| 0 <= a < r@.len() implies lines2.contains((#[trigger] r@[a]).0) by {
                        if a < pos {
                            assert(r@[a] == before[a]);
                            assert(lines.contains(before[a].0));
                            let x = choose|x: int| 0 <= x < lines.len() && lines[x] == before[a].0;
                            assert(lines2[x] == before[a].0);
                        } else if a == pos {
                            assert(lines2[lines.len() as int] == line);
                        } else {
                            assert(r@[a] == before[a - 1]);
                            assert(lines.contains(before[a - 1].0));
                            let x = choose|x: int| 0 <= x < lines.len() && lines[x] == before[a - 1].0;
                            assert(lines2[x] == before[a - 1].0);
                        }
                    }
                }
            }
            i += 1;
        }
        proof {
            assert(ei@.take(i as int) =~= ei@);
            assert(snapshot_of(ei@, self.includes()));
        }
        r
    }

    /// `r` is the templates that include the template `uri`, each with the line of its
    /// include, in the map's own order.
    pub open spec fn parents_are(&self, uri: Seq<char>, r: Seq<(Seq<char>, u32)>) -> bool {
        exists|ei: Seq<(String, NgIncludeBinding)>| snapshot_of(ei, self.includes()) && r == includers(ei, path_of(uri))
    }

    /// `r` is the bindings of the template `uri` as controller, source, script and line:
    /// those whose path ends the document's path, or, when there is none, those with the
    /// same file name; in the map's own order.
    pub open spec fn binding_sources_are(&self, uri: Seq<char>, r: Seq<(Seq<char>, BindingSource, Seq<char>, u32)>) -> bool {
        exists|e: Seq<(String, TemplateBinding)>| snapshot_of(e, self.bindings()) && {
            let by_path = sources_where(e, bound_by_path(path_of(uri)));
            let by_file = sources_where(e, bound_by_file(path_of(uri)));
            r == if by_path.len() > 0 { by_path } else { by_file }
        }
    }

    /// `r` is the includes the template `uri` makes, as line, template path and resolved
    /// document, ordered by line; as many as the includes made from it, at their lines.
    pub open spec fn includes_in_are(&self, uri: Seq<char>, r: Seq<(u32, Seq<char>, Option<Seq<char>>)>) -> bool {
        &&& forall|i: int, j: int| 0 <= i < j < r.len() ==> r[i].0 <= r[j].0
        &&& exists|ei: Seq<(String, NgIncludeBinding)>| snapshot_of(ei, self.includes())
            && r.len() == includes_made_by(ei, uri).len()
            && forall|i: int| 0 <= i < r.len() ==> includes_made_by(ei, uri).contains((#[trigger] r[i]).0)
    }

    /// `r` is the bindings declared by the script `uri`, in the map's own order.
    pub open spec fn script_bindings_are(&self, uri: Seq<char>, r: Seq<TemplateBinding>) -> bool {
        exists|e: Seq<(String, TemplateBinding)>| snapshot_of(e, self.bindings()) && r == bindings_of_script(e, uri)
    }

    /// `r` is what the includes resolve the template path `p` to: for the first include (in
    /// the map's own order) whose key ends with the normalised path and whose including
    /// template gives a document, that document; none when no include does.
    pub open spec fn include_resolution_is(&self, p: Seq<char>, r: Option<Seq<char>>) -> bool {
        exists|ei: Seq<(String, NgIncludeBinding)>| snapshot_of(ei, self.includes()) && {
            let n = normalized_template_path(p);
            match r {
                Some(u) => exists|i: int| 0 <= i < ei.len() && key_template_path(ei[i].0@) == n
                    && resolution(ei[i].1.parent_uri@, n) == Some(u)
                    && forall|j: int| 0 <= j < i && key_template_path((#[trigger] ei[j]).0@) == n ==> resolution(ei[j].1.parent_uri@, n) is None,
                None => forall|j: int| 0 <= j < ei.len() && key_template_path((#[trigger] ei[j]).0@) == n ==> resolution(ei[j].1.parent_uri@, n) is None,
            }
        }
    }

    /// `r` is every analysed template, each once.
    pub open spec fn analyzed_documents_are(&self, r: Seq<Seq<char>>) -> bool {
        &&& forall|i: int, j: int| 0 <= i < j < r.len() ==> r[i] != r[j]
        &&& forall|k: Seq<char>| self.analyzed().contains(k) <==> r.contains(k)
    }

    /// The document a template path resolves to: for the first include (in the map's own
    /// order) whose key ends with the normalised path, the path joined to the directory of
    /// the including template, when a URL can be made of it.
    pub fn resolve_template_uri(&self, template_path: &str) -> (r: Option<String>)
        ensures
            self.include_resolution_is(template_path@, match r { Some(u) => Some(u@), None => None }),
    {
        let normalized = normalize_template_path(template_path);
        let ei = ng_include_map_entries(&self.ng_include_bindings);
        let mut i: usize = 0;
        while i < ei.len()
            invariant
                i <= ei@.len(),
                snapshot_of(ei@, self.includes()),
                normalized@ == normalized_template_path(template_path@),
                forall|j: int| 0 <= j < i && key_template_path((#[trigger] ei@[j]).0@) == normalized@ ==> resolution(ei@[j].1.parent_uri@, normalized@) is None,
            decreases ei.len() - i,
        {
            let tp = str_after_last(&ei[i].0, '#');
            if str_eq(&tp, &normalized) {
                let parent_path = uri_path(&ei[i].1.parent_uri);
                let cs = crate::text::chars_of(&parent_path);
                match crate::text::rfind_char(&cs, '/') {
                    Some(slash) => {
                        proof { crate::text::lemma_last_index(cs@, '/', slash as int); }
                        let mut resolved = crate::text::string_from_chars(&cs, 0, slash);
                        push_char(&mut resolved, '/');
                        resolved.append(&normalized);
                        proof { assert(resolved@ =~= path_of(ei@[i as int].1.parent_uri@).take(slash as int) + seq!['/'] + normalized@); }
                        match crate::uri::uri_with_path(&ei[i].1.parent_uri, &resolved) {
                            Some(u) => {
                                return Some(u);
                            },
                            None => {},
                        }
                    },
                    None => {},
                }
            }
            i += 1;
        }
        None
    }

    /// Hands what every `ng-view` hands down (controllers, then local variables and forms
    /// by name, merged in the map's own order) to each routed template, as an include
    /// keyed `ng-view##<template>` from a virtual parent; nothing when no `ng-view` hands
    /// down a controller.
    pub fn apply_all_ng_view_inheritances(&mut self)
        ensures
            final(self).bindings() == old(self).bindings(),
            final(self).views_of() == old(self).views_of(),
            final(self).route_templates() == old(self).route_templates(),
            final(self).pending() == old(self).pending(),
            final(self).analyzed() == old(self).analyzed(),
            exists|e: Seq<(String, NgViewBinding)>| #[trigger] snapshot_of(e, old(self).views_of())
                && if view_controllers(e).len() == 0 {
                    &&& final(self).includes() == old(self).includes()
                    &&& final(self).by_filename() == old(self).by_filename()
                    &&& final(self).path_index() == old(self).path_index()
                } else {
                    &&& final(self).includes().dom() == old(self).includes().dom().union(
                        route_keys(old(self).route_templates()))
                    &&& forall|t: Seq<char>| #[trigger] old(self).route_templates().contains(t) ==>
                        view_include_is(final(self).includes()[view_route_key(t)], t, e)
                    &&& forall|k: Seq<char>| #[trigger] final(self).includes().contains_key(k)
                        && !(exists|t: Seq<char>| old(self).route_templates().contains(t) && k == view_route_key(t))
                        ==> final(self).includes()[k] == old(self).includes()[k]
                    &&& final(self).path_index().dom() == old(self).path_index().dom().union(
                        route_paths(old(self).route_templates()))
                    &&& final(self).by_filename().dom() == old(self).by_filename().dom().union(
                        route_files(old(self).route_templates()))
                },
    {
        let templates = text_set_items(&self.route_provider_templates);
        let ev = ng_view_map_entries(&self.ng_view_bindings);
        let mut controllers: Vec<String> = Vec::new();
        let mut variables: Vec<InheritedLocalVariable> = Vec::new();
        let mut forms: Vec<InheritedFormBinding> = Vec::new();
        let mut i: usize = 0;
        while i < ev.len()
            invariant
                i <= ev@.len(),
                views(controllers@) == view_controllers(ev@.take(i as int)),
                variables@ == view_variables(ev@.take(i as int)),
                forms@ == view_forms(ev@.take(i as int)),
            decreases ev.len() - i,
        {
            proof { assert(ev@.take(i + 1).drop_last() =~= ev@.take(i as int)); }
            merge_names_into(&mut controllers, &ev[i].1.inherited_controllers);
            merge_variables_into(&mut variables, &ev[i].1.inherited_local_variables);
            merge_forms_into(&mut forms, &ev[i].1.inherited_form_bindings);
            i += 1;
        }
        proof { assert(ev@.take(ev@.len() as int) =~= ev@); }
        if controllers.len() == 0 {
            proof {
                assert(views(controllers@).len() == 0);
                assert(snapshot_of(ev@, old(self).views_of()));
            }
            return;
        }
        let ghost r0 = self.route_templates();
        let ghost e = ev@;
        let ghost i0 = old(self).includes();
        let ghost p0 = old(self).path_index().dom();
        let ghost f0 = old(self).by_filename().dom();
        proof { reveal_strlit("file:///ng-view-virtual-parent"); }
        let mut k: usize = 0;
        while k < templates.len()
            invariant
                k <= templates@.len(),
                forall|x: int| 0 <= x < templates@.len() ==> r0.contains(#[trigger] templates@[x]@),
                forall|a: int, b: int| 0 <= a < b < templates@.len() ==> templates@[a]@ != templates@[b]@,
                r0 == old(self).route_templates(),
                i0 == old(self).includes(),
                views(controllers@) == view_controllers(e),
                variables@ == view_variables(e),
                forms@ == view_forms(e),
                self.bindings() == old(self).bindings(),
                self.views_of() == old(self).views_of(),
                self.route_templates() == old(self).route_templates(),
                self.pending() == old(self).pending(),
                self.analyzed() == old(self).analyzed(),
                self.includes().dom() == i0.dom().union(Set::new(|key: Seq<char>| exists|x: int| 0 <= x < k && key == view_route_key(#[trigger] templates@[x]@))),
                forall|x: int| 0 <= x < k ==> view_include_is(self.includes()[view_route_key(#[trigger] templates@[x]@)], templates@[x]@, e),
                forall|key: Seq<char>| #[trigger] self.includes().contains_key(key)
                    && !(exists|x: int| 0 <= x < k && key == view_route_key(#[trigger] templates@[x]@))
                    ==> self.includes()[key] == i0[key],
                self.path_index().dom() == p0.union(Set::new(|q: Seq<char>| exists|x: int| 0 <= x < k && q == normalized_template_path(#[trigger] templates@[x]@))),
                self.by_filename().dom() == f0.union(Set::new(|q: Seq<char>| exists|x: int| 0 <= x < k && q == after_last(#[trigger] templates@[x]@, '/'))),
            decreases templates.len() - k,
        {
            let t = &templates[k];
            let binding = NgIncludeBinding {
                parent_uri: "file:///ng-view-virtual-parent".to_owned(),
                template_path: t.clone(),
                resolved_filename: str_after_last(t, '/'),
                line: 0,
                inherited_controllers: controllers.clone(),
                inherited_local_variables: variables.clone(),
                inherited_form_bindings: forms.clone(),
            };
            let key = concat("ng-view##", t);
            proof {
                reveal_strlit("ng-view##");
                assert(r0.contains(templates@[k as int]@));
                assert(binding.inherited_controllers@ =~= controllers@);
                assert(binding.inherited_local_variables@ =~= variables@);
                assert(binding.inherited_form_bindings@ =~= forms@);
                assert(key@ == view_route_key(t@));
                assert(view_include_is(binding, t@, e));
            }
            let ghost before = self.includes();
            self.add_ng_include_binding_with_key(key, binding);
            proof {
                let kk = (k + 1) as int;
                assert(templates@[k as int]@ == t@);
                assert(self.includes().dom() =~= i0.dom().union(Set::new(|key: Seq<char>| exists|x: int| 0 <= x < kk && key == view_route_key(#[trigger] templates@[x]@)))) by {
                    assert(exists|x: int| 0 <= x < kk && view_route_key(t@) == view_route_key(#[trigger] templates@[x]@));
                }
                assert forall|x: int| 0 <= x < kk implies view_include_is(self.includes()[view_route_key(#[trigger] templates@[x]@)], templates@[x]@, e) by {
                    if x < k {
                        if view_route_key(templates@[x]@) == view_route_key(t@) {
                            lemma_view_route_key_injective(templates@[x]@, t@);
                        }
                    }
                }
                assert forall|key: Seq<char>| #[trigger] self.includes().contains_key(key)
                    && !(exists|x: int| 0 <= x < kk && key == view_route_key(#[trigger] templates@[x]@))
                    implies self.includes()[key] == i0[key] by {
                    assert(key != view_route_key(templates@[k as int]@));
                    assert(!(exists|x: int| 0 <= x < k && key == view_route_key(#[trigger] templates@[x]@)));
                }
                assert(self.path_index().dom() =~= p0.union(Set::new(|q: Seq<char>| exists|x: int| 0 <= x < kk && q == normalized_template_path(#[trigger] templates@[x]@)))) by {
                    assert(exists|x: int| 0 <= x < kk && normalized_template_path(t@) == normalized_template_path(#[trigger] templates@[x]@));
                }
                assert(self.by_filename().dom() =~= f0.union(Set::new(|q: Seq<char>| exists|x: int| 0 <= x < kk && q == after_last(#[trigger] templates@[x]@, '/')))) by {
                    assert(exists|x: int| 0 <= x < kk && after_last(t@, '/') == after_last(#[trigger] templates@[x]@, '/'));
                }
            }
            k += 1;
        }
        proof {
            let n = templates@.len() as int;
            assert(self.includes().dom() =~= i0.dom().union(route_keys(r0))) by {
                assert forall|key: Seq<char>| #[trigger] route_keys(r0).contains(key)
                    implies exists|x: int| 0 <= x < n && key == view_route_key(#[trigger] templates@[x]@) by {
                    let t = choose|t: Seq<char>| r0.contains(t) && view_route_key(t) == key;
                    let x = choose|x: int| 0 <= x < n && #[trigger] templates@[x]@ == t;
                    assert(key == view_route_key(templates@[x]@));
                }
                assert forall|key: Seq<char>| (exists|x: int| 0 <= x < n && key == view_route_key(#[trigger] templates@[x]@))
                    implies #[trigger] route_keys(r0).contains(key) by {
                    let x = choose|x: int| 0 <= x < n && key == view_route_key(#[trigger] templates@[x]@);
                    assert(r0.contains(templates@[x]@));
                }
            }
            assert forall|t: Seq<char>| #[trigger] r0.contains(t) implies view_include_is(self.includes()[view_route_key(t)], t, e) by {
                let x = choose|x: int| 0 <= x < n && #[trigger] templates@[x]@ == t;
                assert(view_include_is(self.includes()[view_route_key(templates@[x]@)], templates@[x]@, e));
            }
            assert forall|key: Seq<char>| #[trigger] self.includes().contains_key(key)
                && !(exists|t: Seq<char>| r0.contains(t) && key == view_route_key(t))
                implies self.includes()[key] == i0[key] by {
                if exists|x: int| 0 <= x < n && key == view_route_key(#[trigger] templates@[x]@) {
                    let x = choose|x: int| 0 <= x < n && key == view_route_key(#[trigger] templates@[x]@);
                    assert(r0.contains(templates@[x]@));
                }
            }
            assert(self.path_index().dom() =~= p0.union(route_paths(r0))) by {
                assert forall|q: Seq<char>| #[trigger] route_paths(r0).contains(q)
                    implies exists|x: int| 0 <= x < n && q == normalized_template_path(#[trigger] templates@[x]@) by {
                    let t = choose|t: Seq<char>| r0.contains(t) && normalized_template_path(t) == q;
                    let x = choose|x: int| 0 <= x < n && #[trigger] templates@[x]@ == t;
                    assert(q == normalized_template_path(templates@[x]@));
                }
                assert forall|q: Seq<char>| (exists|x: int| 0 <= x < n && q == normalized_template_path(#[trigger] templates@[x]@))
                    implies #[trigger] route_paths(r0).contains(q) by {
                    let x = choose|x: int| 0 <= x < n && q == normalized_template_path(#[trigger] templates@[x]@);
                    assert(r0.contains(templates@[x]@));
                }
            }
            assert(self.by_filename().dom() =~= f0.union(route_files(r0))) by {
                assert forall|q: Seq<char>| #[trigger] route_files(r0).contains(q)
                    implies exists|x: int| 0 <= x < n && q == after_last(#[trigger] templates@[x]@, '/') by {
                    let t = choose|t: Seq<char>| r0.contains(t) && after_last(t, '/') == q;
                    let x = choose|x: int| 0 <= x < n && #[trigger] templates@[x]@ == t;
                    assert(q == after_last(templates@[x]@, '/'));
                }
                assert forall|q: Seq<char>| (exists|x: int| 0 <= x < n && q == after_last(#[trigger] templates@[x]@, '/'))
                    implies #[trigger] route_files(r0).contains(q) by {
                    let x = choose|x: int| 0 <= x < n && q == after_last(#[trigger] templates@[x]@, '/');
                    assert(r0.contains(templates@[x]@));
                }
            }
            assert(snapshot_of(e, old(self).views_of()));
        }
    }
}

/// The key of the include an `ng-view` makes for the routed template `t`.
pub open spec fn view_route_key(t: Seq<char>) -> Seq<char> {
    "ng-view##"@ + t
}

/// The include an `ng-view` hands the routed template `t`: from the virtual parent, at
/// line 0, with what the `ng-view`s of `e` hand down.
pub open spec fn view_include_is(b: NgIncludeBinding, t: Seq<char>, e: Seq<(String, NgViewBinding)>) -> bool {
    &&& b.parent_uri@ == "file:///ng-view-virtual-parent"@
    &&& b.template_path@ == t
    &&& b.resolved_filename@ == after_last(t, '/')
    &&& b.line == 0
    &&& views(b.inherited_controllers@) == view_controllers(e)
    &&& b.inherited_local_variables@ == view_variables(e)
    &&& b.inherited_form_bindings@ == view_forms(e)
}

/// The include keys of the routed templates `r`.
pub open spec fn route_keys(r: Set<Seq<char>>) -> Set<Seq<char>> {
    r.map(|t: Seq<char>| view_route_key(t))
}

/// The normalised paths of the routed templates `r`.
pub open spec fn route_paths(r: Set<Seq<char>>) -> Set<Seq<char>> {
    r.map(|t: Seq<char>| normalized_template_path(t))
}

/// The file names of the routed templates `r`.
pub open spec fn route_files(r: Set<Seq<char>>) -> Set<Seq<char>> {
    r.map(|t: Seq<char>| after_last(t, '/'))
}

/// Different routed templates get different keys.
proof fn lemma_view_route_key_injective(a: Seq<char>, b: Seq<char>)
    requires
        view_route_key(a) == view_route_key(b),
    ensures
        a == b,
{
    reveal_strlit("ng-view##");
    assert(view_route_key(a).skip(9) =~= a);
    assert(view_route_key(b).skip(9) =~= b);
}

/// The local variables the `ng-view`s of a snapshot hand down, merged by name in order.
pub open spec fn view_variables(e: Seq<(String, NgViewBinding)>) -> Seq<InheritedLocalVariable>
    decreases e.len(),
{
    if e.len() == 0 {
        Seq::empty()
    } else {
        merge_variables(view_variables(e.drop_last()), e.last().1.inherited_local_variables@)
    }
}

/// The forms the `ng-view`s of a snapshot hand down, merged by name in order.
pub open spec fn view_forms(e: Seq<(String, NgViewBinding)>) -> Seq<InheritedFormBinding>
    decreases e.len(),
{
    if e.len() == 0 {
        Seq::empty()
    } else {
        merge_forms(view_forms(e.drop_last()), e.last().1.inherited_form_bindings@)
    }
}


/// An update of an include's inheritance: its key, then the controllers, local variables
/// and forms it now inherits.
pub type IncludeUpdate = (Seq<char>, Seq<Seq<char>>, Seq<InheritedLocalVariable>, Seq<InheritedFormBinding>);

pub open spec fn update_view(u: (String, Vec<String>, Vec<InheritedLocalVariable>, Vec<InheritedFormBinding>)) -> IncludeUpdate {
    (u.0@, views(u.1@), u.2@, u.3@)
}

pub open spec fn updates_view(us: Seq<(String, Vec<String>, Vec<InheritedLocalVariable>, Vec<InheritedFormBinding>)>) -> Seq<IncludeUpdate> {
    us.map_values(|u: (String, Vec<String>, Vec<InheritedLocalVariable>, Vec<InheritedFormBinding>)| update_view(u))
}

/// Whether the merged lists differ from what the include `b` inherits: other
/// controllers, or local variables or forms of another number or with a name it lacks.
pub open spec fn update_changed(b: NgIncludeBinding, c: Seq<Seq<char>>, v: Seq<InheritedLocalVariable>, f: Seq<InheritedFormBinding>) -> bool {
    ||| c != views(b.inherited_controllers@)
    ||| v.len() != b.inherited_local_variables@.len()
    ||| !(forall|i: int| 0 <= i < v.len() ==> has_variable_named(b.inherited_local_variables@, (#[trigger] v[i]).name@))
    ||| f.len() != b.inherited_form_bindings@.len()
    ||| !(forall|i: int| 0 <= i < f.len() ==> has_form_named(b.inherited_form_bindings@, (#[trigger] f[i]).name@))
}

/// The updates for the includes of a snapshot made by templates at `child`: for each (in
/// order) whose parent's path ends with `child`, the parent lists merged with its own,
/// when that changes what it inherits.
pub open spec fn updates_of(e: Seq<(String, NgIncludeBinding)>, child: Seq<char>, pc: Seq<Seq<char>>, pv: Seq<InheritedLocalVariable>, pf: Seq<InheritedFormBinding>) -> Seq<IncludeUpdate>
    decreases e.len(),
{
    if e.len() == 0 {
        Seq::empty()
    } else {
        let prev = updates_of(e.drop_last(), child, pc, pv, pf);
        let b = e.last().1;
        let pp = path_of(b.parent_uri@);
        if ends_with_segment(pp, child) || ends_with(pp, child) {
            let c = merge_names(pc, b.inherited_controllers@);
            let v = merge_variables(pv, b.inherited_local_variables@);
            let f = merge_forms(pf, b.inherited_form_bindings@);
            if update_changed(b, c, v, f) { prev.push((e.last().0@, c, v, f)) } else { prev }
        } else {
            prev
        }
    }
}

/// `m2` is `m` with the include `u.0`, when there is one, inheriting what `u` lists.
pub open spec fn inherited_set(m: Map<Seq<char>, NgIncludeBinding>, u: IncludeUpdate, m2: Map<Seq<char>, NgIncludeBinding>) -> bool {
    if m.contains_key(u.0) {
        &&& m2.dom() == m.dom()
        &&& forall|k: Seq<char>| #[trigger] m2.contains_key(k) && k != u.0 ==> m2[k] == m[k]
        &&& same_shape(m2[u.0], m[u.0])
        &&& views(m2[u.0].inherited_controllers@) == u.1
        &&& m2[u.0].inherited_local_variables@ == u.2
        &&& m2[u.0].inherited_form_bindings@ == u.3
    } else {
        m2 == m
    }
}

/// `m2` is what handing `pc`, `pv` and `pf` down to the includes made at `child` makes of
/// `m`, `depth` levels deep: the updates of some snapshot of `m`, applied in order.
pub open spec fn propagated(m: Map<Seq<char>, NgIncludeBinding>, child: Seq<char>, pc: Seq<Seq<char>>, pv: Seq<InheritedLocalVariable>, pf: Seq<InheritedFormBinding>, depth: nat, m2: Map<Seq<char>, NgIncludeBinding>) -> bool
    decreases depth, 0nat,
{
    if depth == 0 {
        m2 == m
    } else {
        exists|e: Seq<(String, NgIncludeBinding)>| #[trigger] snapshot_of(e, m)
            && updates_applied(m, updates_of(e, child, pc, pv, pf), (depth - 1) as nat, m2)
    }
}

/// `m2` is `m` after each update of `us` in turn: the include set, then handed down
/// below it, `depth` levels deep.
pub open spec fn updates_applied(m: Map<Seq<char>, NgIncludeBinding>, us: Seq<IncludeUpdate>, depth: nat, m2: Map<Seq<char>, NgIncludeBinding>) -> bool
    decreases depth, us.len(),
{
    if us.len() == 0 {
        m2 == m
    } else {
        exists|m1: Map<Seq<char>, NgIncludeBinding>, mid: Map<Seq<char>, NgIncludeBinding>|
            #[trigger] inherited_set(m, us[0], m1) && #[trigger] reshaped(m1, mid)
            && propagated(m1, after_last(us[0].0, '#'), us[0].1, us[0].2, us[0].3, depth, mid)
            && updates_applied(mid, us.drop_first(), depth, m2)
    }
}

/// Setting the first update and handing it down, then applying the rest, applies all.
proof fn lemma_updates_step(
    m: Map<Seq<char>, NgIncludeBinding>,
    us: Seq<IncludeUpdate>,
    d: nat,
    m1: Map<Seq<char>, NgIncludeBinding>,
    mid: Map<Seq<char>, NgIncludeBinding>,
    m2: Map<Seq<char>, NgIncludeBinding>,
)
    requires
        us.len() > 0,
        inherited_set(m, us[0], m1),
        reshaped(m1, mid),
        propagated(m1, after_last(us[0].0, '#'), us[0].1, us[0].2, us[0].3, d, mid),
        updates_applied(mid, us.drop_first(), d, m2),
    ensures
        updates_applied(m, us, d, m2),
{
}

/// The controllers the `ng-view`s of a snapshot hand down, merged in order.
pub open spec fn view_controllers(e: Seq<(String, NgViewBinding)>) -> Seq<Seq<char>>
    decreases e.len(),
{
    if e.len() == 0 { Seq::empty() } else { merge_names(view_controllers(e.drop_last()), e.last().1.inherited_controllers@) }
}

/// The lines of the includes made by `uri` in a snapshot, in order.
pub open spec fn includes_made_by(e: Seq<(String, NgIncludeBinding)>, uri: Seq<char>) -> Seq<u32>
    decreases e.len(),
{
    if e.len() == 0 {
        Seq::empty()
    } else {
        let rest = includes_made_by(e.drop_last(), uri);
        if e.last().1.parent_uri@ == uri { rest.push(e.last().1.line) } else { rest }
    }
}

/// The document the template path `n` resolves to from the template `parent`: `n`
/// joined to the directory of the parent's path, made a URL with the parent's scheme
/// and authority.
pub open spec fn resolution(parent: Seq<char>, n: Seq<char>) -> Option<Seq<char>> {
    match last_index(path_of(parent), '/') {
        Some(s) => url_with_path(parent, path_of(parent).take(s) + seq!['/'] + n),
        None => None,
    }
}

/// Whether `a` and `b` hold equal strings in the same order.
fn same_strings(a: &Vec<String>, b: &Vec<String>) -> (r: bool)
    ensures
        r == (views(a@) == views(b@)),
{
    if a.len() != b.len() {
        proof { assert(views(a@).len() != views(b@).len()); }
        return false;
    }
    let mut i: usize = 0;
    while i < a.len()
        invariant
            i <= a@.len(),
            a@.len() == b@.len(),
            forall|j: int| 0 <= j < i ==> a@[j]@ == b@[j]@,
        decreases a.len() - i,
    {
        if !str_eq(&a[i], &b[i]) {
            proof { assert(views(a@)[i as int] != views(b@)[i as int]); }
            return false;
        }
        i += 1;
    }
    proof { assert(views(a@) =~= views(b@)); }
    true
}

/// Whether every variable of `a` has a namesake in `b`.
fn every_variable_named_in(a: &Vec<InheritedLocalVariable>, b: &Vec<InheritedLocalVariable>) -> (r: bool)
    ensures
        r == forall|i: int| 0 <= i < a@.len() ==> has_variable_named(b@, (#[trigger] a@[i]).name@),
{
    let mut i: usize = 0;
    while i < a.len()
        invariant
            i <= a@.len(),
            forall|x: int| 0 <= x < i ==> has_variable_named(b@, (#[trigger] a@[x]).name@),
        decreases a.len() - i,
    {
        let mut found = false;
        let mut j: usize = 0;
        while j < b.len()
            invariant
                j <= b@.len(),
                i < a@.len(),
                found == exists|y: int| 0 <= y < j && (#[trigger] b@[y]).name@ == a@[i as int].name@,
            decreases b.len() - j,
        {
            if str_eq(&b[j].name, &a[i].name) {
                found = true;
            }
            proof {
                if b@[j as int].name@ == a@[i as int].name@ {
                    assert(exists|y: int| 0 <= y < j + 1 && (#[trigger] b@[y]).name@ == a@[i as int].name@);
                }
            }
            j += 1;
        }
        if !found {
            proof { assert(!has_variable_named(b@, a@[i as int].name@)); }
            return false;
        }
        i += 1;
    }
    true
}

/// Whether every form of `a` has a namesake in `b`.
fn every_form_named_in(a: &Vec<InheritedFormBinding>, b: &Vec<InheritedFormBinding>) -> (r: bool)
    ensures
        r == forall|i: int| 0 <= i < a@.len() ==> has_form_named(b@, (#[trigger] a@[i]).name@),
{
    let mut i: usize = 0;
    while i < a.len()
        invariant
            i <= a@.len(),
            forall|x: int| 0 <= x < i ==> has_form_named(b@, (#[trigger] a@[x]).name@),
        decreases a.len() - i,
    {
        let mut found = false;
        let mut j: usize = 0;
        while j < b.len()
            invariant
                j <= b@.len(),
                i < a@.len(),
                found == exists|y: int| 0 <= y < j && (#[trigger] b@[y]).name@ == a@[i as int].name@,
            decreases b.len() - j,
        {
            if str_eq(&b[j].name, &a[i].name) {
                found = true;
            }
            proof {
                if b@[j as int].name@ == a@[i as int].name@ {
                    assert(exists|y: int| 0 <= y < j + 1 && (#[trigger] b@[y]).name@ == a@[i as int].name@);
                }
            }
            j += 1;
        }
        if !found {
            proof { assert(!has_form_named(b@, a@[i as int].name@)); }
            return false;
        }
        i += 1;
    }
    true
}

/// Appends to `acc` each name of `list` not already there, in order.
fn merge_names_into(acc: &mut Vec<String>, list: &Vec<String>)
    ensures
        views(final(acc)@) == merge_names(views(old(acc)@), list@),
{
    let ghost a0 = views(acc@);
    let mut i: usize = 0;
    while i < list.len()
        invariant
            i <= list@.len(),
            views(acc@) == merge_names(a0, list@.take(i as int)),
        decreases list.len() - i,
    {
        proof { assert(list@.take(i + 1).drop_last() =~= list@.take(i as int)); }
        if !contains_str(acc, &list[i]) {
            let ghost before = acc@;
            acc.push(list[i].clone());
            proof { assert(views(acc@) =~= views(before).push(list@[i as int]@)); }
        }
        i += 1;
    }
    proof { assert(list@.take(i as int) =~= list@); }
}

/// Appends to `acc` each variable of `list` whose name is not already there, in order.
fn merge_variables_into(acc: &mut Vec<InheritedLocalVariable>, list: &Vec<InheritedLocalVariable>)
    ensures
        final(acc)@ == merge_variables(old(acc)@, list@),
{
    let ghost a0 = acc@;
    let mut i: usize = 0;
    while i < list.len()
        invariant
            i <= list@.len(),
            acc@ == merge_variables(a0, list@.take(i as int)),
        decreases list.len() - i,
    {
        proof { assert(list@.take(i + 1).drop_last() =~= list@.take(i as int)); }
        let mut found = false;
        let mut j: usize = 0;
        while j < acc.len()
            invariant
                j <= acc@.len(),
                i < list@.len(),
                found == exists|x: int| 0 <= x < j && (#[trigger] acc@[x]).name@ == list@[i as int].name@,
            decreases acc.len() - j,
        {
            if str_eq(&acc[j].name, &list[i].name) {
                found = true;
            }
            proof {
                if acc@[j as int].name@ == list@[i as int].name@ {
                    assert(exists|x: int| 0 <= x < j + 1 && (#[trigger] acc@[x]).name@ == list@[i as int].name@);
                }
            }
            j += 1;
        }
        if !found {
            acc.push(list[i].clone());
        }
        i += 1;
    }
    proof { assert(list@.take(i as int) =~= list@); }
}

/// Appends to `acc` each form of `list` whose name is not already there, in order.
fn merge_forms_into(acc: &mut Vec<InheritedFormBinding>, list: &Vec<InheritedFormBinding>)
    ensures
        final(acc)@ == merge_forms(old(acc)@, list@),
{
    let ghost a0 = acc@;
    let mut i: usize = 0;
    while i < list.len()
        invariant
            i <= list@.len(),
            acc@ == merge_forms(a0, list@.take(i as int)),
        decreases list.len() - i,
    {
        proof { assert(list@.take(i + 1).drop_last() =~= list@.take(i as int)); }
        let mut found = false;
        let mut j: usize = 0;
        while j < acc.len()
            invariant
                j <= acc@.len(),
                i < list@.len(),
                found == exists|x: int| 0 <= x < j && (#[trigger] acc@[x]).name@ == list@[i as int].name@,
            decreases acc.len() - j,
        {
            if str_eq(&acc[j].name, &list[i].name) {
                found = true;
            }
            proof {
                if acc@[j as int].name@ == list@[i as int].name@ {
                    assert(exists|x: int| 0 <= x < j + 1 && (#[trigger] acc@[x]).name@ == list@[i as int].name@);
                }
            }
            j += 1;
        }
        if !found {
            acc.push(list[i].clone());
        }
        i += 1;
    }
    proof { assert(list@.take(i as int) =~= list@); }
}

/// `v` without the strings equal to `s`, in order.
fn strings_without(v: Vec<String>, s: &String) -> (r: Vec<String>)
    ensures
        views(r@) == views(v@).filter(|x: Seq<char>| x != s@),
{
    let mut r: Vec<String> = Vec::new();
    let mut i: usize = 0;
    while i < v.len()
        invariant
            i <= v@.len(),
            views(r@) == views(v@).take(i as int).filter(|x: Seq<char>| x != s@),
        decreases v.len() - i,
    {
        proof {
            assert(views(v@).take(i + 1).drop_last() =~= views(v@).take(i as int));
            reveal_with_fuel(Seq::filter, 1);
        }
        if !str_eq(&v[i], s) {
            let ghost before = r@;
            r.push(v[i].clone());
            proof { assert(views(r@) =~= views(before).push(v@[i as int]@)); }
        }
        i += 1;
    }
    proof { assert(views(v@).take(i as int) =~= views(v@)); }
    r
}

/// Picking from `s` does not look at flags past its length.
proof fn lemma_picked_extend<T>(s: Seq<T>, keep: Seq<bool>, b: bool)
    requires
        keep.len() == s.len(),
    ensures
        picked(s, keep.push(b)) == picked(s, keep),
    decreases s.len(),
{
    if s.len() > 0 {
        assert(keep.push(b).drop_last() =~= keep);
        lemma_picked_extend(s.drop_last(), keep.drop_last(), keep.last());
        assert(keep.drop_last().push(keep.last()) =~= keep);
        lemma_picked_prefix(s.drop_last(), keep.push(b), keep);
    }
}

/// Picking from `s` looks only at the first `s.len()` flags.
proof fn lemma_picked_prefix<T>(s: Seq<T>, k1: Seq<bool>, k2: Seq<bool>)
    requires
        k1.len() >= s.len(),
        k2.len() >= s.len(),
        forall|i: int| 0 <= i < s.len() ==> k1[i] == k2[i],
    ensures
        picked(s, k1) == picked(s, k2),
    decreases s.len(),
{
    if s.len() > 0 {
        lemma_picked_prefix(s.drop_last(), k1, k2);
    }
}

} // verus!
