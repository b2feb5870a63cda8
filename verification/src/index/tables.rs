//! The concurrent maps the index keeps its records in. Each map is a
//! `dashmap::DashMap` keyed by text; what it holds is named per value type, and each
//! operation the index uses is a thin call of the corresponding `DashMap` method.
use dashmap::{DashMap, DashSet};
use vstd::prelude::*;

use crate::index::di_usage_store::DiUsage;
use crate::model::{
    ComponentTemplateUrl, ControllerScope, DiArityIssue, ExportInfo, ExportedComponentObject,
    HtmlComponentUsage, HtmlControllerScope, HtmlDirectiveReference, HtmlFormBinding,
    HtmlLocalVariable, HtmlLocalVariableReference, HtmlNgModelTarget, HtmlScopeReference,
    HtmlUiSrefReference, NgIncludeBinding, NgViewBinding, Symbol, SymbolReference,
    TemplateBinding,
};

verus! {

#[verifier::external_type_specification]
#[verifier::external_body]
#[verifier::reject_recursive_types(K)]
#[verifier::reject_recursive_types(V)]
#[verifier::reject_recursive_types(S)]
pub struct ExDashMap<K, V, S>(DashMap<K, V, S>);

#[verifier::external_type_specification]
#[verifier::external_body]
#[verifier::reject_recursive_types(K)]
#[verifier::reject_recursive_types(S)]
pub struct ExDashSet<K, S>(DashSet<K, S>);

/// A snapshot of a map's entries: distinct keys, each with the value the map holds for it,
/// and every key of the map present.
pub open spec fn snapshot_of<V>(e: Seq<(String, V)>, m: Map<Seq<char>, V>) -> bool {
    &&& forall|i: int, j: int| 0 <= i < j < e.len() ==> e[i].0@ != e[j].0@
    &&& forall|i: int| 0 <= i < e.len() ==> #[trigger] m.contains_key(e[i].0@) && m[e[i].0@] == e[i].1
    &&& forall|k: Seq<char>| m.contains_key(k) ==> exists|i: int| 0 <= i < e.len() && #[trigger] e[i].0@ == k
}

/// A snapshot of a map whose values are lists, each list taken by its elements.
pub open spec fn list_snapshot_of<T>(e: Seq<(String, Vec<T>)>, m: Map<Seq<char>, Seq<T>>) -> bool {
    &&& forall|i: int, j: int| 0 <= i < j < e.len() ==> e[i].0@ != e[j].0@
    &&& forall|i: int| 0 <= i < e.len() ==> #[trigger] m.contains_key(e[i].0@) && m[e[i].0@] == e[i].1@
    &&& forall|k: Seq<char>| m.contains_key(k) ==> exists|i: int| 0 <= i < e.len() && #[trigger] e[i].0@ == k
}

/// What a set of strings holds.
pub uninterp spec fn text_set(s: DashSet<String>) -> Set<Seq<char>>;

/// `DashSet::new`: an empty set.
#[verifier::external_body]
pub(crate) fn text_set_new() -> (r: DashSet<String>)
    ensures
        text_set(r) =~= Set::empty(),
{
    DashSet::new()
}

/// `DashSet::insert`: adds `key`.
#[verifier::external_body]
pub(crate) fn text_set_insert(s: &mut DashSet<String>, key: String)
    ensures
        text_set(*final(s)) == text_set(*old(s)).insert(key@),
{
    s.insert(key);
}

/// `DashSet::remove`: removes `key`.
#[verifier::external_body]
pub(crate) fn text_set_remove(s: &mut DashSet<String>, key: &str)
    ensures
        text_set(*final(s)) == text_set(*old(s)).remove(key@),
{
    s.remove(key);
}

/// `DashSet::contains`.
#[verifier::external_body]
pub(crate) fn text_set_contains(s: &DashSet<String>, key: &str) -> (r: bool)
    ensures
        r == text_set(*s).contains(key@),
{
    s.contains(key)
}

/// `DashSet::iter`, each item copied out: the members without repetition, in the
/// set's own order.
#[verifier::external_body]
pub(crate) fn text_set_items(s: &DashSet<String>) -> (r: Vec<String>)
    ensures
        forall|i: int, j: int| 0 <= i < j < r@.len() ==> r@[i]@ != r@[j]@,
        forall|i: int| 0 <= i < r@.len() ==> text_set(*s).contains(#[trigger] r@[i]@),
        forall|k: Seq<char>| text_set(*s).contains(k) ==> exists|i: int| 0 <= i < r@.len() && #[trigger] r@[i]@ == k,
{
    s.iter().map(|e| e.key().clone()).collect()
}

/// What a map of symbols by name holds.
pub uninterp spec fn symbol_lists(m: DashMap<String, Vec<Symbol>>) -> Map<Seq<char>, Seq<Symbol>>;

/// `DashMap::new`: an empty map of symbols by name.
#[verifier::external_body]
pub(crate) fn symbol_lists_new() -> (r: DashMap<String, Vec<Symbol>>)
    ensures
        symbol_lists(r) =~= Map::empty(),
{
    DashMap::new()
}

/// `DashMap::get`, the value copied out: the value for `key`, if the map has one.
#[verifier::external_body]
pub(crate) fn symbol_lists_get(m: &DashMap<String, Vec<Symbol>>, key: &str) -> (r: Option<Vec<Symbol>>)
    ensures
        match r {
            Some(v) => symbol_lists(*m).contains_key(key@) && v@ == symbol_lists(*m)[key@],
            None => !symbol_lists(*m).contains_key(key@),
        },
{
    m.get(key).map(|e| e.value().clone())
}

/// `DashMap::insert`: the value for `key` becomes `value`.
#[verifier::external_body]
pub(crate) fn symbol_lists_insert(m: &mut DashMap<String, Vec<Symbol>>, key: String, value: Vec<Symbol>)
    ensures
        symbol_lists(*final(m)) == symbol_lists(*old(m)).insert(key@, value@),
{
    m.insert(key, value);
}

/// `DashMap::remove`: `key` no longer has a value.
#[verifier::external_body]
pub(crate) fn symbol_lists_remove(m: &mut DashMap<String, Vec<Symbol>>, key: &str)
    ensures
        symbol_lists(*final(m)) == symbol_lists(*old(m)).remove(key@),
{
    m.remove(key);
}

/// `DashMap::iter`, each entry copied out: every key once with its value, in the map's
/// own order.
#[verifier::external_body]
pub(crate) fn symbol_lists_entries(m: &DashMap<String, Vec<Symbol>>) -> (r: Vec<(String, Vec<Symbol>)>)
    ensures
        list_snapshot_of(r@, symbol_lists(*m)),
{
    m.iter().map(|e| (e.key().clone(), e.value().clone())).collect()
}

/// What a map of references by name holds.
pub uninterp spec fn reference_lists(m: DashMap<String, Vec<SymbolReference>>) -> Map<Seq<char>, Seq<SymbolReference>>;

/// `DashMap::new`: an empty map of references by name.
#[verifier::external_body]
pub(crate) fn reference_lists_new() -> (r: DashMap<String, Vec<SymbolReference>>)
    ensures
        reference_lists(r) =~= Map::empty(),
{
    DashMap::new()
}

/// `DashMap::get`, the value copied out: the value for `key`, if the map has one.
#[verifier::external_body]
pub(crate) fn reference_lists_get(m: &DashMap<String, Vec<SymbolReference>>, key: &str) -> (r: Option<Vec<SymbolReference>>)
    ensures
        match r {
            Some(v) => reference_lists(*m).contains_key(key@) && v@ == reference_lists(*m)[key@],
            None => !reference_lists(*m).contains_key(key@),
        },
{
    m.get(key).map(|e| e.value().clone())
}

/// `DashMap::insert`: the value for `key` becomes `value`.
#[verifier::external_body]
pub(crate) fn reference_lists_insert(m: &mut DashMap<String, Vec<SymbolReference>>, key: String, value: Vec<SymbolReference>)
    ensures
        reference_lists(*final(m)) == reference_lists(*old(m)).insert(key@, value@),
{
    m.insert(key, value);
}

/// `DashMap::remove`: `key` no longer has a value.
#[verifier::external_body]
pub(crate) fn reference_lists_remove(m: &mut DashMap<String, Vec<SymbolReference>>, key: &str)
    ensures
        reference_lists(*final(m)) == reference_lists(*old(m)).remove(key@),
{
    m.remove(key);
}

/// `DashMap::iter`, each entry copied out: every key once with its value, in the map's
/// own order.
#[verifier::external_body]
pub(crate) fn reference_lists_entries(m: &DashMap<String, Vec<SymbolReference>>) -> (r: Vec<(String, Vec<SymbolReference>)>)
    ensures
        list_snapshot_of(r@, reference_lists(*m)),
{
    m.iter().map(|e| (e.key().clone(), e.value().clone())).collect()
}

/// What a map of names by key holds.
pub uninterp spec fn name_lists(m: DashMap<String, Vec<String>>) -> Map<Seq<char>, Seq<String>>;

/// `DashMap::new`: an empty map of names by key.
#[verifier::external_body]
pub(crate) fn name_lists_new() -> (r: DashMap<String, Vec<String>>)
    ensures
        name_lists(r) =~= Map::empty(),
{
    DashMap::new()
}

/// `DashMap::get`, the value copied out: the value for `key`, if the map has one.
#[verifier::external_body]
pub(crate) fn name_lists_get(m: &DashMap<String, Vec<String>>, key: &str) -> (r: Option<Vec<String>>)
    ensures
        match r {
            Some(v) => name_lists(*m).contains_key(key@) && v@ == name_lists(*m)[key@],
            None => !name_lists(*m).contains_key(key@),
        },
{
    m.get(key).map(|e| e.value().clone())
}

/// `DashMap::insert`: the value for `key` becomes `value`.
#[verifier::external_body]
pub(crate) fn name_lists_insert(m: &mut DashMap<String, Vec<String>>, key: String, value: Vec<String>)
    ensures
        name_lists(*final(m)) == name_lists(*old(m)).insert(key@, value@),
{
    m.insert(key, value);
}

/// `DashMap::remove`: `key` no longer has a value.
#[verifier::external_body]
pub(crate) fn name_lists_remove(m: &mut DashMap<String, Vec<String>>, key: &str)
    ensures
        name_lists(*final(m)) == name_lists(*old(m)).remove(key@),
{
    m.remove(key);
}

/// `DashMap::iter`, each entry copied out: every key once with its value, in the map's
/// own order.
#[verifier::external_body]
pub(crate) fn name_lists_entries(m: &DashMap<String, Vec<String>>) -> (r: Vec<(String, Vec<String>)>)
    ensures
        list_snapshot_of(r@, name_lists(*m)),
{
    m.iter().map(|e| (e.key().clone(), e.value().clone())).collect()
}

/// What a map of dependency-injection strings by document holds.
pub uninterp spec fn di_usage_lists(m: DashMap<String, Vec<DiUsage>>) -> Map<Seq<char>, Seq<DiUsage>>;

/// `DashMap::new`: an empty map of dependency-injection strings by document.
#[verifier::external_body]
pub(crate) fn di_usage_lists_new() -> (r: DashMap<String, Vec<DiUsage>>)
    ensures
        di_usage_lists(r) =~= Map::empty(),
{
    DashMap::new()
}

/// `DashMap::get`, the value copied out: the value for `key`, if the map has one.
#[verifier::external_body]
pub(crate) fn di_usage_lists_get(m: &DashMap<String, Vec<DiUsage>>, key: &str) -> (r: Option<Vec<DiUsage>>)
    ensures
        match r {
            Some(v) => di_usage_lists(*m).contains_key(key@) && v@ == di_usage_lists(*m)[key@],
            None => !di_usage_lists(*m).contains_key(key@),
        },
{
    m.get(key).map(|e| e.value().clone())
}

/// `DashMap::insert`: the value for `key` becomes `value`.
#[verifier::external_body]
pub(crate) fn di_usage_lists_insert(m: &mut DashMap<String, Vec<DiUsage>>, key: String, value: Vec<DiUsage>)
    ensures
        di_usage_lists(*final(m)) == di_usage_lists(*old(m)).insert(key@, value@),
{
    m.insert(key, value);
}

/// `DashMap::remove`: `key` no longer has a value.
#[verifier::external_body]
pub(crate) fn di_usage_lists_remove(m: &mut DashMap<String, Vec<DiUsage>>, key: &str)
    ensures
        di_usage_lists(*final(m)) == di_usage_lists(*old(m)).remove(key@),
{
    m.remove(key);
}

/// `DashMap::iter`, each entry copied out: every key once with its value, in the map's
/// own order.
#[verifier::external_body]
pub(crate) fn di_usage_lists_entries(m: &DashMap<String, Vec<DiUsage>>) -> (r: Vec<(String, Vec<DiUsage>)>)
    ensures
        list_snapshot_of(r@, di_usage_lists(*m)),
{
    m.iter().map(|e| (e.key().clone(), e.value().clone())).collect()
}

/// What a map of injection arity issues by document holds.
pub uninterp spec fn arity_issue_lists(m: DashMap<String, Vec<DiArityIssue>>) -> Map<Seq<char>, Seq<DiArityIssue>>;

/// `DashMap::new`: an empty map of injection arity issues by document.
#[verifier::external_body]
pub(crate) fn arity_issue_lists_new() -> (r: DashMap<String, Vec<DiArityIssue>>)
    ensures
        arity_issue_lists(r) =~= Map::empty(),
{
    DashMap::new()
}

/// `DashMap::get`, the value copied out: the value for `key`, if the map has one.
#[verifier::external_body]
pub(crate) fn arity_issue_lists_get(m: &DashMap<String, Vec<DiArityIssue>>, key: &str) -> (r: Option<Vec<DiArityIssue>>)
    ensures
        match r {
            Some(v) => arity_issue_lists(*m).contains_key(key@) && v@ == arity_issue_lists(*m)[key@],
            None => !arity_issue_lists(*m).contains_key(key@),
        },
{
    m.get(key).map(|e| e.value().clone())
}

/// `DashMap::insert`: the value for `key` becomes `value`.
#[verifier::external_body]
pub(crate) fn arity_issue_lists_insert(m: &mut DashMap<String, Vec<DiArityIssue>>, key: String, value: Vec<DiArityIssue>)
    ensures
        arity_issue_lists(*final(m)) == arity_issue_lists(*old(m)).insert(key@, value@),
{
    m.insert(key, value);
}

/// `DashMap::remove`: `key` no longer has a value.
#[verifier::external_body]
pub(crate) fn arity_issue_lists_remove(m: &mut DashMap<String, Vec<DiArityIssue>>, key: &str)
    ensures
        arity_issue_lists(*final(m)) == arity_issue_lists(*old(m)).remove(key@),
{
    m.remove(key);
}

/// `DashMap::iter`, each entry copied out: every key once with its value, in the map's
/// own order.
#[verifier::external_body]
pub(crate) fn arity_issue_lists_entries(m: &DashMap<String, Vec<DiArityIssue>>) -> (r: Vec<(String, Vec<DiArityIssue>)>)
    ensures
        list_snapshot_of(r@, arity_issue_lists(*m)),
{
    m.iter().map(|e| (e.key().clone(), e.value().clone())).collect()
}

/// What a map of script controller scopes by document holds.
pub uninterp spec fn controller_scope_lists(m: DashMap<String, Vec<ControllerScope>>) -> Map<Seq<char>, Seq<ControllerScope>>;

/// `DashMap::new`: an empty map of script controller scopes by document.
#[verifier::external_body]
pub(crate) fn controller_scope_lists_new() -> (r: DashMap<String, Vec<ControllerScope>>)
    ensures
        controller_scope_lists(r) =~= Map::empty(),
{
    DashMap::new()
}

/// `DashMap::get`, the value copied out: the value for `key`, if the map has one.
#[verifier::external_body]
pub(crate) fn controller_scope_lists_get(m: &DashMap<String, Vec<ControllerScope>>, key: &str) -> (r: Option<Vec<ControllerScope>>)
    ensures
        match r {
            Some(v) => controller_scope_lists(*m).contains_key(key@) && v@ == controller_scope_lists(*m)[key@],
            None => !controller_scope_lists(*m).contains_key(key@),
        },
{
    m.get(key).map(|e| e.value().clone())
}

/// `DashMap::insert`: the value for `key` becomes `value`.
#[verifier::external_body]
pub(crate) fn controller_scope_lists_insert(m: &mut DashMap<String, Vec<ControllerScope>>, key: String, value: Vec<ControllerScope>)
    ensures
        controller_scope_lists(*final(m)) == controller_scope_lists(*old(m)).insert(key@, value@),
{
    m.insert(key, value);
}

/// `DashMap::remove`: `key` no longer has a value.
#[verifier::external_body]
pub(crate) fn controller_scope_lists_remove(m: &mut DashMap<String, Vec<ControllerScope>>, key: &str)
    ensures
        controller_scope_lists(*final(m)) == controller_scope_lists(*old(m)).remove(key@),
{
    m.remove(key);
}

/// `DashMap::iter`, each entry copied out: every key once with its value, in the map's
/// own order.
#[verifier::external_body]
pub(crate) fn controller_scope_lists_entries(m: &DashMap<String, Vec<ControllerScope>>) -> (r: Vec<(String, Vec<ControllerScope>)>)
    ensures
        list_snapshot_of(r@, controller_scope_lists(*m)),
{
    m.iter().map(|e| (e.key().clone(), e.value().clone())).collect()
}

/// What a map of template controller scopes by document holds.
pub uninterp spec fn html_controller_scope_lists(m: DashMap<String, Vec<HtmlControllerScope>>) -> Map<Seq<char>, Seq<HtmlControllerScope>>;

/// `DashMap::new`: an empty map of template controller scopes by document.
#[verifier::external_body]
pub(crate) fn html_controller_scope_lists_new() -> (r: DashMap<String, Vec<HtmlControllerScope>>)
    ensures
        html_controller_scope_lists(r) =~= Map::empty(),
{
    DashMap::new()
}

/// `DashMap::get`, the value copied out: the value for `key`, if the map has one.
#[verifier::external_body]
pub(crate) fn html_controller_scope_lists_get(m: &DashMap<String, Vec<HtmlControllerScope>>, key: &str) -> (r: Option<Vec<HtmlControllerScope>>)
    ensures
        match r {
            Some(v) => html_controller_scope_lists(*m).contains_key(key@) && v@ == html_controller_scope_lists(*m)[key@],
            None => !html_controller_scope_lists(*m).contains_key(key@),
        },
{
    m.get(key).map(|e| e.value().clone())
}

/// `DashMap::insert`: the value for `key` becomes `value`.
#[verifier::external_body]
pub(crate) fn html_controller_scope_lists_insert(m: &mut DashMap<String, Vec<HtmlControllerScope>>, key: String, value: Vec<HtmlControllerScope>)
    ensures
        html_controller_scope_lists(*final(m)) == html_controller_scope_lists(*old(m)).insert(key@, value@),
{
    m.insert(key, value);
}

/// `DashMap::remove`: `key` no longer has a value.
#[verifier::external_body]
pub(crate) fn html_controller_scope_lists_remove(m: &mut DashMap<String, Vec<HtmlControllerScope>>, key: &str)
    ensures
        html_controller_scope_lists(*final(m)) == html_controller_scope_lists(*old(m)).remove(key@),
{
    m.remove(key);
}

/// `DashMap::iter`, each entry copied out: every key once with its value, in the map's
/// own order.
#[verifier::external_body]
pub(crate) fn html_controller_scope_lists_entries(m: &DashMap<String, Vec<HtmlControllerScope>>) -> (r: Vec<(String, Vec<HtmlControllerScope>)>)
    ensures
        list_snapshot_of(r@, html_controller_scope_lists(*m)),
{
    m.iter().map(|e| (e.key().clone(), e.value().clone())).collect()
}

/// What a map of component template URLs by script holds.
pub uninterp spec fn template_url_lists(m: DashMap<String, Vec<ComponentTemplateUrl>>) -> Map<Seq<char>, Seq<ComponentTemplateUrl>>;

/// `DashMap::new`: an empty map of component template URLs by script.
#[verifier::external_body]
pub(crate) fn template_url_lists_new() -> (r: DashMap<String, Vec<ComponentTemplateUrl>>)
    ensures
        template_url_lists(r) =~= Map::empty(),
{
    DashMap::new()
}

/// `DashMap::get`, the value copied out: the value for `key`, if the map has one.
#[verifier::external_body]
pub(crate) fn template_url_lists_get(m: &DashMap<String, Vec<ComponentTemplateUrl>>, key: &str) -> (r: Option<Vec<ComponentTemplateUrl>>)
    ensures
        match r {
            Some(v) => template_url_lists(*m).contains_key(key@) && v@ == template_url_lists(*m)[key@],
            None => !template_url_lists(*m).contains_key(key@),
        },
{
    m.get(key).map(|e| e.value().clone())
}

/// `DashMap::insert`: the value for `key` becomes `value`.
#[verifier::external_body]
pub(crate) fn template_url_lists_insert(m: &mut DashMap<String, Vec<ComponentTemplateUrl>>, key: String, value: Vec<ComponentTemplateUrl>)
    ensures
        template_url_lists(*final(m)) == template_url_lists(*old(m)).insert(key@, value@),
{
    m.insert(key, value);
}

/// `DashMap::remove`: `key` no longer has a value.
#[verifier::external_body]
pub(crate) fn template_url_lists_remove(m: &mut DashMap<String, Vec<ComponentTemplateUrl>>, key: &str)
    ensures
        template_url_lists(*final(m)) == template_url_lists(*old(m)).remove(key@),
{
    m.remove(key);
}

/// `DashMap::iter`, each entry copied out: every key once with its value, in the map's
/// own order.
#[verifier::external_body]
pub(crate) fn template_url_lists_entries(m: &DashMap<String, Vec<ComponentTemplateUrl>>) -> (r: Vec<(String, Vec<ComponentTemplateUrl>)>)
    ensures
        list_snapshot_of(r@, template_url_lists(*m)),
{
    m.iter().map(|e| (e.key().clone(), e.value().clone())).collect()
}

/// What a map of component template URLs by template path holds.
pub uninterp spec fn template_url_map(m: DashMap<String, ComponentTemplateUrl>) -> Map<Seq<char>, ComponentTemplateUrl>;

/// `DashMap::new`: an empty map of component template URLs by template path.
#[verifier::external_body]
pub(crate) fn template_url_map_new() -> (r: DashMap<String, ComponentTemplateUrl>)
    ensures
        template_url_map(r) =~= Map::empty(),
{
    DashMap::new()
}

/// `DashMap::get`, the value copied out: the value for `key`, if the map has one.
#[verifier::external_body]
pub(crate) fn template_url_map_get(m: &DashMap<String, ComponentTemplateUrl>, key: &str) -> (r: Option<ComponentTemplateUrl>)
    ensures
        match r {
            Some(v) => template_url_map(*m).contains_key(key@) && v == template_url_map(*m)[key@],
            None => !template_url_map(*m).contains_key(key@),
        },
{
    m.get(key).map(|e| e.value().clone())
}

/// `DashMap::insert`: the value for `key` becomes `value`.
#[verifier::external_body]
pub(crate) fn template_url_map_insert(m: &mut DashMap<String, ComponentTemplateUrl>, key: String, value: ComponentTemplateUrl)
    ensures
        template_url_map(*final(m)) == template_url_map(*old(m)).insert(key@, value),
{
    m.insert(key, value);
}

/// `DashMap::remove`: `key` no longer has a value.
#[verifier::external_body]
pub(crate) fn template_url_map_remove(m: &mut DashMap<String, ComponentTemplateUrl>, key: &str)
    ensures
        template_url_map(*final(m)) == template_url_map(*old(m)).remove(key@),
{
    m.remove(key);
}

/// `DashMap::iter`, each entry copied out: every key once with its value, in the map's
/// own order.
#[verifier::external_body]
pub(crate) fn template_url_map_entries(m: &DashMap<String, ComponentTemplateUrl>) -> (r: Vec<(String, ComponentTemplateUrl)>)
    ensures
        snapshot_of(r@, template_url_map(*m)),
{
    m.iter().map(|e| (e.key().clone(), e.value().clone())).collect()
}

/// What a map of interpolation symbols by script holds.
pub uninterp spec fn interpolation_map(m: DashMap<String, (Option<String>, Option<String>)>) -> Map<Seq<char>, (Option<String>, Option<String>)>;

/// `DashMap::new`: an empty map of interpolation symbols by script.
#[verifier::external_body]
pub(crate) fn interpolation_map_new() -> (r: DashMap<String, (Option<String>, Option<String>)>)
    ensures
        interpolation_map(r) =~= Map::empty(),
{
    DashMap::new()
}

/// `DashMap::get`, the value copied out: the value for `key`, if the map has one.
#[verifier::external_body]
pub(crate) fn interpolation_map_get(m: &DashMap<String, (Option<String>, Option<String>)>, key: &str) -> (r: Option<(Option<String>, Option<String>)>)
    ensures
        match r {
            Some(v) => interpolation_map(*m).contains_key(key@) && v == interpolation_map(*m)[key@],
            None => !interpolation_map(*m).contains_key(key@),
        },
{
    m.get(key).map(|e| e.value().clone())
}

/// `DashMap::insert`: the value for `key` becomes `value`.
#[verifier::external_body]
pub(crate) fn interpolation_map_insert(m: &mut DashMap<String, (Option<String>, Option<String>)>, key: String, value: (Option<String>, Option<String>))
    ensures
        interpolation_map(*final(m)) == interpolation_map(*old(m)).insert(key@, value),
{
    m.insert(key, value);
}

/// `DashMap::remove`: `key` no longer has a value.
#[verifier::external_body]
pub(crate) fn interpolation_map_remove(m: &mut DashMap<String, (Option<String>, Option<String>)>, key: &str)
    ensures
        interpolation_map(*final(m)) == interpolation_map(*old(m)).remove(key@),
{
    m.remove(key);
}

/// `DashMap::iter`, each entry copied out: every key once with its value, in the map's
/// own order.
#[verifier::external_body]
pub(crate) fn interpolation_map_entries(m: &DashMap<String, (Option<String>, Option<String>)>) -> (r: Vec<(String, (Option<String>, Option<String>))>)
    ensures
        snapshot_of(r@, interpolation_map(*m)),
{
    m.iter().map(|e| (e.key().clone(), e.value().clone())).collect()
}

/// What a map of template scope references by document holds.
pub uninterp spec fn scope_reference_lists(m: DashMap<String, Vec<HtmlScopeReference>>) -> Map<Seq<char>, Seq<HtmlScopeReference>>;

/// `DashMap::new`: an empty map of template scope references by document.
#[verifier::external_body]
pub(crate) fn scope_reference_lists_new() -> (r: DashMap<String, Vec<HtmlScopeReference>>)
    ensures
        scope_reference_lists(r) =~= Map::empty(),
{
    DashMap::new()
}

/// `DashMap::get`, the value copied out: the value for `key`, if the map has one.
#[verifier::external_body]
pub(crate) fn scope_reference_lists_get(m: &DashMap<String, Vec<HtmlScopeReference>>, key: &str) -> (r: Option<Vec<HtmlScopeReference>>)
    ensures
        match r {
            Some(v) => scope_reference_lists(*m).contains_key(key@) && v@ == scope_reference_lists(*m)[key@],
            None => !scope_reference_lists(*m).contains_key(key@),
        },
{
    m.get(key).map(|e| e.value().clone())
}

/// `DashMap::insert`: the value for `key` becomes `value`.
#[verifier::external_body]
pub(crate) fn scope_reference_lists_insert(m: &mut DashMap<String, Vec<HtmlScopeReference>>, key: String, value: Vec<HtmlScopeReference>)
    ensures
        scope_reference_lists(*final(m)) == scope_reference_lists(*old(m)).insert(key@, value@),
{
    m.insert(key, value);
}

/// `DashMap::remove`: `key` no longer has a value.
#[verifier::external_body]
pub(crate) fn scope_reference_lists_remove(m: &mut DashMap<String, Vec<HtmlScopeReference>>, key: &str)
    ensures
        scope_reference_lists(*final(m)) == scope_reference_lists(*old(m)).remove(key@),
{
    m.remove(key);
}

/// `DashMap::iter`, each entry copied out: every key once with its value, in the map's
/// own order.
#[verifier::external_body]
pub(crate) fn scope_reference_lists_entries(m: &DashMap<String, Vec<HtmlScopeReference>>) -> (r: Vec<(String, Vec<HtmlScopeReference>)>)
    ensures
        list_snapshot_of(r@, scope_reference_lists(*m)),
{
    m.iter().map(|e| (e.key().clone(), e.value().clone())).collect()
}

/// What a map of template local variables by document holds.
pub uninterp spec fn local_variable_lists(m: DashMap<String, Vec<HtmlLocalVariable>>) -> Map<Seq<char>, Seq<HtmlLocalVariable>>;

/// `DashMap::new`: an empty map of template local variables by document.
#[verifier::external_body]
pub(crate) fn local_variable_lists_new() -> (r: DashMap<String, Vec<HtmlLocalVariable>>)
    ensures
        local_variable_lists(r) =~= Map::empty(),
{
    DashMap::new()
}

/// `DashMap::get`, the value copied out: the value for `key`, if the map has one.
#[verifier::external_body]
pub(crate) fn local_variable_lists_get(m: &DashMap<String, Vec<HtmlLocalVariable>>, key: &str) -> (r: Option<Vec<HtmlLocalVariable>>)
    ensures
        match r {
            Some(v) => local_variable_lists(*m).contains_key(key@) && v@ == local_variable_lists(*m)[key@],
            None => !local_variable_lists(*m).contains_key(key@),
        },
{
    m.get(key).map(|e| e.value().clone())
}

/// `DashMap::insert`: the value for `key` becomes `value`.
#[verifier::external_body]
pub(crate) fn local_variable_lists_insert(m: &mut DashMap<String, Vec<HtmlLocalVariable>>, key: String, value: Vec<HtmlLocalVariable>)
    ensures
        local_variable_lists(*final(m)) == local_variable_lists(*old(m)).insert(key@, value@),
{
    m.insert(key, value);
}

/// `DashMap::remove`: `key` no longer has a value.
#[verifier::external_body]
pub(crate) fn local_variable_lists_remove(m: &mut DashMap<String, Vec<HtmlLocalVariable>>, key: &str)
    ensures
        local_variable_lists(*final(m)) == local_variable_lists(*old(m)).remove(key@),
{
    m.remove(key);
}

/// `DashMap::iter`, each entry copied out: every key once with its value, in the map's
/// own order.
#[verifier::external_body]
pub(crate) fn local_variable_lists_entries(m: &DashMap<String, Vec<HtmlLocalVariable>>) -> (r: Vec<(String, Vec<HtmlLocalVariable>)>)
    ensures
        list_snapshot_of(r@, local_variable_lists(*m)),
{
    m.iter().map(|e| (e.key().clone(), e.value().clone())).collect()
}

/// What a map of local variable references by variable name holds.
pub uninterp spec fn local_reference_lists(m: DashMap<String, Vec<HtmlLocalVariableReference>>) -> Map<Seq<char>, Seq<HtmlLocalVariableReference>>;

/// `DashMap::new`: an empty map of local variable references by variable name.
#[verifier::external_body]
pub(crate) fn local_reference_lists_new() -> (r: DashMap<String, Vec<HtmlLocalVariableReference>>)
    ensures
        local_reference_lists(r) =~= Map::empty(),
{
    DashMap::new()
}

/// `DashMap::get`, the value copied out: the value for `key`, if the map has one.
#[verifier::external_body]
pub(crate) fn local_reference_lists_get(m: &DashMap<String, Vec<HtmlLocalVariableReference>>, key: &str) -> (r: Option<Vec<HtmlLocalVariableReference>>)
    ensures
        match r {
            Some(v) => local_reference_lists(*m).contains_key(key@) && v@ == local_reference_lists(*m)[key@],
            None => !local_reference_lists(*m).contains_key(key@),
        },
{
    m.get(key).map(|e| e.value().clone())
}

/// `DashMap::insert`: the value for `key` becomes `value`.
#[verifier::external_body]
pub(crate) fn local_reference_lists_insert(m: &mut DashMap<String, Vec<HtmlLocalVariableReference>>, key: String, value: Vec<HtmlLocalVariableReference>)
    ensures
        local_reference_lists(*final(m)) == local_reference_lists(*old(m)).insert(key@, value@),
{
    m.insert(key, value);
}

/// `DashMap::remove`: `key` no longer has a value.
#[verifier::external_body]
pub(crate) fn local_reference_lists_remove(m: &mut DashMap<String, Vec<HtmlLocalVariableReference>>, key: &str)
    ensures
        local_reference_lists(*final(m)) == local_reference_lists(*old(m)).remove(key@),
{
    m.remove(key);
}

/// `DashMap::iter`, each entry copied out: every key once with its value, in the map's
/// own order.
#[verifier::external_body]
pub(crate) fn local_reference_lists_entries(m: &DashMap<String, Vec<HtmlLocalVariableReference>>) -> (r: Vec<(String, Vec<HtmlLocalVariableReference>)>)
    ensures
        list_snapshot_of(r@, local_reference_lists(*m)),
{
    m.iter().map(|e| (e.key().clone(), e.value().clone())).collect()
}

/// What a map of form bindings by document holds.
pub uninterp spec fn form_binding_lists(m: DashMap<String, Vec<HtmlFormBinding>>) -> Map<Seq<char>, Seq<HtmlFormBinding>>;

/// `DashMap::new`: an empty map of form bindings by document.
#[verifier::external_body]
pub(crate) fn form_binding_lists_new() -> (r: DashMap<String, Vec<HtmlFormBinding>>)
    ensures
        form_binding_lists(r) =~= Map::empty(),
{
    DashMap::new()
}

/// `DashMap::get`, the value copied out: the value for `key`, if the map has one.
#[verifier::external_body]
pub(crate) fn form_binding_lists_get(m: &DashMap<String, Vec<HtmlFormBinding>>, key: &str) -> (r: Option<Vec<HtmlFormBinding>>)
    ensures
        match r {
            Some(v) => form_binding_lists(*m).contains_key(key@) && v@ == form_binding_lists(*m)[key@],
            None => !form_binding_lists(*m).contains_key(key@),
        },
{
    m.get(key).map(|e| e.value().clone())
}

/// `DashMap::insert`: the value for `key` becomes `value`.
#[verifier::external_body]
pub(crate) fn form_binding_lists_insert(m: &mut DashMap<String, Vec<HtmlFormBinding>>, key: String, value: Vec<HtmlFormBinding>)
    ensures
        form_binding_lists(*final(m)) == form_binding_lists(*old(m)).insert(key@, value@),
{
    m.insert(key, value);
}

/// `DashMap::remove`: `key` no longer has a value.
#[verifier::external_body]
pub(crate) fn form_binding_lists_remove(m: &mut DashMap<String, Vec<HtmlFormBinding>>, key: &str)
    ensures
        form_binding_lists(*final(m)) == form_binding_lists(*old(m)).remove(key@),
{
    m.remove(key);
}

/// `DashMap::iter`, each entry copied out: every key once with its value, in the map's
/// own order.
#[verifier::external_body]
pub(crate) fn form_binding_lists_entries(m: &DashMap<String, Vec<HtmlFormBinding>>) -> (r: Vec<(String, Vec<HtmlFormBinding>)>)
    ensures
        list_snapshot_of(r@, form_binding_lists(*m)),
{
    m.iter().map(|e| (e.key().clone(), e.value().clone())).collect()
}

/// What a map of directive references by document holds.
pub uninterp spec fn directive_reference_lists(m: DashMap<String, Vec<HtmlDirectiveReference>>) -> Map<Seq<char>, Seq<HtmlDirectiveReference>>;

/// `DashMap::new`: an empty map of directive references by document.
#[verifier::external_body]
pub(crate) fn directive_reference_lists_new() -> (r: DashMap<String, Vec<HtmlDirectiveReference>>)
    ensures
        directive_reference_lists(r) =~= Map::empty(),
{
    DashMap::new()
}

/// `DashMap::get`, the value copied out: the value for `key`, if the map has one.
#[verifier::external_body]
pub(crate) fn directive_reference_lists_get(m: &DashMap<String, Vec<HtmlDirectiveReference>>, key: &str) -> (r: Option<Vec<HtmlDirectiveReference>>)
    ensures
        match r {
            Some(v) => directive_reference_lists(*m).contains_key(key@) && v@ == directive_reference_lists(*m)[key@],
            None => !directive_reference_lists(*m).contains_key(key@),
        },
{
    m.get(key).map(|e| e.value().clone())
}

/// `DashMap::insert`: the value for `key` becomes `value`.
#[verifier::external_body]
pub(crate) fn directive_reference_lists_insert(m: &mut DashMap<String, Vec<HtmlDirectiveReference>>, key: String, value: Vec<HtmlDirectiveReference>)
    ensures
        directive_reference_lists(*final(m)) == directive_reference_lists(*old(m)).insert(key@, value@),
{
    m.insert(key, value);
}

/// `DashMap::remove`: `key` no longer has a value.
#[verifier::external_body]
pub(crate) fn directive_reference_lists_remove(m: &mut DashMap<String, Vec<HtmlDirectiveReference>>, key: &str)
    ensures
        directive_reference_lists(*final(m)) == directive_reference_lists(*old(m)).remove(key@),
{
    m.remove(key);
}

/// `DashMap::iter`, each entry copied out: every key once with its value, in the map's
/// own order.
#[verifier::external_body]
pub(crate) fn directive_reference_lists_entries(m: &DashMap<String, Vec<HtmlDirectiveReference>>) -> (r: Vec<(String, Vec<HtmlDirectiveReference>)>)
    ensures
        list_snapshot_of(r@, directive_reference_lists(*m)),
{
    m.iter().map(|e| (e.key().clone(), e.value().clone())).collect()
}

/// What a map of ng-model targets by document holds.
pub uninterp spec fn ng_model_target_lists(m: DashMap<String, Vec<HtmlNgModelTarget>>) -> Map<Seq<char>, Seq<HtmlNgModelTarget>>;

/// `DashMap::new`: an empty map of ng-model targets by document.
#[verifier::external_body]
pub(crate) fn ng_model_target_lists_new() -> (r: DashMap<String, Vec<HtmlNgModelTarget>>)
    ensures
        ng_model_target_lists(r) =~= Map::empty(),
{
    DashMap::new()
}

/// `DashMap::get`, the value copied out: the value for `key`, if the map has one.
#[verifier::external_body]
pub(crate) fn ng_model_target_lists_get(m: &DashMap<String, Vec<HtmlNgModelTarget>>, key: &str) -> (r: Option<Vec<HtmlNgModelTarget>>)
    ensures
        match r {
            Some(v) => ng_model_target_lists(*m).contains_key(key@) && v@ == ng_model_target_lists(*m)[key@],
            None => !ng_model_target_lists(*m).contains_key(key@),
        },
{
    m.get(key).map(|e| e.value().clone())
}

/// `DashMap::insert`: the value for `key` becomes `value`.
#[verifier::external_body]
pub(crate) fn ng_model_target_lists_insert(m: &mut DashMap<String, Vec<HtmlNgModelTarget>>, key: String, value: Vec<HtmlNgModelTarget>)
    ensures
        ng_model_target_lists(*final(m)) == ng_model_target_lists(*old(m)).insert(key@, value@),
{
    m.insert(key, value);
}

/// `DashMap::remove`: `key` no longer has a value.
#[verifier::external_body]
pub(crate) fn ng_model_target_lists_remove(m: &mut DashMap<String, Vec<HtmlNgModelTarget>>, key: &str)
    ensures
        ng_model_target_lists(*final(m)) == ng_model_target_lists(*old(m)).remove(key@),
{
    m.remove(key);
}

/// `DashMap::iter`, each entry copied out: every key once with its value, in the map's
/// own order.
#[verifier::external_body]
pub(crate) fn ng_model_target_lists_entries(m: &DashMap<String, Vec<HtmlNgModelTarget>>) -> (r: Vec<(String, Vec<HtmlNgModelTarget>)>)
    ensures
        list_snapshot_of(r@, ng_model_target_lists(*m)),
{
    m.iter().map(|e| (e.key().clone(), e.value().clone())).collect()
}

/// What a map of ui-sref references by document holds.
pub uninterp spec fn ui_sref_lists(m: DashMap<String, Vec<HtmlUiSrefReference>>) -> Map<Seq<char>, Seq<HtmlUiSrefReference>>;

/// `DashMap::new`: an empty map of ui-sref references by document.
#[verifier::external_body]
pub(crate) fn ui_sref_lists_new() -> (r: DashMap<String, Vec<HtmlUiSrefReference>>)
    ensures
        ui_sref_lists(r) =~= Map::empty(),
{
    DashMap::new()
}

/// `DashMap::get`, the value copied out: the value for `key`, if the map has one.
#[verifier::external_body]
pub(crate) fn ui_sref_lists_get(m: &DashMap<String, Vec<HtmlUiSrefReference>>, key: &str) -> (r: Option<Vec<HtmlUiSrefReference>>)
    ensures
        match r {
            Some(v) => ui_sref_lists(*m).contains_key(key@) && v@ == ui_sref_lists(*m)[key@],
            None => !ui_sref_lists(*m).contains_key(key@),
        },
{
    m.get(key).map(|e| e.value().clone())
}

/// `DashMap::insert`: the value for `key` becomes `value`.
#[verifier::external_body]
pub(crate) fn ui_sref_lists_insert(m: &mut DashMap<String, Vec<HtmlUiSrefReference>>, key: String, value: Vec<HtmlUiSrefReference>)
    ensures
        ui_sref_lists(*final(m)) == ui_sref_lists(*old(m)).insert(key@, value@),
{
    m.insert(key, value);
}

/// `DashMap::remove`: `key` no longer has a value.
#[verifier::external_body]
pub(crate) fn ui_sref_lists_remove(m: &mut DashMap<String, Vec<HtmlUiSrefReference>>, key: &str)
    ensures
        ui_sref_lists(*final(m)) == ui_sref_lists(*old(m)).remove(key@),
{
    m.remove(key);
}

/// `DashMap::iter`, each entry copied out: every key once with its value, in the map's
/// own order.
#[verifier::external_body]
pub(crate) fn ui_sref_lists_entries(m: &DashMap<String, Vec<HtmlUiSrefReference>>) -> (r: Vec<(String, Vec<HtmlUiSrefReference>)>)
    ensures
        list_snapshot_of(r@, ui_sref_lists(*m)),
{
    m.iter().map(|e| (e.key().clone(), e.value().clone())).collect()
}

/// What a map of component usages by document holds.
pub uninterp spec fn component_usage_lists(m: DashMap<String, Vec<HtmlComponentUsage>>) -> Map<Seq<char>, Seq<HtmlComponentUsage>>;

/// `DashMap::new`: an empty map of component usages by document.
#[verifier::external_body]
pub(crate) fn component_usage_lists_new() -> (r: DashMap<String, Vec<HtmlComponentUsage>>)
    ensures
        component_usage_lists(r) =~= Map::empty(),
{
    DashMap::new()
}

/// `DashMap::get`, the value copied out: the value for `key`, if the map has one.
#[verifier::external_body]
pub(crate) fn component_usage_lists_get(m: &DashMap<String, Vec<HtmlComponentUsage>>, key: &str) -> (r: Option<Vec<HtmlComponentUsage>>)
    ensures
        match r {
            Some(v) => component_usage_lists(*m).contains_key(key@) && v@ == component_usage_lists(*m)[key@],
            None => !component_usage_lists(*m).contains_key(key@),
        },
{
    m.get(key).map(|e| e.value().clone())
}

/// `DashMap::insert`: the value for `key` becomes `value`.
#[verifier::external_body]
pub(crate) fn component_usage_lists_insert(m: &mut DashMap<String, Vec<HtmlComponentUsage>>, key: String, value: Vec<HtmlComponentUsage>)
    ensures
        component_usage_lists(*final(m)) == component_usage_lists(*old(m)).insert(key@, value@),
{
    m.insert(key, value);
}

/// `DashMap::remove`: `key` no longer has a value.
#[verifier::external_body]
pub(crate) fn component_usage_lists_remove(m: &mut DashMap<String, Vec<HtmlComponentUsage>>, key: &str)
    ensures
        component_usage_lists(*final(m)) == component_usage_lists(*old(m)).remove(key@),
{
    m.remove(key);
}

/// `DashMap::iter`, each entry copied out: every key once with its value, in the map's
/// own order.
#[verifier::external_body]
pub(crate) fn component_usage_lists_entries(m: &DashMap<String, Vec<HtmlComponentUsage>>) -> (r: Vec<(String, Vec<HtmlComponentUsage>)>)
    ensures
        list_snapshot_of(r@, component_usage_lists(*m)),
{
    m.iter().map(|e| (e.key().clone(), e.value().clone())).collect()
}

/// What a map of template bindings by key holds.
pub uninterp spec fn template_binding_map(m: DashMap<String, TemplateBinding>) -> Map<Seq<char>, TemplateBinding>;

/// `DashMap::new`: an empty map of template bindings by key.
#[verifier::external_body]
pub(crate) fn template_binding_map_new() -> (r: DashMap<String, TemplateBinding>)
    ensures
        template_binding_map(r) =~= Map::empty(),
{
    DashMap::new()
}

/// `DashMap::get`, the value copied out: the value for `key`, if the map has one.
#[verifier::external_body]
pub(crate) fn template_binding_map_get(m: &DashMap<String, TemplateBinding>, key: &str) -> (r: Option<TemplateBinding>)
    ensures
        match r {
            Some(v) => template_binding_map(*m).contains_key(key@) && v == template_binding_map(*m)[key@],
            None => !template_binding_map(*m).contains_key(key@),
        },
{
    m.get(key).map(|e| e.value().clone())
}

/// `DashMap::insert`: the value for `key` becomes `value`.
#[verifier::external_body]
pub(crate) fn template_binding_map_insert(m: &mut DashMap<String, TemplateBinding>, key: String, value: TemplateBinding)
    ensures
        template_binding_map(*final(m)) == template_binding_map(*old(m)).insert(key@, value),
{
    m.insert(key, value);
}

/// `DashMap::remove`: `key` no longer has a value.
#[verifier::external_body]
pub(crate) fn template_binding_map_remove(m: &mut DashMap<String, TemplateBinding>, key: &str)
    ensures
        template_binding_map(*final(m)) == template_binding_map(*old(m)).remove(key@),
{
    m.remove(key);
}

/// `DashMap::iter`, each entry copied out: every key once with its value, in the map's
/// own order.
#[verifier::external_body]
pub(crate) fn template_binding_map_entries(m: &DashMap<String, TemplateBinding>) -> (r: Vec<(String, TemplateBinding)>)
    ensures
        snapshot_of(r@, template_binding_map(*m)),
{
    m.iter().map(|e| (e.key().clone(), e.value().clone())).collect()
}

/// What a map of ng-include bindings by key holds.
pub uninterp spec fn ng_include_map(m: DashMap<String, NgIncludeBinding>) -> Map<Seq<char>, NgIncludeBinding>;

/// `DashMap::new`: an empty map of ng-include bindings by key.
#[verifier::external_body]
pub(crate) fn ng_include_map_new() -> (r: DashMap<String, NgIncludeBinding>)
    ensures
        ng_include_map(r) =~= Map::empty(),
{
    DashMap::new()
}

/// `DashMap::get`, the value copied out: the value for `key`, if the map has one.
#[verifier::external_body]
pub(crate) fn ng_include_map_get(m: &DashMap<String, NgIncludeBinding>, key: &str) -> (r: Option<NgIncludeBinding>)
    ensures
        match r {
            Some(v) => ng_include_map(*m).contains_key(key@) && v == ng_include_map(*m)[key@],
            None => !ng_include_map(*m).contains_key(key@),
        },
{
    m.get(key).map(|e| e.value().clone())
}

/// `DashMap::insert`: the value for `key` becomes `value`.
#[verifier::external_body]
pub(crate) fn ng_include_map_insert(m: &mut DashMap<String, NgIncludeBinding>, key: String, value: NgIncludeBinding)
    ensures
        ng_include_map(*final(m)) == ng_include_map(*old(m)).insert(key@, value),
{
    m.insert(key, value);
}

/// `DashMap::remove`: `key` no longer has a value.
#[verifier::external_body]
pub(crate) fn ng_include_map_remove(m: &mut DashMap<String, NgIncludeBinding>, key: &str)
    ensures
        ng_include_map(*final(m)) == ng_include_map(*old(m)).remove(key@),
{
    m.remove(key);
}

/// `DashMap::iter`, each entry copied out: every key once with its value, in the map's
/// own order.
#[verifier::external_body]
pub(crate) fn ng_include_map_entries(m: &DashMap<String, NgIncludeBinding>) -> (r: Vec<(String, NgIncludeBinding)>)
    ensures
        snapshot_of(r@, ng_include_map(*m)),
{
    m.iter().map(|e| (e.key().clone(), e.value().clone())).collect()
}

/// What a map of ng-view bindings by parent document holds.
pub uninterp spec fn ng_view_map(m: DashMap<String, NgViewBinding>) -> Map<Seq<char>, NgViewBinding>;

/// `DashMap::new`: an empty map of ng-view bindings by parent document.
#[verifier::external_body]
pub(crate) fn ng_view_map_new() -> (r: DashMap<String, NgViewBinding>)
    ensures
        ng_view_map(r) =~= Map::empty(),
{
    DashMap::new()
}

/// `DashMap::get`, the value copied out: the value for `key`, if the map has one.
#[verifier::external_body]
pub(crate) fn ng_view_map_get(m: &DashMap<String, NgViewBinding>, key: &str) -> (r: Option<NgViewBinding>)
    ensures
        match r {
            Some(v) => ng_view_map(*m).contains_key(key@) && v == ng_view_map(*m)[key@],
            None => !ng_view_map(*m).contains_key(key@),
        },
{
    m.get(key).map(|e| e.value().clone())
}

/// `DashMap::insert`: the value for `key` becomes `value`.
#[verifier::external_body]
pub(crate) fn ng_view_map_insert(m: &mut DashMap<String, NgViewBinding>, key: String, value: NgViewBinding)
    ensures
        ng_view_map(*final(m)) == ng_view_map(*old(m)).insert(key@, value),
{
    m.insert(key, value);
}

/// `DashMap::remove`: `key` no longer has a value.
#[verifier::external_body]
pub(crate) fn ng_view_map_remove(m: &mut DashMap<String, NgViewBinding>, key: &str)
    ensures
        ng_view_map(*final(m)) == ng_view_map(*old(m)).remove(key@),
{
    m.remove(key);
}

/// `DashMap::iter`, each entry copied out: every key once with its value, in the map's
/// own order.
#[verifier::external_body]
pub(crate) fn ng_view_map_entries(m: &DashMap<String, NgViewBinding>) -> (r: Vec<(String, NgViewBinding)>)
    ensures
        snapshot_of(r@, ng_view_map(*m)),
{
    m.iter().map(|e| (e.key().clone(), e.value().clone())).collect()
}

/// What a map of default exports by path holds.
pub uninterp spec fn export_map(m: DashMap<String, ExportInfo>) -> Map<Seq<char>, ExportInfo>;

/// `DashMap::new`: an empty map of default exports by path.
#[verifier::external_body]
pub(crate) fn export_map_new() -> (r: DashMap<String, ExportInfo>)
    ensures
        export_map(r) =~= Map::empty(),
{
    DashMap::new()
}

/// `DashMap::get`, the value copied out: the value for `key`, if the map has one.
#[verifier::external_body]
pub(crate) fn export_map_get(m: &DashMap<String, ExportInfo>, key: &str) -> (r: Option<ExportInfo>)
    ensures
        match r {
            Some(v) => export_map(*m).contains_key(key@) && v == export_map(*m)[key@],
            None => !export_map(*m).contains_key(key@),
        },
{
    m.get(key).map(|e| e.value().clone())
}

/// `DashMap::insert`: the value for `key` becomes `value`.
#[verifier::external_body]
pub(crate) fn export_map_insert(m: &mut DashMap<String, ExportInfo>, key: String, value: ExportInfo)
    ensures
        export_map(*final(m)) == export_map(*old(m)).insert(key@, value),
{
    m.insert(key, value);
}

/// `DashMap::remove`: `key` no longer has a value.
#[verifier::external_body]
pub(crate) fn export_map_remove(m: &mut DashMap<String, ExportInfo>, key: &str)
    ensures
        export_map(*final(m)) == export_map(*old(m)).remove(key@),
{
    m.remove(key);
}

/// `DashMap::iter`, each entry copied out: every key once with its value, in the map's
/// own order.
#[verifier::external_body]
pub(crate) fn export_map_entries(m: &DashMap<String, ExportInfo>) -> (r: Vec<(String, ExportInfo)>)
    ensures
        snapshot_of(r@, export_map(*m)),
{
    m.iter().map(|e| (e.key().clone(), e.value().clone())).collect()
}

/// What a map of exported component objects by path holds.
pub uninterp spec fn exported_object_map(m: DashMap<String, ExportedComponentObject>) -> Map<Seq<char>, ExportedComponentObject>;

/// `DashMap::new`: an empty map of exported component objects by path.
#[verifier::external_body]
pub(crate) fn exported_object_map_new() -> (r: DashMap<String, ExportedComponentObject>)
    ensures
        exported_object_map(r) =~= Map::empty(),
{
    DashMap::new()
}

/// `DashMap::get`, the value copied out: the value for `key`, if the map has one.
#[verifier::external_body]
pub(crate) fn exported_object_map_get(m: &DashMap<String, ExportedComponentObject>, key: &str) -> (r: Option<ExportedComponentObject>)
    ensures
        match r {
            Some(v) => exported_object_map(*m).contains_key(key@) && v == exported_object_map(*m)[key@],
            None => !exported_object_map(*m).contains_key(key@),
        },
{
    m.get(key).map(|e| e.value().clone())
}

/// `DashMap::insert`: the value for `key` becomes `value`.
#[verifier::external_body]
pub(crate) fn exported_object_map_insert(m: &mut DashMap<String, ExportedComponentObject>, key: String, value: ExportedComponentObject)
    ensures
        exported_object_map(*final(m)) == exported_object_map(*old(m)).insert(key@, value),
{
    m.insert(key, value);
}

/// `DashMap::remove`: `key` no longer has a value.
#[verifier::external_body]
pub(crate) fn exported_object_map_remove(m: &mut DashMap<String, ExportedComponentObject>, key: &str)
    ensures
        exported_object_map(*final(m)) == exported_object_map(*old(m)).remove(key@),
{
    m.remove(key);
}

/// `DashMap::iter`, each entry copied out: every key once with its value, in the map's
/// own order.
#[verifier::external_body]
pub(crate) fn exported_object_map_entries(m: &DashMap<String, ExportedComponentObject>) -> (r: Vec<(String, ExportedComponentObject)>)
    ensures
        snapshot_of(r@, exported_object_map(*m)),
{
    m.iter().map(|e| (e.key().clone(), e.value().clone())).collect()
}

/// What a map of imports (identifier, source path) by document holds.
pub uninterp spec fn import_lists(m: DashMap<String, Vec<(String, String)>>) -> Map<Seq<char>, Seq<(String, String)>>;

/// `DashMap::new`: an empty map of imports (identifier, source path) by document.
#[verifier::external_body]
pub(crate) fn import_lists_new() -> (r: DashMap<String, Vec<(String, String)>>)
    ensures
        import_lists(r) =~= Map::empty(),
{
    DashMap::new()
}

/// `DashMap::get`, the value copied out: the value for `key`, if the map has one.
#[verifier::external_body]
pub(crate) fn import_lists_get(m: &DashMap<String, Vec<(String, String)>>, key: &str) -> (r: Option<Vec<(String, String)>>)
    ensures
        match r {
            Some(v) => import_lists(*m).contains_key(key@) && v@ == import_lists(*m)[key@],
            None => !import_lists(*m).contains_key(key@),
        },
{
    m.get(key).map(|e| e.value().clone())
}

/// `DashMap::insert`: the value for `key` becomes `value`.
#[verifier::external_body]
pub(crate) fn import_lists_insert(m: &mut DashMap<String, Vec<(String, String)>>, key: String, value: Vec<(String, String)>)
    ensures
        import_lists(*final(m)) == import_lists(*old(m)).insert(key@, value@),
{
    m.insert(key, value);
}

/// `DashMap::remove`: `key` no longer has a value.
#[verifier::external_body]
pub(crate) fn import_lists_remove(m: &mut DashMap<String, Vec<(String, String)>>, key: &str)
    ensures
        import_lists(*final(m)) == import_lists(*old(m)).remove(key@),
{
    m.remove(key);
}

/// `DashMap::iter`, each entry copied out: every key once with its value, in the map's
/// own order.
#[verifier::external_body]
pub(crate) fn import_lists_entries(m: &DashMap<String, Vec<(String, String)>>) -> (r: Vec<(String, Vec<(String, String)>)>)
    ensures
        list_snapshot_of(r@, import_lists(*m)),
{
    m.iter().map(|e| (e.key().clone(), e.value().clone())).collect()
}

} // verus!
