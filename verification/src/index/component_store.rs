//! Component `templateUrl`s: by the script that declares them, and by the normalised
//! template path they point to.
use vstd::prelude::*;

use crate::index::snapshot::list_at;
use crate::index::tables::{
    snapshot_of, template_url_lists, template_url_lists_get, template_url_lists_insert,
    template_url_lists_new, template_url_lists_remove, template_url_map, template_url_map_entries,
    template_url_map_insert, template_url_map_new, template_url_map_remove,
};
use crate::model::ComponentTemplateUrl;
use crate::text::{ends_with, str_ends_with, str_eq};
use crate::uri::{path_of, uri_path};
use crate::util::{normalize_template_path, normalized_template_path};

verus! {

/// `i` is the first entry of a snapshot whose key ends `path`.
pub open spec fn is_first_suffix_key<V>(e: Seq<(String, V)>, path: Seq<char>, i: int) -> bool {
    &&& 0 <= i < e.len()
    &&& ends_with(path, e[i].0@)
    &&& forall|j: int| 0 <= j < i ==> !ends_with(path, (#[trigger] e[j]).0@)
}

/// The bindings map after the script's template URLs `ts` are removed from it.
pub open spec fn without_paths(m: Map<Seq<char>, ComponentTemplateUrl>, ts: Seq<ComponentTemplateUrl>) -> Map<Seq<char>, ComponentTemplateUrl>
    decreases ts.len(),
{
    if ts.len() == 0 {
        m
    } else {
        without_paths(m, ts.drop_last()).remove(normalized_template_path(ts.last().template_path@))
    }
}

/// Component template URLs by declaring script and by template path.
pub struct ComponentStore {
    component_template_urls: dashmap::DashMap<String, Vec<ComponentTemplateUrl>>,
    component_template_bindings: dashmap::DashMap<String, ComponentTemplateUrl>,
}

impl ComponentStore {
    /// Template URLs by declaring script, in the order added.
    pub closed spec fn urls(&self) -> Map<Seq<char>, Seq<ComponentTemplateUrl>> {
        template_url_lists(self.component_template_urls)
    }

    /// Template URLs by normalised template path (the last one added for a path).
    pub closed spec fn bindings(&self) -> Map<Seq<char>, ComponentTemplateUrl> {
        template_url_map(self.component_template_bindings)
    }

    pub fn new() -> (r: Self)
        ensures
            r.urls() =~= Map::empty(),
            r.bindings() =~= Map::empty(),
    {
        ComponentStore {
            component_template_urls: template_url_lists_new(),
            component_template_bindings: template_url_map_new(),
        }
    }

    /// `b` is the binding `get_component_binding_for_template` gives for the template `uri`:
    /// the first binding, in the map's own order, whose path ends the document's path.
    pub open spec fn binding_for_template_is(&self, uri: Seq<char>, b: Option<ComponentTemplateUrl>) -> bool {
        exists|e: Seq<(String, ComponentTemplateUrl)>| snapshot_of(e, self.bindings()) && match b {
            Some(t) => exists|i: int| is_first_suffix_key(e, path_of(uri), i) && e[i].1 == t,
            None => forall|j: int| 0 <= j < e.len() ==> !ends_with(path_of(uri), (#[trigger] e[j]).0@),
        }
    }

    /// Records `template_url` under its normalised path and under its script.
    pub fn add_component_template_url(&mut self, template_url: ComponentTemplateUrl)
        ensures
            final(self).bindings() == old(self).bindings().insert(
                normalized_template_path(template_url.template_path@), template_url),
            final(self).urls() == old(self).urls().insert(template_url.uri@,
                list_at(old(self).urls(), template_url.uri@).push(template_url)),
    {
        let uri = template_url.uri.clone();
        let path = normalize_template_path(&template_url.template_path);
        template_url_map_insert(&mut self.component_template_bindings, path, template_url.clone());
        let mut list = self.get_component_template_urls(&uri);
        list.push(template_url);
        template_url_lists_insert(&mut self.component_template_urls, uri, list);
    }

    /// The template URLs declared by `uri`, in the order added.
    pub fn get_component_template_urls(&self, uri: &str) -> (r: Vec<ComponentTemplateUrl>)
        ensures
            r@ == list_at(self.urls(), uri@),
    {
        match template_url_lists_get(&self.component_template_urls, uri) {
            Some(v) => v,
            None => Vec::new(),
        }
    }

    /// The component whose template is `uri`: the first binding, in the map's own order,
    /// whose normalised path ends the path of `uri`.
    pub fn get_component_binding_for_template(&self, uri: &str) -> (r: Option<ComponentTemplateUrl>)
        ensures
            self.binding_for_template_is(uri@, r),
    {
        let path = uri_path(uri);
        let entries = template_url_map_entries(&self.component_template_bindings);
        let mut i: usize = 0;
        while i < entries.len()
            invariant
                i <= entries@.len(),
                path@ == path_of(uri@),
                snapshot_of(entries@, self.bindings()),
                forall|j: int| 0 <= j < i ==> !ends_with(path@, (#[trigger] entries@[j]).0@),
            decreases entries.len() - i,
        {
            if str_ends_with(&path, &entries[i].0) {
                let t = entries[i].1.clone();
                proof { assert(is_first_suffix_key(entries@, path_of(uri@), i as int)); }
                return Some(t);
            }
            i += 1;
        }
        None
    }

    /// The controller of the component whose template is `uri`, when `alias` is its
    /// `controllerAs` name and the controller is given by name.
    pub fn resolve_component_controller_by_alias(&self, uri: &str, alias: &str) -> (r: Option<String>)
        ensures
            exists|b: Option<ComponentTemplateUrl>| self.binding_for_template_is(uri@, b) && r == match b {
                Some(t) => if t.controller_as@ == alias@ { t.controller_name } else { None },
                None => None,
            },
    {
        match self.get_component_binding_for_template(uri) {
            Some(binding) => {
                if str_eq(&binding.controller_as, alias) {
                    binding.controller_name
                } else {
                    None
                }
            },
            None => None,
        }
    }

    /// Drops the template URLs declared by `uri` and their bindings by path.
    pub fn clear_document(&mut self, uri: &str)
        ensures
            final(self).bindings() == without_paths(old(self).bindings(), list_at(old(self).urls(), uri@)),
            final(self).urls() == old(self).urls().remove(uri@),
    {
        let templates = self.get_component_template_urls(uri);
        let ghost b0 = self.bindings();
        let mut i: usize = 0;
        while i < templates.len()
            invariant
                i <= templates@.len(),
                self.bindings() == without_paths(b0, templates@.take(i as int)),
                self.urls() == old(self).urls(),
                b0 == old(self).bindings(),
            decreases templates.len() - i,
        {
            proof { assert(templates@.take(i + 1).drop_last() =~= templates@.take(i as int)); }
            let path = normalize_template_path(&templates[i].template_path);
            template_url_map_remove(&mut self.component_template_bindings, &path);
            i += 1;
        }
        proof { assert(templates@.take(i as int) =~= templates@); }
        template_url_lists_remove(&mut self.component_template_urls, uri);
    }

    pub fn clear_all(&mut self)
        ensures
            final(self).urls() =~= Map::empty(),
            final(self).bindings() =~= Map::empty(),
    {
        self.component_template_urls = template_url_lists_new();
        self.component_template_bindings = template_url_map_new();
    }
}

} // verus!
