//! ES6 exports and imports of components.
use vstd::prelude::*;

use crate::index::snapshot::list_at;
use crate::index::tables::{
    export_map, export_map_entries, export_map_get, export_map_insert, export_map_new,
    export_map_remove, exported_object_map, exported_object_map_entries, exported_object_map_get,
    exported_object_map_insert, exported_object_map_new, exported_object_map_remove,
    import_lists, import_lists_entries, import_lists_get, import_lists_insert, import_lists_new,
    import_lists_remove, list_snapshot_of, snapshot_of,
};
use crate::model::{ExportInfo, ExportedComponentObject};
use crate::text::{chars_of, ends_with, str_eq, string_from_chars};
use crate::uri::{path_of, uri_path};

verus! {

/// The identifier mapping of a document's imports: later imports of an identifier win.
pub open spec fn import_map(s: Seq<(String, String)>) -> Map<Seq<char>, Seq<char>>
    decreases s.len(),
{
    if s.len() == 0 { Map::empty() } else { import_map(s.drop_last()).insert(s.last().0@, s.last().1@) }
}

/// `s` with every trailing `.js` removed.
pub open spec fn trim_js(s: Seq<char>) -> Seq<char>
    decreases s.len(),
{
    if s.len() >= 3 && s.skip(s.len() - 3) == ".js"@ { trim_js(s.take(s.len() - 3)) } else { s }
}

/// The exported object at `j` is what the import at `i` of identifier `ident` names.
pub open spec fn import_matches(
    imports: Seq<(String, Vec<(String, String)>)>,
    objects: Seq<(String, ExportedComponentObject)>,
    ident: Seq<char>,
    i: int,
    j: int,
) -> bool {
    &&& 0 <= i < imports.len()
    &&& 0 <= j < objects.len()
    &&& import_map(imports[i].1@).contains_key(ident)
    &&& ends_with(trim_js(objects[j].0@), trim_js(import_map(imports[i].1@)[ident]))
}

/// `(i, j)` is the first match: imports in order, and within an import the objects in order.
pub open spec fn is_first_import_match(
    imports: Seq<(String, Vec<(String, String)>)>,
    objects: Seq<(String, ExportedComponentObject)>,
    ident: Seq<char>,
    i: int,
    j: int,
) -> bool {
    &&& import_matches(imports, objects, ident, i, j)
    &&& forall|a: int, b: int| 0 <= a < imports.len() && 0 <= b < objects.len() && (a < i || (a == i && b < j))
        ==> !import_matches(imports, objects, ident, a, b)
}

/// Exports, exported component objects and imports.
pub struct ExportStore {
    exports: dashmap::DashMap<String, ExportInfo>,
    exported_component_objects: dashmap::DashMap<String, ExportedComponentObject>,
    imports: dashmap::DashMap<String, Vec<(String, String)>>,
}

impl ExportStore {
    /// `export default` components by document path.
    pub closed spec fn export_view(&self) -> Map<Seq<char>, ExportInfo> {
        export_map(self.exports)
    }

    /// Exported component objects by document path.
    pub closed spec fn object_view(&self) -> Map<Seq<char>, ExportedComponentObject> {
        exported_object_map(self.exported_component_objects)
    }

    /// The imports of each document, in the order added.
    pub closed spec fn import_view(&self) -> Map<Seq<char>, Seq<(String, String)>> {
        import_lists(self.imports)
    }

    pub fn new() -> (r: Self)
        ensures
            r.export_view() =~= Map::empty(),
            r.object_view() =~= Map::empty(),
            r.import_view() =~= Map::empty(),
    {
        ExportStore {
            exports: export_map_new(),
            exported_component_objects: exported_object_map_new(),
            imports: import_lists_new(),
        }
    }

    /// Records `export_info` under the path of its document.
    pub fn add_export(&mut self, export_info: ExportInfo)
        ensures
            final(self).export_view() == old(self).export_view().insert(path_of(export_info.uri@), export_info),
            final(self).object_view() == old(self).object_view(),
            final(self).import_view() == old(self).import_view(),
    {
        let path = uri_path(&export_info.uri);
        export_map_insert(&mut self.exports, path, export_info);
    }

    /// The export recorded for the path of `uri`.
    pub fn get_export(&self, uri: &str) -> (r: Option<ExportInfo>)
        ensures
            r == self.export_view().get(path_of(uri@)),
    {
        let path = uri_path(uri);
        export_map_get(&self.exports, &path)
    }

    /// Every export, in the map's own order.
    pub fn get_all_exports(&self) -> (r: Vec<ExportInfo>)
        ensures
            exists|e: Seq<(String, ExportInfo)>| snapshot_of(e, self.export_view())
                && r@ == e.map_values(|p: (String, ExportInfo)| p.1),
    {
        let entries = export_map_entries(&self.exports);
        let ghost e = entries@;
        let mut rest = entries;
        let mut r: Vec<ExportInfo> = Vec::new();
        while rest.len() > 0
            invariant
                rest@.len() <= e.len(),
                rest@ == e.skip(e.len() - rest@.len()),
                r@ == e.take(e.len() - rest@.len()).map_values(|p: (String, ExportInfo)| p.1),
            decreases rest.len(),
        {
            let ghost k = e.len() - rest@.len();
            let (_path, info) = rest.remove(0);
            proof { assert(rest@ =~= e.skip(k + 1)); }
            r.push(info);
            proof {
                assert(e.take(k + 1).map_values(|p: (String, ExportInfo)| p.1)
                    =~= e.take(k).map_values(|p: (String, ExportInfo)| p.1).push(e[k].1));
            }
        }
        proof {
            assert(e.take(e.len() as int) =~= e);
            assert(snapshot_of(e, self.export_view()));
        }
        r
    }

    /// Records `obj` under the path of its document.
    pub fn add_exported_component_object(&mut self, obj: ExportedComponentObject)
        ensures
            final(self).object_view() == old(self).object_view().insert(path_of(obj.uri@), obj),
            final(self).export_view() == old(self).export_view(),
            final(self).import_view() == old(self).import_view(),
    {
        let path = uri_path(&obj.uri);
        exported_object_map_insert(&mut self.exported_component_objects, path, obj);
    }

    /// The exported component object recorded for the path of `uri`.
    pub fn get_exported_component_object(&self, uri: &str) -> (r: Option<ExportedComponentObject>)
        ensures
            r == self.object_view().get(path_of(uri@)),
    {
        let path = uri_path(uri);
        exported_object_map_get(&self.exported_component_objects, &path)
    }

    /// Every exported component object, in the map's own order.
    pub fn get_all_exported_component_objects(&self) -> (r: Vec<ExportedComponentObject>)
        ensures
            exists|e: Seq<(String, ExportedComponentObject)>| snapshot_of(e, self.object_view())
                && r@ == e.map_values(|p: (String, ExportedComponentObject)| p.1),
    {
        let entries = exported_object_map_entries(&self.exported_component_objects);
        let mut r: Vec<ExportedComponentObject> = Vec::new();
        let mut i: usize = 0;
        while i < entries.len()
            invariant
                i <= entries@.len(),
                r@ == entries@.take(i as int).map_values(|p: (String, ExportedComponentObject)| p.1),
            decreases entries.len() - i,
        {
            r.push(entries[i].1.clone());
            proof {
                assert(entries@.take(i + 1).map_values(|p: (String, ExportedComponentObject)| p.1)
                    =~= entries@.take(i as int).map_values(|p: (String, ExportedComponentObject)| p.1).push(entries@[i as int].1));
            }
            i += 1;
        }
        proof {
            assert(entries@.take(i as int) =~= entries@);
            assert(snapshot_of(entries@, self.object_view()));
        }
        r
    }

    /// Records that `uri` imports `identifier` from `import_path`.
    pub fn add_import(&mut self, uri: &str, identifier: String, import_path: String)
        ensures
            final(self).import_view() == old(self).import_view().insert(uri@,
                list_at(old(self).import_view(), uri@).push((identifier, import_path))),
            import_map(list_at(final(self).import_view(), uri@))
                == import_map(list_at(old(self).import_view(), uri@)).insert(identifier@, import_path@),
            final(self).export_view() == old(self).export_view(),
            final(self).object_view() == old(self).object_view(),
    {
        let mut list = match import_lists_get(&self.imports, uri) {
            Some(v) => v,
            None => Vec::new(),
        };
        let ghost before = list@;
        list.push((identifier, import_path));
        proof { assert(list@.drop_last() =~= before); }
        import_lists_insert(&mut self.imports, uri.to_owned(), list);
    }

    /// Where `identifier` is imported from in `uri`.
    pub fn get_import_path(&self, uri: &str, identifier: &str) -> (r: Option<String>)
        ensures
            match r {
                Some(p) => import_map(list_at(self.import_view(), uri@)).get(identifier@) == Some(p@),
                None => !import_map(list_at(self.import_view(), uri@)).contains_key(identifier@),
            },
    {
        match import_lists_get(&self.imports, uri) {
            Some(list) => lookup_import(&list, identifier),
            None => None,
        }
    }

    /// The name of the exported component object that an import of `identifier` names:
    /// imports taken document by document, and for each the objects in the map's own
    /// order, the first object whose path, less its trailing `.js`s, ends with the
    /// import's path less its trailing `.js`s.
    pub fn get_exported_component_name(&self, identifier: &str) -> (r: Option<String>)
        ensures
            exists|ei: Seq<(String, Vec<(String, String)>)>, eo: Seq<(String, ExportedComponentObject)>|
                list_snapshot_of(ei, self.import_view()) && snapshot_of(eo, self.object_view()) && match r {
                    Some(n) => exists|i: int, j: int| is_first_import_match(ei, eo, identifier@, i, j) && eo[j].1.name@ == n@,
                    None => forall|i: int, j: int| !import_matches(ei, eo, identifier@, i, j),
                },
    {
        let imports = import_lists_entries(&self.imports);
        let objects = exported_object_map_entries(&self.exported_component_objects);
        let mut i: usize = 0;
        while i < imports.len()
            invariant
                i <= imports@.len(),
                list_snapshot_of(imports@, self.import_view()),
                snapshot_of(objects@, self.object_view()),
                forall|a: int, b: int| 0 <= a < i && 0 <= b < objects@.len() ==> !import_matches(imports@, objects@, identifier@, a, b),
            decreases imports.len() - i,
        {
            match lookup_import(&imports[i].1, identifier) {
                Some(import_path) => {
                    let wanted = trim_js_suffix(&import_path);
                    let mut j: usize = 0;
                    while j < objects.len()
                        invariant
                            i < imports@.len(),
                            j <= objects@.len(),
                            list_snapshot_of(imports@, self.import_view()),
                            snapshot_of(objects@, self.object_view()),
                            import_map(imports@[i as int].1@).get(identifier@) == Some(import_path@),
                            wanted@ == trim_js(import_path@),
                            forall|a: int, b: int| 0 <= a < i && 0 <= b < objects@.len() ==> !import_matches(imports@, objects@, identifier@, a, b),
                            forall|b: int| 0 <= b < j ==> !import_matches(imports@, objects@, identifier@, i as int, b),
                        decreases objects.len() - j,
                    {
                        let obj_path = trim_js_suffix(&objects[j].0);
                        if crate::text::str_ends_with(&obj_path, &wanted) {
                            proof {
                                assert(import_matches(imports@, objects@, identifier@, i as int, j as int));
                                assert(is_first_import_match(imports@, objects@, identifier@, i as int, j as int));
                            }
                            return Some(objects[j].1.name.clone());
                        }
                        j += 1;
                    }
                },
                None => {},
            }
            i += 1;
        }
        proof {
            assert(list_snapshot_of(imports@, self.import_view()) && snapshot_of(objects@, self.object_view()));
            assert forall|a: int, b: int| !import_matches(imports@, objects@, identifier@, a, b) by {
                if 0 <= a < imports@.len() && 0 <= b < objects@.len() {
                }
            }
        }
        None
    }

    /// Drops what `uri` recorded.
    pub fn clear_document(&mut self, uri: &str)
        ensures
            final(self).export_view() == old(self).export_view().remove(path_of(uri@)),
            final(self).object_view() == old(self).object_view().remove(path_of(uri@)),
            final(self).import_view() == old(self).import_view().remove(uri@),
    {
        let path = uri_path(uri);
        export_map_remove(&mut self.exports, &path);
        exported_object_map_remove(&mut self.exported_component_objects, &path);
        import_lists_remove(&mut self.imports, uri);
    }

    pub fn clear_all(&mut self)
        ensures
            final(self).export_view() =~= Map::empty(),
            final(self).object_view() =~= Map::empty(),
            final(self).import_view() =~= Map::empty(),
    {
        self.exports = export_map_new();
        self.exported_component_objects = exported_object_map_new();
        self.imports = import_lists_new();
    }
}

/// Where `identifier` is imported from, by the last import of it in `list`.
fn lookup_import(list: &Vec<(String, String)>, identifier: &str) -> (r: Option<String>)
    ensures
        match r {
            Some(p) => import_map(list@).get(identifier@) == Some(p@),
            None => !import_map(list@).contains_key(identifier@),
        },
{
    let mut i: usize = list.len();
    proof { assert(list@.take(i as int) =~= list@); }
    while i > 0
        invariant
            i <= list@.len(),
            forall|j: int| i <= j < list@.len() ==> (#[trigger] list@[j]).0@ != identifier@,
            import_map(list@).contains_key(identifier@) == import_map(list@.take(i as int)).contains_key(identifier@),
            import_map(list@).contains_key(identifier@) ==> import_map(list@)[identifier@] == import_map(list@.take(i as int))[identifier@],
        decreases i,
    {
        proof { assert(list@.take(i as int).drop_last() =~= list@.take(i - 1)); }
        if str_eq(&list[i - 1].0, identifier) {
            return Some(list[i - 1].1.clone());
        }
        i -= 1;
    }
    proof { assert(import_map(list@.take(0)) =~= Map::empty()); }
    None
}

/// `s` with every trailing `.js` removed.
fn trim_js_suffix(s: &str) -> (r: String)
    ensures
        r@ == trim_js(s@),
{
    let cs = chars_of(s);
    let mut end: usize = cs.len();
    proof { assert(cs@.take(end as int) =~= s@); }
    while end >= 3 && cs[end - 3] == '.' && cs[end - 2] == 'j' && cs[end - 1] == 's'
        invariant
            end <= cs@.len(),
            cs@ == s@,
            trim_js(cs@.take(end as int)) == trim_js(s@),
        decreases end,
    {
        proof {
            reveal_strlit(".js");
            let t = cs@.take(end as int);
            assert(t.skip(t.len() - 3) =~= ".js"@);
            assert(t.take(t.len() - 3) =~= cs@.take(end - 3));
        }
        end -= 3;
    }
    proof {
        reveal_strlit(".js");
        let t = cs@.take(end as int);
        if t.len() >= 3 && t.skip(t.len() - 3) == ".js"@ {
            assert(t.skip(t.len() - 3)[0] == '.' && t.skip(t.len() - 3)[1] == 'j' && t.skip(t.len() - 3)[2] == 's');
            assert(cs@[end - 3] == '.' && cs@[end - 2] == 'j' && cs@[end - 1] == 's');
        }
        assert(trim_js(t) == t);
    }
    string_from_chars(&cs, 0, end)
}

} // verus!
