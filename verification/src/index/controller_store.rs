//! Controller scopes: the controllers' bodies in scripts, and the `ng-controller`
//! elements of templates with the lines they cover.
use vstd::prelude::*;

use crate::index::snapshot::{flatten, flatten_entries, lemma_with_name_contains, list_at, with_name};
use crate::index::tables::{
    controller_scope_lists, controller_scope_lists_entries, controller_scope_lists_get,
    controller_scope_lists_insert, controller_scope_lists_new, controller_scope_lists_remove,
    html_controller_scope_lists, html_controller_scope_lists_entries,
    html_controller_scope_lists_get, html_controller_scope_lists_insert,
    html_controller_scope_lists_new, html_controller_scope_lists_remove, list_snapshot_of,
};
use crate::model::{ControllerScope, HtmlControllerScope};
use crate::text::{str_eq, views};
use crate::uri::{path_of, uri_path};

verus! {

/// A script controller's body covers `line`.
pub open spec fn covers(s: ControllerScope, line: int) -> bool {
    s.start_line <= line <= s.end_line
}

/// A template controller scope covers `line`.
pub open spec fn html_covers(s: HtmlControllerScope, line: int) -> bool {
    s.start_line <= line <= s.end_line
}

/// `i` is the first scope of `s` that covers `line`.
pub open spec fn is_first_covering(s: Seq<ControllerScope>, line: int, i: int) -> bool {
    &&& 0 <= i < s.len()
    &&& covers(s[i], line)
    &&& forall|j: int| 0 <= j < i ==> !covers(#[trigger] s[j], line)
}

/// A template scope covers `line` and, when `alias` is given, is written with that alias.
pub open spec fn eligible(s: HtmlControllerScope, line: int, alias: Option<Seq<char>>) -> bool {
    &&& html_covers(s, line)
    &&& match alias {
        None => true,
        Some(a) => s.alias is Some && s.alias.unwrap()@ == a,
    }
}

/// The innermost eligible scope, taken in order: the first eligible scope, replaced by
/// each later eligible scope that lies within the one held.
pub open spec fn innermost(s: Seq<HtmlControllerScope>, line: int, alias: Option<Seq<char>>) -> Option<HtmlControllerScope>
    decreases s.len(),
{
    if s.len() == 0 {
        None
    } else {
        let held = innermost(s.drop_last(), line, alias);
        let x = s.last();
        if eligible(x, line, alias) {
            match held {
                None => Some(x),
                Some(c) => if x.start_line >= c.start_line && x.end_line <= c.end_line { Some(x) } else { Some(c) },
            }
        } else {
            held
        }
    }
}

/// The scopes of `s` that cover `line`, in order.
pub open spec fn covering(s: Seq<HtmlControllerScope>, line: int) -> Seq<HtmlControllerScope>
    decreases s.len(),
{
    if s.len() == 0 {
        Seq::empty()
    } else {
        let rest = covering(s.drop_last(), line);
        if html_covers(s.last(), line) { rest.push(s.last()) } else { rest }
    }
}

/// `a` comes strictly before `b`: it starts earlier, or starts on the same line and
/// ends later (outer scopes first).
pub open spec fn scope_before(a: HtmlControllerScope, b: HtmlControllerScope) -> bool {
    a.start_line < b.start_line || (a.start_line == b.start_line && a.end_line > b.end_line)
}

/// The controllers of template scopes at `line` of `s`, outermost first.
pub open spec fn local_controllers(s: Seq<HtmlControllerScope>, line: int) -> Seq<Seq<char>> {
    sort_scopes(covering(s, line)).map_values(|x: HtmlControllerScope| x.controller_name@)
}

/// `x` inserted into `s` before the first element that `x` comes strictly before.
pub open spec fn insert_scope(s: Seq<HtmlControllerScope>, x: HtmlControllerScope) -> Seq<HtmlControllerScope>
    decreases s.len(),
{
    if s.len() == 0 {
        seq![x]
    } else if scope_before(x, s.last()) {
        insert_scope(s.drop_last(), x).push(s.last())
    } else {
        s.push(x)
    }
}

/// `s` in scope order, elements that neither comes before keeping their order.
pub open spec fn sort_scopes(s: Seq<HtmlControllerScope>) -> Seq<HtmlControllerScope>
    decreases s.len(),
{
    if s.len() == 0 { Seq::empty() } else { insert_scope(sort_scopes(s.drop_last()), s.last()) }
}

/// The alias mapping of the scopes covering `line`: each alias to the controller of the
/// last covering scope written with it.
pub open spec fn alias_map(s: Seq<HtmlControllerScope>, line: int) -> Map<Seq<char>, Seq<char>>
    decreases s.len(),
{
    if s.len() == 0 {
        Map::empty()
    } else {
        let rest = alias_map(s.drop_last(), line);
        let x = s.last();
        if html_covers(x, line) && x.alias is Some {
            rest.insert(x.alias.unwrap()@, x.controller_name@)
        } else {
            rest
        }
    }
}

/// Some scope of `s` belongs to the controller `c`.
pub open spec fn has_controller(s: Seq<HtmlControllerScope>, c: Seq<char>) -> bool {
    exists|i: int| 0 <= i < s.len() && (#[trigger] s[i]).controller_name@ == c
}

/// The paths of the templates of a snapshot with a scope of controller `c`, each once,
/// in snapshot order.
pub open spec fn template_paths_for(e: Seq<(String, Vec<HtmlControllerScope>)>, c: Seq<char>) -> Seq<Seq<char>>
    decreases e.len(),
{
    if e.len() == 0 {
        Seq::empty()
    } else {
        let rest = template_paths_for(e.drop_last(), c);
        if has_controller(e.last().1@, c) { with_name(rest, path_of(e.last().0@)) } else { rest }
    }
}

/// Controller scopes of scripts and templates, by document.
pub struct ControllerStore {
    controller_scopes: dashmap::DashMap<String, Vec<ControllerScope>>,
    html_controller_scopes: dashmap::DashMap<String, Vec<HtmlControllerScope>>,
}

impl ControllerStore {
    /// Script controller scopes by document, in the order added.
    pub closed spec fn scopes(&self) -> Map<Seq<char>, Seq<ControllerScope>> {
        controller_scope_lists(self.controller_scopes)
    }

    /// Template controller scopes by document, in the order added.
    pub closed spec fn html_scopes(&self) -> Map<Seq<char>, Seq<HtmlControllerScope>> {
        html_controller_scope_lists(self.html_controller_scopes)
    }

    pub fn new() -> (r: Self)
        ensures
            r.scopes() =~= Map::empty(),
            r.html_scopes() =~= Map::empty(),
    {
        ControllerStore {
            controller_scopes: controller_scope_lists_new(),
            html_controller_scopes: html_controller_scope_lists_new(),
        }
    }

    /// Appends `scope` to the script scopes of its document.
    pub fn add_controller_scope(&mut self, scope: ControllerScope)
        ensures
            final(self).html_scopes() == old(self).html_scopes(),
            final(self).scopes() == old(self).scopes().insert(scope.uri@, list_at(old(self).scopes(), scope.uri@).push(scope)),
    {
        let uri = scope.uri.clone();
        let mut list = self.get_controller_scopes(&uri);
        list.push(scope);
        controller_scope_lists_insert(&mut self.controller_scopes, uri, list);
    }

    /// The script scopes of `uri`, in the order added.
    pub fn get_controller_scopes(&self, uri: &str) -> (r: Vec<ControllerScope>)
        ensures
            r@ == list_at(self.scopes(), uri@),
    {
        match controller_scope_lists_get(&self.controller_scopes, uri) {
            Some(v) => v,
            None => Vec::new(),
        }
    }

    /// Where in `uri`'s script scopes the first one covering `line` stands.
    fn first_covering(&self, uri: &str, line: u32) -> (r: (Vec<ControllerScope>, Option<usize>))
        ensures
            r.0@ == list_at(self.scopes(), uri@),
            match r.1 {
                Some(i) => is_first_covering(r.0@, line as int, i as int),
                None => forall|j: int| 0 <= j < r.0@.len() ==> !covers(#[trigger] r.0@[j], line as int),
            },
    {
        let scopes = self.get_controller_scopes(uri);
        let mut i: usize = 0;
        while i < scopes.len()
            invariant
                i <= scopes@.len(),
                scopes@ == list_at(self.scopes(), uri@),
                forall|j: int| 0 <= j < i ==> !covers(#[trigger] scopes@[j], line as int),
            decreases scopes.len() - i,
        {
            if line >= scopes[i].start_line && line <= scopes[i].end_line {
                return (scopes, Some(i));
            }
            i += 1;
        }
        (scopes, None)
    }

    /// The controller whose script body covers `line` (the first such scope of `uri`).
    pub fn get_controller_at(&self, uri: &str, line: u32) -> (r: Option<String>)
        ensures
            match r {
                Some(n) => exists|i: int| is_first_covering(list_at(self.scopes(), uri@), line as int, i)
                    && list_at(self.scopes(), uri@)[i].name@ == n@,
                None => forall|j: int| 0 <= j < list_at(self.scopes(), uri@).len()
                    ==> !covers(#[trigger] list_at(self.scopes(), uri@)[j], line as int),
            },
    {
        let (scopes, found) = self.first_covering(uri, line);
        match found {
            Some(i) => Some(scopes[i].name.clone()),
            None => None,
        }
    }

    /// The services injected into the controller whose script body covers `line`; none
    /// when no scope of `uri` does.
    pub fn get_injected_services_at(&self, uri: &str, line: u32) -> (r: Vec<String>)
        ensures
            (exists|i: int| is_first_covering(list_at(self.scopes(), uri@), line as int, i)
                && r@ == list_at(self.scopes(), uri@)[i].injected_services@)
            || ((forall|j: int| 0 <= j < list_at(self.scopes(), uri@).len()
                ==> !covers(#[trigger] list_at(self.scopes(), uri@)[j], line as int)) && r@.len() == 0),
    {
        let (scopes, found) = self.first_covering(uri, line);
        match found {
            Some(i) => {
                let r = scopes[i].injected_services.clone();
                proof { assert(r@ =~= scopes@[i as int].injected_services@); }
                r
            },
            None => Vec::new(),
        }
    }

    /// Every script scope; documents in the map's own order, each document's scopes in
    /// the order added.
    pub fn get_all_controller_scopes(&self) -> (r: Vec<ControllerScope>)
        ensures
            exists|e: Seq<(String, Vec<ControllerScope>)>| list_snapshot_of(e, self.scopes()) && r@ == flatten(e),
    {
        let entries = controller_scope_lists_entries(&self.controller_scopes);
        let ghost e = entries@;
        let r = flatten_entries(entries);
        proof { assert(list_snapshot_of(e, self.scopes())); }
        r
    }

    /// `r` is every script scope of the controller `name`: documents in the map's own
    /// order, each document's scopes in the order added.
    pub open spec fn scopes_by_name_are(&self, name: Seq<char>, r: Seq<ControllerScope>) -> bool {
        exists|e: Seq<(String, Vec<ControllerScope>)>| list_snapshot_of(e, self.scopes())
            && r == flatten(e).filter(|s: ControllerScope| s.name@ == name)
    }

    /// The script scopes of the controller `name`.
    pub fn get_controller_scopes_by_name(&self, name: &str) -> (r: Vec<ControllerScope>)
        ensures
            self.scopes_by_name_are(name@, r@),
    {
        let entries = controller_scope_lists_entries(&self.controller_scopes);
        let ghost e = entries@;
        let all = flatten_entries(entries);
        let ghost whole = all@;
        let mut rest = all;
        let mut r: Vec<ControllerScope> = Vec::new();
        while rest.len() > 0
            invariant
                rest@.len() <= whole.len(),
                rest@ == whole.skip(whole.len() - rest@.len()),
                r@ == whole.take(whole.len() - rest@.len()).filter(|s: ControllerScope| s.name@ == name@),
            decreases rest.len(),
        {
            let ghost k = whole.len() - rest@.len();
            let s = rest.remove(0);
            proof {
                assert(whole.take(k + 1).drop_last() =~= whole.take(k));
                assert(rest@ =~= whole.skip(k + 1));
                reveal_with_fuel(Seq::filter, 1);
            }
            if str_eq(&s.name, name) {
                r.push(s);
            }
        }
        proof {
            assert(whole.take(whole.len() as int) =~= whole);
            assert(list_snapshot_of(e, self.scopes()));
        }
        r
    }

    /// Appends `scope` to the template scopes of its document.
    pub fn add_html_controller_scope(&mut self, scope: HtmlControllerScope)
        ensures
            final(self).scopes() == old(self).scopes(),
            final(self).html_scopes() == old(self).html_scopes().insert(scope.uri@,
                list_at(old(self).html_scopes(), scope.uri@).push(scope)),
    {
        let uri = scope.uri.clone();
        let mut list = self.get_all_html_controller_scopes(&uri);
        list.push(scope);
        html_controller_scope_lists_insert(&mut self.html_controller_scopes, uri, list);
    }

    /// The template scopes of `uri`, in the order added.
    pub fn get_all_html_controller_scopes(&self, uri: &str) -> (r: Vec<HtmlControllerScope>)
        ensures
            r@ == list_at(self.html_scopes(), uri@),
    {
        match html_controller_scope_lists_get(&self.html_controller_scopes, uri) {
            Some(v) => v,
            None => Vec::new(),
        }
    }

    /// The innermost eligible template scope of `uri` at `line`.
    fn innermost_at(&self, uri: &str, line: u32, alias: Option<&str>) -> (r: Option<HtmlControllerScope>)
        ensures
            r == innermost(list_at(self.html_scopes(), uri@), line as int, match alias { Some(a) => Some(a@), None => None }),
    {
        let ghost al: Option<Seq<char>> = match alias { Some(a) => Some(a@), None => None };
        let scopes = self.get_all_html_controller_scopes(uri);
        let mut best: Option<HtmlControllerScope> = None;
        let mut i: usize = 0;
        while i < scopes.len()
            invariant
                i <= scopes@.len(),
                best == innermost(scopes@.take(i as int), line as int, al),
                al == match alias { Some(a) => Some(a@), None => None::<Seq<char>> },
            decreases scopes.len() - i,
        {
            proof { assert(scopes@.take(i + 1).drop_last() =~= scopes@.take(i as int)); }
            let s = &scopes[i];
            let alias_ok = match alias {
                None => true,
                Some(a) => match &s.alias {
                    Some(sa) => str_eq(sa, a),
                    None => false,
                },
            };
            if line >= s.start_line && line <= s.end_line && alias_ok {
                let replace = match &best {
                    None => true,
                    Some(c) => s.start_line >= c.start_line && s.end_line <= c.end_line,
                };
                if replace {
                    best = Some(s.clone());
                }
            }
            i += 1;
        }
        proof { assert(scopes@.take(i as int) =~= scopes@); }
        best
    }

    /// The controller of the innermost template scope of `uri` covering `line`: the first
    /// covering scope, replaced by each later one that lies within it.
    pub fn get_html_controller_at(&self, uri: &str, line: u32) -> (r: Option<String>)
        ensures
            match innermost(list_at(self.html_scopes(), uri@), line as int, None) {
                Some(s) => r is Some && r.unwrap()@ == s.controller_name@,
                None => r is None,
            },
    {
        match self.innermost_at(uri, line, None) {
            Some(s) => Some(s.controller_name),
            None => None,
        }
    }

    /// The controllers of the template scopes of `uri` covering `line`, outermost first
    /// (by start line, then by end line from last to first; ties keep their order).
    pub fn get_html_controllers_at(&self, uri: &str, line: u32) -> (r: Vec<String>)
        ensures
            views(r@) == local_controllers(list_at(self.html_scopes(), uri@), line as int),
    {
        let scopes = self.get_all_html_controller_scopes(uri);
        let mut sorted: Vec<HtmlControllerScope> = Vec::new();
        let mut i: usize = 0;
        while i < scopes.len()
            invariant
                i <= scopes@.len(),
                sorted@ == sort_scopes(covering(scopes@.take(i as int), line as int)),
            decreases scopes.len() - i,
        {
            proof { assert(scopes@.take(i + 1).drop_last() =~= scopes@.take(i as int)); }
            if line >= scopes[i].start_line && line <= scopes[i].end_line {
                let x = scopes[i].clone();
                proof {
                    let c = covering(scopes@.take(i + 1), line as int);
                    assert(c == covering(scopes@.take(i as int), line as int).push(x));
                    assert(c.drop_last() =~= covering(scopes@.take(i as int), line as int));
                }
                insert_scope_into(&mut sorted, x);
            }
            i += 1;
        }
        proof { assert(scopes@.take(i as int) =~= scopes@); }
        let mut r: Vec<String> = Vec::new();
        let mut k: usize = 0;
        while k < sorted.len()
            invariant
                k <= sorted@.len(),
                views(r@) == sorted@.take(k as int).map_values(|s: HtmlControllerScope| s.controller_name@),
            decreases sorted.len() - k,
        {
            let ghost before = r@;
            r.push(sorted[k].controller_name.clone());
            proof {
                assert(views(r@) =~= views(before).push(sorted@[k as int].controller_name@));
                assert(sorted@.take(k + 1).map_values(|s: HtmlControllerScope| s.controller_name@)
                    =~= sorted@.take(k as int).map_values(|s: HtmlControllerScope| s.controller_name@).push(sorted@[k as int].controller_name@));
            }
            k += 1;
        }
        proof { assert(sorted@.take(k as int) =~= sorted@); }
        r
    }

    /// The controller of the innermost template scope of `uri` covering `line` that is
    /// written with `alias`.
    pub fn resolve_controller_by_alias(&self, uri: &str, line: u32, alias: &str) -> (r: Option<String>)
        ensures
            match innermost(list_at(self.html_scopes(), uri@), line as int, Some(alias@)) {
                Some(s) => r is Some && r.unwrap()@ == s.controller_name@,
                None => r is None,
            },
    {
        match self.innermost_at(uri, line, Some(alias)) {
            Some(s) => Some(s.controller_name),
            None => None,
        }
    }

    /// The aliases in effect at `line` of `uri`, each once with its controller: that of
    /// the last covering scope written with it.
    pub fn get_html_alias_mappings(&self, uri: &str, line: u32) -> (r: Vec<(String, String)>)
        ensures
            forall|i: int, j: int| 0 <= i < j < r@.len() ==> r@[i].0@ != r@[j].0@,
            forall|k: Seq<char>| alias_map(list_at(self.html_scopes(), uri@), line as int).contains_key(k)
                <==> exists|i: int| 0 <= i < r@.len() && #[trigger] r@[i].0@ == k,
            forall|i: int| 0 <= i < r@.len() ==> alias_map(list_at(self.html_scopes(), uri@), line as int)[#[trigger] r@[i].0@] == r@[i].1@,
    {
        let scopes = self.get_all_html_controller_scopes(uri);
        let mut r: Vec<(String, String)> = Vec::new();
        let mut i: usize = 0;
        while i < scopes.len()
            invariant
                i <= scopes@.len(),
                forall|a: int, b: int| 0 <= a < b < r@.len() ==> r@[a].0@ != r@[b].0@,
                forall|k: Seq<char>| alias_map(scopes@.take(i as int), line as int).contains_key(k)
                    <==> exists|a: int| 0 <= a < r@.len() && #[trigger] r@[a].0@ == k,
                forall|a: int| 0 <= a < r@.len() ==> alias_map(scopes@.take(i as int), line as int)[#[trigger] r@[a].0@] == r@[a].1@,
            decreases scopes.len() - i,
        {
            proof { assert(scopes@.take(i + 1).drop_last() =~= scopes@.take(i as int)); }
            if line >= scopes[i].start_line && line <= scopes[i].end_line {
                match &scopes[i].alias {
                    Some(a) => {
                        let ghost m0 = alias_map(scopes@.take(i as int), line as int);
                        let ghost r0 = r@;
                        let mut pos: usize = 0;
                        while pos < r.len()
                            invariant
                                pos <= r@.len(),
                                r@ == r0,
                                forall|b: int| 0 <= b < pos ==> r@[b].0@ != a@,
                            ensures
                                pos <= r@.len(),
                                r@ == r0,
                                forall|b: int| 0 <= b < pos ==> r@[b].0@ != a@,
                                pos < r@.len() ==> r@[pos as int].0@ == a@,
                            decreases r.len() - pos,
                        {
                            if str_eq(&r[pos].0, a) {
                                break;
                            }
                            pos += 1;
                        }
                        proof {
                            assert(alias_map(scopes@.take(i + 1), line as int) == m0.insert(a@, scopes@[i as int].controller_name@));
                        }
                        let entry = (a.clone(), scopes[i].controller_name.clone());
                        if pos < r.len() {
                            r.set(pos, entry);
                            proof {
                                assert forall|k: Seq<char>| m0.insert(a@, scopes@[i as int].controller_name@).contains_key(k)
                                    <==> exists|x: int| 0 <= x < r@.len() && #[trigger] r@[x].0@ == k by {
                                    if k != a@ && m0.contains_key(k) {
                                        let x = choose|x: int| 0 <= x < r0.len() && #[trigger] r0[x].0@ == k;
                                        assert(r@[x].0@ == k);
                                    }
                                    if k == a@ {
                                        assert(r@[pos as int].0@ == k);
                                    }
                                    if exists|x: int| 0 <= x < r@.len() && #[trigger] r@[x].0@ == k {
                                        let x = choose|x: int| 0 <= x < r@.len() && #[trigger] r@[x].0@ == k;
                                        if x != pos {
                                            assert(r0[x].0@ == k);
                                        }
                                    }
                                }
                            }
                        } else {
                            r.push(entry);
                            proof {
                                assert forall|k: Seq<char>| m0.insert(a@, scopes@[i as int].controller_name@).contains_key(k)
                                    <==> exists|x: int| 0 <= x < r@.len() && #[trigger] r@[x].0@ == k by {
                                    if k != a@ && m0.contains_key(k) {
                                        let x = choose|x: int| 0 <= x < r0.len() && #[trigger] r0[x].0@ == k;
                                        assert(r@[x].0@ == k);
                                    }
                                    if k == a@ {
                                        assert(r@[r0.len() as int].0@ == k);
                                    }
                                    if exists|x: int| 0 <= x < r@.len() && #[trigger] r@[x].0@ == k {
                                        let x = choose|x: int| 0 <= x < r@.len() && #[trigger] r@[x].0@ == k;
                                        if x < r0.len() {
                                            assert(r0[x].0@ == k);
                                        }
                                    }
                                }
                            }
                        }
                    },
                    None => {
                        proof { assert(alias_map(scopes@.take(i + 1), line as int) == alias_map(scopes@.take(i as int), line as int)); }
                    },
                }
            } else {
                proof { assert(alias_map(scopes@.take(i + 1), line as int) == alias_map(scopes@.take(i as int), line as int)); }
            }
            i += 1;
        }
        proof { assert(scopes@.take(i as int) =~= scopes@); }
        r
    }

    /// The paths of the templates with a scope of `controller_name`, each once;
    /// templates in the map's own order.
    pub fn get_html_templates_for_controller(&self, controller_name: &str) -> (r: Vec<String>)
        ensures
            exists|e: Seq<(String, Vec<HtmlControllerScope>)>| list_snapshot_of(e, self.html_scopes())
                && views(r@) == template_paths_for(e, controller_name@),
    {
        let entries = html_controller_scope_lists_entries(&self.html_controller_scopes);
        let mut r: Vec<String> = Vec::new();
        let mut i: usize = 0;
        while i < entries.len()
            invariant
                i <= entries@.len(),
                views(r@) == template_paths_for(entries@.take(i as int), controller_name@),
            decreases entries.len() - i,
        {
            proof { assert(entries@.take(i + 1).drop_last() =~= entries@.take(i as int)); }
            let scopes = &entries[i].1;
            let mut j: usize = 0;
            let mut found = false;
            while j < scopes.len()
                invariant
                    j <= scopes@.len(),
                    !found ==> forall|x: int| 0 <= x < j ==> (#[trigger] scopes@[x]).controller_name@ != controller_name@,
                    found ==> has_controller(scopes@, controller_name@),
                decreases scopes.len() - j,
            {
                if !found && str_eq(&scopes[j].controller_name, controller_name) {
                    found = true;
                }
                j += 1;
            }
            if found {
                let path = uri_path(&entries[i].0);
                let ghost before = r@;
                if !crate::text::contains_str(&r, &path) {
                    r.push(path);
                    proof { assert(views(r@) =~= views(before).push(path@)); }
                }
            }
            i += 1;
        }
        proof { assert(entries@.take(i as int) =~= entries@); }
        r
    }

    /// Every template scope; documents in the map's own order, each document's scopes in
    /// the order added.
    pub fn get_all_html_controller_scopes_for_cache(&self) -> (r: Vec<HtmlControllerScope>)
        ensures
            exists|e: Seq<(String, Vec<HtmlControllerScope>)>| list_snapshot_of(e, self.html_scopes()) && r@ == flatten(e),
    {
        let entries = html_controller_scope_lists_entries(&self.html_controller_scopes);
        let ghost e = entries@;
        let r = flatten_entries(entries);
        proof { assert(list_snapshot_of(e, self.html_scopes())); }
        r
    }

    /// The documents that have template scopes, each once, in the map's own order.
    pub fn html_controller_scope_uris(&self) -> (r: Vec<String>)
        ensures
            forall|i: int, j: int| 0 <= i < j < r@.len() ==> r@[i]@ != r@[j]@,
            forall|k: Seq<char>| self.html_scopes().contains_key(k) <==> exists|i: int| 0 <= i < r@.len() && #[trigger] r@[i]@ == k,
    {
        let entries = html_controller_scope_lists_entries(&self.html_controller_scopes);
        let mut r: Vec<String> = Vec::new();
        let mut i: usize = 0;
        while i < entries.len()
            invariant
                i <= entries@.len(),
                list_snapshot_of(entries@, self.html_scopes()),
                r@.len() == i,
                forall|x: int| 0 <= x < i ==> (#[trigger] r@[x])@ == entries@[x].0@,
            decreases entries.len() - i,
        {
            r.push(entries[i].0.clone());
            i += 1;
        }
        proof {
            assert forall|k: Seq<char>| self.html_scopes().contains_key(k) implies exists|x: int| 0 <= x < r@.len() && #[trigger] r@[x]@ == k by {
                let x = choose|x: int| 0 <= x < entries@.len() && #[trigger] entries@[x].0@ == k;
                assert(r@[x]@ == k);
            }
            assert forall|k: Seq<char>| (exists|x: int| 0 <= x < r@.len() && #[trigger] r@[x]@ == k) implies self.html_scopes().contains_key(k) by {
                let x = choose|x: int| 0 <= x < r@.len() && #[trigger] r@[x]@ == k;
                assert(self.html_scopes().contains_key(entries@[x].0@));
            }
        }
        r
    }

    /// Drops the script and template scopes of `uri`.
    pub fn clear_document(&mut self, uri: &str)
        ensures
            final(self).scopes() == old(self).scopes().remove(uri@),
            final(self).html_scopes() == old(self).html_scopes().remove(uri@),
    {
        controller_scope_lists_remove(&mut self.controller_scopes, uri);
        html_controller_scope_lists_remove(&mut self.html_controller_scopes, uri);
    }

    pub fn clear_all(&mut self)
        ensures
            final(self).scopes() =~= Map::empty(),
            final(self).html_scopes() =~= Map::empty(),
    {
        self.controller_scopes = controller_scope_lists_new();
        self.html_controller_scopes = html_controller_scope_lists_new();
    }
}

/// Inserts `x` into `sorted` where `insert_scope` puts it.
fn insert_scope_into(sorted: &mut Vec<HtmlControllerScope>, x: HtmlControllerScope)
    ensures
        final(sorted)@ == insert_scope(old(sorted)@, x),
{
    let ghost s0 = sorted@;
    let mut pos: usize = sorted.len();
    proof {
        assert(s0.take(s0.len() as int) =~= s0);
        assert(insert_scope(s0, x) =~= insert_scope(s0.take(s0.len() as int), x) + s0.skip(s0.len() as int));
    }
    while pos > 0
        invariant
            pos <= s0.len(),
            sorted@ == s0,
            insert_scope(s0, x) == insert_scope(s0.take(pos as int), x) + s0.skip(pos as int),
        ensures
            pos <= s0.len(),
            sorted@ == s0,
            insert_scope(s0, x) == insert_scope(s0.take(pos as int), x) + s0.skip(pos as int),
            pos > 0 ==> !scope_before(x, s0[pos - 1]),
        decreases pos,
    {
        let y = &sorted[pos - 1];
        let before = x.start_line < y.start_line || (x.start_line == y.start_line && x.end_line > y.end_line);
        if !before {
            proof { assert(!scope_before(x, s0[pos - 1])); }
            break;
        }
        proof {
            let t = s0.take(pos as int);
            assert(t.drop_last() =~= s0.take(pos - 1));
            assert(t.last() == s0[pos - 1]);
            assert(s0.skip(pos - 1) =~= seq![s0[pos - 1]] + s0.skip(pos as int));
            assert(insert_scope(t.drop_last(), x).push(t.last()) + s0.skip(pos as int)
                =~= insert_scope(s0.take(pos - 1), x) + s0.skip(pos - 1));
        }
        pos -= 1;
    }
    proof {
        let t = s0.take(pos as int);
        if pos > 0 {
            assert(t.last() == s0[pos - 1]);
            assert(insert_scope(t, x) == t.push(x));
        } else {
            assert(insert_scope(t, x) =~= seq![x]);
        }
        assert(t.push(x) + s0.skip(pos as int) =~= s0.insert(pos as int, x));
    }
    sorted.insert(pos, x);
}

} // verus!
