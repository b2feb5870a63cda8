//! The strings written in dependency-injection arrays, kept per document so that
//! misspelled services (`$tiemout`) can be reported.
use vstd::prelude::*;

use crate::index::tables::{di_usage_lists, di_usage_lists_get, di_usage_lists_insert, di_usage_lists_new, di_usage_lists_remove};
use crate::model::Span;

verus! {

/// One string of a dependency-injection array.
#[derive(Debug, Clone)]
pub struct DiUsage {
    /// The string's content (`$scope`, `UserService`, `$tiemout`).
    pub name: String,
    /// The whole literal, quotes included.
    pub span: Span,
}

/// The dependency-injection strings of each document, in the order they were added.
pub struct DiUsageStore {
    usages: dashmap::DashMap<String, Vec<DiUsage>>,
}

impl DiUsageStore {
    /// The strings recorded per document.
    pub closed spec fn view(&self) -> Map<Seq<char>, Seq<DiUsage>> {
        di_usage_lists(self.usages)
    }

    pub fn new() -> (r: Self)
        ensures
            r.view() =~= Map::empty(),
    {
        DiUsageStore { usages: di_usage_lists_new() }
    }

    /// Appends `usage` to the strings of `uri`.
    pub fn add(&mut self, uri: &str, usage: DiUsage)
        ensures
            final(self).view() == old(self).view().insert(uri@,
                if old(self).view().contains_key(uri@) { old(self).view()[uri@] } else { Seq::empty() }.push(usage)),
    {
        let mut list = match di_usage_lists_get(&self.usages, uri) {
            Some(v) => v,
            None => Vec::new(),
        };
        list.push(usage);
        di_usage_lists_insert(&mut self.usages, uri.to_owned(), list);
    }

    /// The strings of `uri`, in order (none for an unknown document).
    pub fn get_for_uri(&self, uri: &str) -> (r: Vec<DiUsage>)
        ensures
            r@ == if self.view().contains_key(uri@) { self.view()[uri@] } else { Seq::empty() },
    {
        match di_usage_lists_get(&self.usages, uri) {
            Some(v) => v,
            None => Vec::new(),
        }
    }

    pub fn clear_document(&mut self, uri: &str)
        ensures
            final(self).view() == old(self).view().remove(uri@),
    {
        di_usage_lists_remove(&mut self.usages, uri);
    }

    pub fn clear_all(&mut self)
        ensures
            final(self).view() =~= Map::empty(),
    {
        self.usages = di_usage_lists_new();
    }
}

} // verus!
