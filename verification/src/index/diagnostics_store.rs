//! Findings of the script analysis that diagnostics report later.
use vstd::prelude::*;

use crate::index::tables::{arity_issue_lists, arity_issue_lists_get, arity_issue_lists_insert, arity_issue_lists_new, arity_issue_lists_remove};
use crate::model::DiArityIssue;

verus! {

/// Injection arity issues per document.
pub struct DiagnosticsStore {
    di_arity_issues: dashmap::DashMap<String, Vec<DiArityIssue>>,
}

impl DiagnosticsStore {
    /// The issues recorded per document.
    pub closed spec fn view(&self) -> Map<Seq<char>, Seq<DiArityIssue>> {
        arity_issue_lists(self.di_arity_issues)
    }

    pub fn new() -> (r: Self)
        ensures
            r.view() =~= Map::empty(),
    {
        DiagnosticsStore { di_arity_issues: arity_issue_lists_new() }
    }

    /// Appends `issue` to the issues of its document.
    pub fn add_di_arity_issue(&mut self, issue: DiArityIssue)
        ensures
            final(self).view() == old(self).view().insert(issue.uri@,
                if old(self).view().contains_key(issue.uri@) { old(self).view()[issue.uri@] } else { Seq::empty() }.push(issue)),
    {
        let uri = issue.uri.clone();
        let mut list = match arity_issue_lists_get(&self.di_arity_issues, &uri) {
            Some(v) => v,
            None => Vec::new(),
        };
        list.push(issue);
        arity_issue_lists_insert(&mut self.di_arity_issues, uri, list);
    }

    /// The issues of `uri`, in order.
    pub fn get_di_arity_issues(&self, uri: &str) -> (r: Vec<DiArityIssue>)
        ensures
            r@ == if self.view().contains_key(uri@) { self.view()[uri@] } else { Seq::empty() },
    {
        match arity_issue_lists_get(&self.di_arity_issues, uri) {
            Some(v) => v,
            None => Vec::new(),
        }
    }

    pub fn clear_document(&mut self, uri: &str)
        ensures
            final(self).view() == old(self).view().remove(uri@),
    {
        arity_issue_lists_remove(&mut self.di_arity_issues, uri);
    }

    pub fn clear_all(&mut self)
        ensures
            final(self).view() =~= Map::empty(),
    {
        self.di_arity_issues = arity_issue_lists_new();
    }
}

} // verus!
