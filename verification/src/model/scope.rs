//! Controller scopes in scripts and templates.
use vstd::prelude::*;

verus! {

/// A controller's body in a script: its lines and the services injected into it.
#[derive(Clone, Debug)]
pub struct ControllerScope {
    pub name: String,
    pub uri: String,
    pub start_line: u32,
    pub end_line: u32,
    /// Names of the services injected by dependency injection.
    pub injected_services: Vec<String>,
}

/// An `ng-controller` element in a template and the lines it covers.
#[derive(Debug)]
pub struct HtmlControllerScope {
    pub controller_name: String,
    /// The alias of `ng-controller="Ctrl as alias"`, if written.
    pub alias: Option<String>,
    pub uri: String,
    pub start_line: u32,
    pub end_line: u32,
}

/// The dependency-injection context an analysis is in.
#[derive(Clone, Debug, Default)]
pub struct DiScope {
    pub controller_name: Option<String>,
    pub injected_services: Vec<String>,
    pub has_scope: bool,
    pub has_root_scope: bool,
}

impl Clone for HtmlControllerScope {
    fn clone(&self) -> (r: Self)
        ensures
            r == *self,
    {
        HtmlControllerScope {
            controller_name: self.controller_name.clone(),
            alias: self.alias.clone(),
            uri: self.uri.clone(),
            start_line: self.start_line,
            end_line: self.end_line,
        }
    }
}

} // verus!
