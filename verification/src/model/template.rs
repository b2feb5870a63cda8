//! Bindings between templates and controllers.
use vstd::prelude::*;

verus! {

/// How a template got bound to a controller.
#[derive(Clone, Copy, Debug, PartialEq, Eq, Structural)]
pub enum BindingSource {
    NgController,
    RouteProvider,
    StateProvider,
    UibModal,
}

/// A template bound to a controller by a script.
#[derive(Debug)]
pub struct TemplateBinding {
    pub template_path: String,
    pub controller_name: String,
    pub source: BindingSource,
    /// The script that declares the binding.
    pub binding_uri: String,
    /// The line of its `templateUrl`.
    pub binding_line: u32,
}

/// The `templateUrl` of a component.
#[derive(Debug)]
pub struct ComponentTemplateUrl {
    /// The script declaring the component.
    pub uri: String,
    pub template_path: String,
    pub line: u32,
    pub col: u32,
    /// The controller's name, when it is given by name.
    pub controller_name: Option<String>,
    /// The `controllerAs` alias (`$ctrl` when not written).
    pub controller_as: String,
}

impl Clone for TemplateBinding {
    fn clone(&self) -> (r: Self)
        ensures
            r == *self,
    {
        TemplateBinding {
            template_path: self.template_path.clone(),
            controller_name: self.controller_name.clone(),
            source: self.source,
            binding_uri: self.binding_uri.clone(),
            binding_line: self.binding_line,
        }
    }
}

impl Clone for ComponentTemplateUrl {
    fn clone(&self) -> (r: Self)
        ensures
            r == *self,
    {
        ComponentTemplateUrl {
            uri: self.uri.clone(),
            template_path: self.template_path.clone(),
            line: self.line,
            col: self.col,
            controller_name: self.controller_name.clone(),
            controller_as: self.controller_as.clone(),
        }
    }
}

} // verus!
