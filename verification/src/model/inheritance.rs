//! What included and routed templates inherit from their parents.
use vstd::prelude::*;

use super::html::{InheritedFormBinding, InheritedLocalVariable};

verus! {

/// A template included by `ng-include` and what it inherits.
#[derive(Clone, Debug)]
pub struct NgIncludeBinding {
    pub parent_uri: String,
    pub template_path: String,
    /// The included file's name, resolved against the parent.
    pub resolved_filename: String,
    /// The line of the `ng-include`.
    pub line: u32,
    /// Controllers in effect at the include, outermost first.
    pub inherited_controllers: Vec<String>,
    pub inherited_local_variables: Vec<InheritedLocalVariable>,
    pub inherited_form_bindings: Vec<InheritedFormBinding>,
}

/// An `ng-view` and what routed templates inherit from it.
#[derive(Clone, Debug)]
pub struct NgViewBinding {
    pub parent_uri: String,
    pub line: u32,
    pub inherited_controllers: Vec<String>,
    pub inherited_local_variables: Vec<InheritedLocalVariable>,
    pub inherited_form_bindings: Vec<InheritedFormBinding>,
}

} // verus!
