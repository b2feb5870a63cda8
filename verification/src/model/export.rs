//! ES6 exports of components.
use vstd::prelude::*;

verus! {

/// A component published by `export default`.
#[derive(Clone, Debug)]
pub struct ExportInfo {
    pub uri: String,
    pub component_name: String,
    pub dependencies: Vec<String>,
    pub start_line: u32,
    pub start_col: u32,
    pub end_line: u32,
    pub end_col: u32,
    pub has_scope: bool,
    pub has_root_scope: bool,
}

/// An `export default { name: 'x', ... }` object.
#[derive(Debug)]
pub struct ExportedComponentObject {
    pub uri: String,
    pub name: String,
    pub start_line: u32,
    pub start_col: u32,
    pub end_line: u32,
    pub end_col: u32,
}

impl Clone for ExportedComponentObject {
    fn clone(&self) -> (r: Self)
        ensures
            r == *self,
    {
        ExportedComponentObject {
            uri: self.uri.clone(),
            name: self.name.clone(),
            start_line: self.start_line,
            start_col: self.start_col,
            end_line: self.end_line,
            end_col: self.end_col,
        }
    }
}

} // verus!
