//! The enumerations of the earlier flat index (`SymbolIndex`).
use vstd::prelude::*;

verus! {

/// How a template got bound to a controller, in the flat index.
#[derive(Debug, Clone, Copy, PartialEq, Eq, Structural)]
pub enum BindingSource {
    NgController,
    RouteProvider,
    UibModal,
}

/// The directive that introduces a template-local variable, in the flat index.
#[derive(Debug, Clone, Copy, PartialEq, Eq, Structural)]
pub enum HtmlLocalVariableSource {
    /// `ng-init="counter = 0"` introduces `counter`.
    NgInit,
    /// `ng-repeat="item in items"` introduces `item`.
    NgRepeatIterator,
    /// `ng-repeat="(key, value) in obj"` introduces `key` and `value`.
    NgRepeatKeyValue,
}

/// The display name of each source.
pub open spec fn source_name(s: HtmlLocalVariableSource) -> Seq<char> {
    match s {
        HtmlLocalVariableSource::NgInit => "ng-init"@,
        HtmlLocalVariableSource::NgRepeatIterator => "ng-repeat"@,
        HtmlLocalVariableSource::NgRepeatKeyValue => "ng-repeat"@,
    }
}

impl HtmlLocalVariableSource {
    pub fn as_str(&self) -> (r: &'static str)
        ensures
            r@ == source_name(*self),
    {
        match self {
            HtmlLocalVariableSource::NgInit => "ng-init",
            HtmlLocalVariableSource::NgRepeatIterator => "ng-repeat",
            HtmlLocalVariableSource::NgRepeatKeyValue => "ng-repeat",
        }
    }
}

} // verus!
