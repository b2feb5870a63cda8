//! The symbol kinds of the earlier flat index (`SymbolIndex`), which names a few kinds
//! fewer than the model does.
use vstd::prelude::*;

verus! {

/// What a symbol of the flat index names.
#[derive(Debug, Clone, Copy, PartialEq, Eq, Hash, Structural)]
pub enum SymbolKind {
    Module,
    Controller,
    Service,
    Factory,
    Directive,
    Provider,
    Filter,
    Constant,
    Value,
    Method,
    /// A `$scope` property.
    ScopeProperty,
    /// A `$scope` property holding a function.
    ScopeMethod,
    /// A `$rootScope` property.
    RootScopeProperty,
    /// A `$rootScope` property holding a function.
    RootScopeMethod,
    /// A form bound to `$scope` by `<form name="x">`.
    FormBinding,
}

/// The display name of each kind.
pub open spec fn kind_name(k: SymbolKind) -> Seq<char> {
    match k {
        SymbolKind::Module => "module"@,
        SymbolKind::Controller => "controller"@,
        SymbolKind::Service => "service"@,
        SymbolKind::Factory => "factory"@,
        SymbolKind::Directive => "directive"@,
        SymbolKind::Provider => "provider"@,
        SymbolKind::Filter => "filter"@,
        SymbolKind::Constant => "constant"@,
        SymbolKind::Value => "value"@,
        SymbolKind::Method => "method"@,
        SymbolKind::ScopeProperty => "scope property"@,
        SymbolKind::ScopeMethod => "scope method"@,
        SymbolKind::RootScopeProperty => "root scope property"@,
        SymbolKind::RootScopeMethod => "root scope method"@,
        SymbolKind::FormBinding => "form binding"@,
    }
}

impl SymbolKind {
    pub fn as_str(&self) -> (r: &'static str)
        ensures
            r@ == kind_name(*self),
    {
        match self {
            SymbolKind::Module => "module",
            SymbolKind::Controller => "controller",
            SymbolKind::Service => "service",
            SymbolKind::Factory => "factory",
            SymbolKind::Directive => "directive",
            SymbolKind::Provider => "provider",
            SymbolKind::Filter => "filter",
            SymbolKind::Constant => "constant",
            SymbolKind::Value => "value",
            SymbolKind::Method => "method",
            SymbolKind::ScopeProperty => "scope property",
            SymbolKind::ScopeMethod => "scope method",
            SymbolKind::RootScopeProperty => "root scope property",
            SymbolKind::RootScopeMethod => "root scope method",
            SymbolKind::FormBinding => "form binding",
        }
    }
}

} // verus!
