//! Symbols: definitions and references found in the workspace.
use vstd::prelude::*;

use super::span::Span;

verus! {

/// The text that starts the documentation of a component binding symbol.
pub const COMPONENT_BINDING_DOCS_PREFIX: &'static str = "Component binding: ";

/// What a symbol names.
#[derive(Debug, Clone, Copy, PartialEq, Eq, Hash, Structural)]
pub enum SymbolKind {
    Module,
    Controller,
    Service,
    Factory,
    Directive,
    /// A component registered with `.component()`.
    Component,
    Provider,
    Filter,
    Constant,
    Value,
    Method,
    /// A `$scope` property.
    ScopeProperty,
    /// A `$scope` property holding a function.
    ScopeMethod,
    /// A `$rootScope` property.
    RootScopeProperty,
    /// A `$rootScope` property holding a function.
    RootScopeMethod,
    /// A form bound to `$scope` by `<form name="x">`.
    FormBinding,
    /// A component published by an ES6 `export default`.
    ExportedComponent,
    /// One entry of a component's `bindings` (`<`, `=`, `@`, `&`).
    ComponentBinding,
    /// A ui-router state registered with `$stateProvider.state()`.
    UiRouterState,
}

/// The display name of each kind.
pub open spec fn symbol_kind_name(k: SymbolKind) -> Seq<char> {
    match k {
        SymbolKind::Module => "module"@,
        SymbolKind::Controller => "controller"@,
        SymbolKind::Service => "service"@,
        SymbolKind::Factory => "factory"@,
        SymbolKind::Directive => "directive"@,
        SymbolKind::Component => "component"@,
        SymbolKind::Provider => "provider"@,
        SymbolKind::Filter => "filter"@,
        SymbolKind::Constant => "constant"@,
        SymbolKind::Value => "value"@,
        SymbolKind::Method => "method"@,
        SymbolKind::ScopeProperty => "scope property"@,
        SymbolKind::ScopeMethod => "scope method"@,
        SymbolKind::RootScopeProperty => "root scope property"@,
        SymbolKind::RootScopeMethod => "root scope method"@,
        SymbolKind::FormBinding => "form binding"@,
        SymbolKind::ExportedComponent => "exported component"@,
        SymbolKind::ComponentBinding => "component binding"@,
        SymbolKind::UiRouterState => "ui-router state"@,
    }
}

/// The kind of an outline entry, as editors show it.
#[derive(Debug, Clone, Copy, PartialEq, Eq, Structural)]
pub enum OutlineKind {
    Module,
    Class,
    Function,
    Constant,
    Variable,
    Method,
    Property,
}

/// The outline kind of each symbol kind.
pub open spec fn outline_kind_of(k: SymbolKind) -> OutlineKind {
    match k {
        SymbolKind::Module => OutlineKind::Module,
        SymbolKind::Filter => OutlineKind::Function,
        SymbolKind::Constant => OutlineKind::Constant,
        SymbolKind::Value | SymbolKind::FormBinding => OutlineKind::Variable,
        SymbolKind::Method | SymbolKind::ScopeMethod | SymbolKind::RootScopeMethod => OutlineKind::Method,
        SymbolKind::ScopeProperty | SymbolKind::RootScopeProperty | SymbolKind::ComponentBinding => OutlineKind::Property,
        _ => OutlineKind::Class,
    }
}

impl SymbolKind {
    /// See [`outline_kind_of`].
    pub fn to_lsp_symbol_kind(&self) -> (r: OutlineKind)
        ensures
            r == outline_kind_of(*self),
    {
        match self {
            SymbolKind::Module => OutlineKind::Module,
            SymbolKind::Controller => OutlineKind::Class,
            SymbolKind::Service => OutlineKind::Class,
            SymbolKind::Factory => OutlineKind::Class,
            SymbolKind::Directive => OutlineKind::Class,
            SymbolKind::Component => OutlineKind::Class,
            SymbolKind::Provider => OutlineKind::Class,
            SymbolKind::Filter => OutlineKind::Function,
            SymbolKind::Constant => OutlineKind::Constant,
            SymbolKind::Value => OutlineKind::Variable,
            SymbolKind::Method => OutlineKind::Method,
            SymbolKind::ScopeProperty => OutlineKind::Property,
            SymbolKind::ScopeMethod => OutlineKind::Method,
            SymbolKind::RootScopeProperty => OutlineKind::Property,
            SymbolKind::RootScopeMethod => OutlineKind::Method,
            SymbolKind::FormBinding => OutlineKind::Variable,
            SymbolKind::ExportedComponent => OutlineKind::Class,
            SymbolKind::ComponentBinding => OutlineKind::Property,
            SymbolKind::UiRouterState => OutlineKind::Class,
        }
    }

    pub fn as_str(&self) -> (r: &'static str)
        ensures
            r@ == symbol_kind_name(*self),
    {
        match self {
            SymbolKind::Module => "module",
            SymbolKind::Controller => "controller",
            SymbolKind::Service => "service",
            SymbolKind::Factory => "factory",
            SymbolKind::Directive => "directive",
            SymbolKind::Component => "component",
            SymbolKind::Provider => "provider",
            SymbolKind::Filter => "filter",
            SymbolKind::Constant => "constant",
            SymbolKind::Value => "value",
            SymbolKind::Method => "method",
            SymbolKind::ScopeProperty => "scope property",
            SymbolKind::ScopeMethod => "scope method",
            SymbolKind::RootScopeProperty => "root scope property",
            SymbolKind::RootScopeMethod => "root scope method",
            SymbolKind::FormBinding => "form binding",
            SymbolKind::ExportedComponent => "exported component",
            SymbolKind::ComponentBinding => "component binding",
            SymbolKind::UiRouterState => "ui-router state",
        }
    }
}

/// A definition: a name, its kind, the document (by URI) and two spans.
#[derive(Debug, Clone)]
pub struct Symbol {
    pub name: String,
    pub kind: SymbolKind,
    pub uri: String,
    /// Where a jump to the definition lands (e.g. the whole function).
    pub definition_span: Span,
    /// Where the name itself is written.
    pub name_span: Span,
    pub docs: Option<String>,
    /// Parameters of a method-like symbol.
    pub parameters: Option<Vec<String>>,
}

impl Symbol {
    pub fn start_line(&self) -> (r: u32)
        ensures
            r == self.definition_span.start_line,
    {
        self.definition_span.start_line
    }

    pub fn start_col(&self) -> (r: u32)
        ensures
            r == self.definition_span.start_col,
    {
        self.definition_span.start_col
    }

    pub fn end_line(&self) -> (r: u32)
        ensures
            r == self.definition_span.end_line,
    {
        self.definition_span.end_line
    }

    pub fn end_col(&self) -> (r: u32)
        ensures
            r == self.definition_span.end_col,
    {
        self.definition_span.end_col
    }

    pub fn name_start_line(&self) -> (r: u32)
        ensures
            r == self.name_span.start_line,
    {
        self.name_span.start_line
    }

    pub fn name_start_col(&self) -> (r: u32)
        ensures
            r == self.name_span.start_col,
    {
        self.name_span.start_col
    }

    pub fn name_end_line(&self) -> (r: u32)
        ensures
            r == self.name_span.end_line,
    {
        self.name_span.end_line
    }

    pub fn name_end_col(&self) -> (r: u32)
        ensures
            r == self.name_span.end_col,
    {
        self.name_span.end_col
    }
}

/// A use of a name in a document.
#[derive(Debug)]
pub struct SymbolReference {
    pub name: String,
    pub uri: String,
    pub span: Span,
}

impl SymbolReference {
    pub fn start_line(&self) -> (r: u32)
        ensures
            r == self.span.start_line,
    {
        self.span.start_line
    }

    pub fn start_col(&self) -> (r: u32)
        ensures
            r == self.span.start_col,
    {
        self.span.start_col
    }

    pub fn end_line(&self) -> (r: u32)
        ensures
            r == self.span.end_line,
    {
        self.span.end_line
    }

    pub fn end_col(&self) -> (r: u32)
        ensures
            r == self.span.end_col,
    {
        self.span.end_col
    }
}

impl Clone for SymbolReference {
    fn clone(&self) -> (r: Self)
        ensures
            r == *self,
    {
        SymbolReference { name: self.name.clone(), uri: self.uri.clone(), span: self.span }
    }
}

} // verus!
