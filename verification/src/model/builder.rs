//! Step-by-step construction of symbols and references.
use vstd::prelude::*;

use super::span::{zero_span, Span};
use super::symbol::{Symbol, SymbolKind, SymbolReference};

verus! {

/// Builds a [`Symbol`]; unset spans are zero, unset documentation and parameters absent.
pub struct SymbolBuilder {
    pub name: String,
    pub kind: SymbolKind,
    pub uri: String,
    pub definition_span: Span,
    pub name_span: Span,
    pub docs: Option<String>,
    pub parameters: Option<Vec<String>>,
}

impl SymbolBuilder {
    pub fn new(name: String, kind: SymbolKind, uri: String) -> (r: Self)
        ensures
            r.name == name,
            r.kind == kind,
            r.uri == uri,
            r.definition_span == zero_span(),
            r.name_span == zero_span(),
            r.docs is None,
            r.parameters is None,
    {
        SymbolBuilder {
            name,
            kind,
            uri,
            definition_span: Span::default(),
            name_span: Span::default(),
            docs: None,
            parameters: None,
        }
    }

    pub fn definition_span(self, span: Span) -> (r: Self)
        ensures
            r == (SymbolBuilder { definition_span: span, ..self }),
    {
        SymbolBuilder { definition_span: span, ..self }
    }

    pub fn name_span(self, span: Span) -> (r: Self)
        ensures
            r == (SymbolBuilder { name_span: span, ..self }),
    {
        SymbolBuilder { name_span: span, ..self }
    }

    pub fn docs(self, docs: String) -> (r: Self)
        ensures
            r == (SymbolBuilder { docs: Some(docs), ..self }),
    {
        SymbolBuilder { docs: Some(docs), ..self }
    }

    pub fn parameters(self, params: Vec<String>) -> (r: Self)
        ensures
            r == (SymbolBuilder { parameters: Some(params), ..self }),
    {
        SymbolBuilder { parameters: Some(params), ..self }
    }

    pub fn build(self) -> (r: Symbol)
        ensures
            r == (Symbol {
                name: self.name,
                kind: self.kind,
                uri: self.uri,
                definition_span: self.definition_span,
                name_span: self.name_span,
                docs: self.docs,
                parameters: self.parameters,
            }),
    {
        Symbol {
            name: self.name,
            kind: self.kind,
            uri: self.uri,
            definition_span: self.definition_span,
            name_span: self.name_span,
            docs: self.docs,
            parameters: self.parameters,
        }
    }
}

/// Builds a [`SymbolReference`]; an unset span is zero.
pub struct ReferenceBuilder {
    pub name: String,
    pub uri: String,
    pub span: Span,
}

impl ReferenceBuilder {
    pub fn new(name: String, uri: String) -> (r: Self)
        ensures
            r.name == name,
            r.uri == uri,
            r.span == zero_span(),
    {
        ReferenceBuilder { name, uri, span: Span::default() }
    }

    pub fn span(self, span: Span) -> (r: Self)
        ensures
            r == (ReferenceBuilder { span, ..self }),
    {
        ReferenceBuilder { span, ..self }
    }

    pub fn build(self) -> (r: SymbolReference)
        ensures
            r == (SymbolReference { name: self.name, uri: self.uri, span: self.span }),
    {
        SymbolReference { name: self.name, uri: self.uri, span: self.span }
    }
}

} // verus!
