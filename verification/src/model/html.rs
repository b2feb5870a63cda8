//! What the template analysis records.
use vstd::prelude::*;

use super::span::Span;

verus! {

/// A scope expression written in a template (`{{ vm.foo }}`, `ng-if="bar"`).
#[derive(Debug)]
pub struct HtmlScopeReference {
    pub property_path: String,
    pub uri: String,
    pub start_line: u32,
    pub start_col: u32,
    pub end_line: u32,
    pub end_col: u32,
}

impl HtmlScopeReference {
    pub fn span(&self) -> (r: Span)
        ensures
            r == (Span { start_line: self.start_line, start_col: self.start_col, end_line: self.end_line, end_col: self.end_col }),
    {
        Span::new(self.start_line, self.start_col, self.end_line, self.end_col)
    }
}

/// The directive that introduces a template-local variable.
#[derive(Clone, Copy, Debug, PartialEq, Eq, Structural)]
pub enum HtmlLocalVariableSource {
    /// `ng-init="counter = 0"` introduces `counter`.
    NgInit,
    /// `ng-repeat="item in items"` introduces `item`.
    NgRepeatIterator,
    /// `ng-repeat="(key, value) in obj"` introduces `key` and `value`.
    NgRepeatKeyValue,
    /// `$index`, `$first`, `$last`, `$middle`, `$odd`, `$even` inside `ng-repeat`.
    NgRepeatSpecial,
}

/// The display name of each source.
pub open spec fn local_variable_source_name(s: HtmlLocalVariableSource) -> Seq<char> {
    match s {
        HtmlLocalVariableSource::NgInit => "ng-init"@,
        HtmlLocalVariableSource::NgRepeatIterator => "ng-repeat"@,
        HtmlLocalVariableSource::NgRepeatKeyValue => "ng-repeat"@,
        HtmlLocalVariableSource::NgRepeatSpecial => "ng-repeat (special)"@,
    }
}

impl HtmlLocalVariableSource {
    pub fn as_str(&self) -> (r: &'static str)
        ensures
            r@ == local_variable_source_name(*self),
    {
        match self {
            HtmlLocalVariableSource::NgInit => "ng-init",
            HtmlLocalVariableSource::NgRepeatIterator => "ng-repeat",
            HtmlLocalVariableSource::NgRepeatKeyValue => "ng-repeat",
            HtmlLocalVariableSource::NgRepeatSpecial => "ng-repeat (special)",
        }
    }
}

/// A variable introduced in a template by `ng-init` or `ng-repeat`.
#[derive(Debug)]
pub struct HtmlLocalVariable {
    pub name: String,
    pub source: HtmlLocalVariableSource,
    pub uri: String,
    /// First line of the defining element.
    pub scope_start_line: u32,
    /// Last line of the defining element.
    pub scope_end_line: u32,
    pub name_start_line: u32,
    pub name_start_col: u32,
    pub name_end_line: u32,
    pub name_end_col: u32,
}

/// The span where a local variable's name is written.
pub open spec fn local_variable_name_span(v: HtmlLocalVariable) -> Span {
    Span { start_line: v.name_start_line, start_col: v.name_start_col, end_line: v.name_end_line, end_col: v.name_end_col }
}

impl HtmlLocalVariable {
    pub fn name_span(&self) -> (r: Span)
        ensures
            r == local_variable_name_span(*self),
    {
        Span::new(self.name_start_line, self.name_start_col, self.name_end_line, self.name_end_col)
    }

    pub fn is_in_scope(&self, line: u32) -> (r: bool)
        ensures
            r == (self.scope_start_line <= line <= self.scope_end_line),
    {
        line >= self.scope_start_line && line <= self.scope_end_line
    }
}

/// A use of a template-local variable.
#[derive(Debug)]
pub struct HtmlLocalVariableReference {
    pub variable_name: String,
    pub uri: String,
    pub start_line: u32,
    pub start_col: u32,
    pub end_line: u32,
    pub end_col: u32,
}

/// The span of a local variable reference.
pub open spec fn local_reference_span(r: HtmlLocalVariableReference) -> Span {
    Span { start_line: r.start_line, start_col: r.start_col, end_line: r.end_line, end_col: r.end_col }
}

impl HtmlLocalVariableReference {
    pub fn span(&self) -> (r: Span)
        ensures
            r == local_reference_span(*self),
    {
        Span::new(self.start_line, self.start_col, self.end_line, self.end_col)
    }
}

/// A form bound to the scope by `<form name="x">`.
#[derive(Debug)]
pub struct HtmlFormBinding {
    pub name: String,
    pub uri: String,
    /// First line of the enclosing controller scope (or of the file).
    pub scope_start_line: u32,
    /// Last line of the enclosing controller scope (or of the file).
    pub scope_end_line: u32,
    pub name_start_line: u32,
    pub name_start_col: u32,
    pub name_end_line: u32,
    pub name_end_col: u32,
}

/// The span where a form's name is written.
pub open spec fn form_name_span(b: HtmlFormBinding) -> Span {
    Span { start_line: b.name_start_line, start_col: b.name_start_col, end_line: b.name_end_line, end_col: b.name_end_col }
}

impl HtmlFormBinding {
    pub fn name_span(&self) -> (r: Span)
        ensures
            r == form_name_span(*self),
    {
        Span::new(self.name_start_line, self.name_start_col, self.name_end_line, self.name_end_col)
    }

    pub fn is_in_scope(&self, line: u32) -> (r: bool)
        ensures
            r == (self.scope_start_line <= line <= self.scope_end_line),
    {
        line >= self.scope_start_line && line <= self.scope_end_line
    }
}

/// A local variable handed down to an included template.
#[derive(Debug)]
pub struct InheritedLocalVariable {
    pub name: String,
    pub source: HtmlLocalVariableSource,
    pub uri: String,
    pub scope_start_line: u32,
    pub scope_end_line: u32,
    pub name_start_line: u32,
    pub name_start_col: u32,
    pub name_end_line: u32,
    pub name_end_col: u32,
}

/// A form binding handed down to an included template.
#[derive(Debug)]
pub struct InheritedFormBinding {
    pub name: String,
    pub uri: String,
    pub scope_start_line: u32,
    pub scope_end_line: u32,
    pub name_start_line: u32,
    pub name_start_col: u32,
    pub name_end_line: u32,
    pub name_end_col: u32,
}

/// How a directive is used in a template.
#[derive(Clone, Copy, Debug, PartialEq, Eq, Structural)]
pub enum DirectiveUsageType {
    /// `<my-directive>...</my-directive>`
    Element,
    /// `<div my-directive>...</div>`
    Attribute,
}

/// The target of `ng-model="X"`: a scope path the directive writes to.
#[derive(Debug)]
pub struct HtmlNgModelTarget {
    /// The attribute value (`currentPage`, `vm.currentPage`, `user.profile.name`).
    pub property_path: String,
    pub uri: String,
    pub start_line: u32,
    pub start_col: u32,
    pub end_line: u32,
    pub end_col: u32,
}

impl HtmlNgModelTarget {
    pub fn span(&self) -> (r: Span)
        ensures
            r == (Span { start_line: self.start_line, start_col: self.start_col, end_line: self.end_line, end_col: self.end_col }),
    {
        Span::new(self.start_line, self.start_col, self.end_line, self.end_col)
    }
}

/// A custom directive used in a template.
#[derive(Debug)]
pub struct HtmlDirectiveReference {
    /// The directive's name in camelCase.
    pub directive_name: String,
    pub uri: String,
    pub start_line: u32,
    pub start_col: u32,
    pub end_line: u32,
    pub end_col: u32,
    pub usage_type: DirectiveUsageType,
}

/// The span of a directive reference.
pub open spec fn directive_reference_span(r: HtmlDirectiveReference) -> Span {
    Span { start_line: r.start_line, start_col: r.start_col, end_line: r.end_line, end_col: r.end_col }
}

impl HtmlDirectiveReference {
    pub fn span(&self) -> (r: Span)
        ensures
            r == directive_reference_span(*self),
    {
        Span::new(self.start_line, self.start_col, self.end_line, self.end_col)
    }
}

/// A ui-router state named by `ui-sref="state(...)"`; the span covers the name only.
#[derive(Debug)]
pub struct HtmlUiSrefReference {
    pub state_name: String,
    pub uri: String,
    pub start_line: u32,
    pub start_col: u32,
    pub end_line: u32,
    pub end_col: u32,
}

/// The span of a `ui-sref` state name.
pub open spec fn ui_sref_span(r: HtmlUiSrefReference) -> Span {
    Span { start_line: r.start_line, start_col: r.start_col, end_line: r.end_line, end_col: r.end_col }
}

impl HtmlUiSrefReference {
    pub fn span(&self) -> (r: Span)
        ensures
            r == ui_sref_span(*self),
    {
        Span::new(self.start_line, self.start_col, self.end_line, self.end_col)
    }
}

/// A custom element used in a template with all its attributes.
#[derive(Clone, Debug)]
pub struct HtmlComponentUsage {
    /// The element name in camelCase.
    pub component_name: String,
    pub uri: String,
    pub element_start_line: u32,
    pub element_start_col: u32,
    pub element_end_line: u32,
    pub element_end_col: u32,
    /// Every attribute of the element, standard ones included.
    pub attributes: Vec<HtmlComponentAttribute>,
}

/// One attribute of a component element.
#[derive(Debug)]
pub struct HtmlComponentAttribute {
    /// The name as written.
    pub name: String,
    /// The name in camelCase.
    pub camel_name: String,
    pub start_line: u32,
    pub start_col: u32,
    pub end_line: u32,
    pub end_col: u32,
}

impl HtmlComponentAttribute {
    pub fn span(&self) -> (r: Span)
        ensures
            r == (Span { start_line: self.start_line, start_col: self.start_col, end_line: self.end_line, end_col: self.end_col }),
    {
        Span::new(self.start_line, self.start_col, self.end_line, self.end_col)
    }
}

impl Clone for HtmlScopeReference {
    fn clone(&self) -> (r: Self)
        ensures
            r == *self,
    {
        HtmlScopeReference {
            property_path: self.property_path.clone(),
            uri: self.uri.clone(),
            start_line: self.start_line,
            start_col: self.start_col,
            end_line: self.end_line,
            end_col: self.end_col,
        }
    }
}

impl Clone for HtmlLocalVariable {
    fn clone(&self) -> (r: Self)
        ensures
            r == *self,
    {
        HtmlLocalVariable {
            name: self.name.clone(),
            source: self.source,
            uri: self.uri.clone(),
            scope_start_line: self.scope_start_line,
            scope_end_line: self.scope_end_line,
            name_start_line: self.name_start_line,
            name_start_col: self.name_start_col,
            name_end_line: self.name_end_line,
            name_end_col: self.name_end_col,
        }
    }
}

impl Clone for HtmlLocalVariableReference {
    fn clone(&self) -> (r: Self)
        ensures
            r == *self,
    {
        HtmlLocalVariableReference {
            variable_name: self.variable_name.clone(),
            uri: self.uri.clone(),
            start_line: self.start_line,
            start_col: self.start_col,
            end_line: self.end_line,
            end_col: self.end_col,
        }
    }
}

impl Clone for HtmlFormBinding {
    fn clone(&self) -> (r: Self)
        ensures
            r == *self,
    {
        HtmlFormBinding {
            name: self.name.clone(),
            uri: self.uri.clone(),
            scope_start_line: self.scope_start_line,
            scope_end_line: self.scope_end_line,
            name_start_line: self.name_start_line,
            name_start_col: self.name_start_col,
            name_end_line: self.name_end_line,
            name_end_col: self.name_end_col,
        }
    }
}

impl Clone for InheritedLocalVariable {
    fn clone(&self) -> (r: Self)
        ensures
            r == *self,
    {
        InheritedLocalVariable {
            name: self.name.clone(),
            source: self.source,
            uri: self.uri.clone(),
            scope_start_line: self.scope_start_line,
            scope_end_line: self.scope_end_line,
            name_start_line: self.name_start_line,
            name_start_col: self.name_start_col,
            name_end_line: self.name_end_line,
            name_end_col: self.name_end_col,
        }
    }
}

impl Clone for InheritedFormBinding {
    fn clone(&self) -> (r: Self)
        ensures
            r == *self,
    {
        InheritedFormBinding {
            name: self.name.clone(),
            uri: self.uri.clone(),
            scope_start_line: self.scope_start_line,
            scope_end_line: self.scope_end_line,
            name_start_line: self.name_start_line,
            name_start_col: self.name_start_col,
            name_end_line: self.name_end_line,
            name_end_col: self.name_end_col,
        }
    }
}

impl Clone for HtmlNgModelTarget {
    fn clone(&self) -> (r: Self)
        ensures
            r == *self,
    {
        HtmlNgModelTarget {
            property_path: self.property_path.clone(),
            uri: self.uri.clone(),
            start_line: self.start_line,
            start_col: self.start_col,
            end_line: self.end_line,
            end_col: self.end_col,
        }
    }
}

impl Clone for HtmlDirectiveReference {
    fn clone(&self) -> (r: Self)
        ensures
            r == *self,
    {
        HtmlDirectiveReference {
            directive_name: self.directive_name.clone(),
            uri: self.uri.clone(),
            start_line: self.start_line,
            start_col: self.start_col,
            end_line: self.end_line,
            end_col: self.end_col,
            usage_type: self.usage_type,
        }
    }
}

impl Clone for HtmlUiSrefReference {
    fn clone(&self) -> (r: Self)
        ensures
            r == *self,
    {
        HtmlUiSrefReference {
            state_name: self.state_name.clone(),
            uri: self.uri.clone(),
            start_line: self.start_line,
            start_col: self.start_col,
            end_line: self.end_line,
            end_col: self.end_col,
        }
    }
}

impl Clone for HtmlComponentAttribute {
    fn clone(&self) -> (r: Self)
        ensures
            r == *self,
    {
        HtmlComponentAttribute {
            name: self.name.clone(),
            camel_name: self.camel_name.clone(),
            start_line: self.start_line,
            start_col: self.start_col,
            end_line: self.end_line,
            end_col: self.end_col,
        }
    }
}

} // verus!
