use angularjs_lsp::index::store::HtmlLocalVariableSource as FlatSource;
use angularjs_lsp::index::symbol::SymbolKind as FlatKind;
use angularjs_lsp::model::{HtmlComponentAttribute, HtmlLocalVariableSource, ReferenceBuilder, Span, SymbolBuilder, SymbolKind};

#[test]
fn test_symbol_builder() {
    let uri = "file:///test.js".to_string();
    let symbol = SymbolBuilder::new("MyCtrl.$scope.name".to_string(), SymbolKind::ScopeProperty, uri.clone())
        .definition_span(Span::new(10, 0, 10, 30))
        .name_span(Span::new(10, 8, 10, 12))
        .docs("A scope property".to_string())
        .build();
    assert_eq!(symbol.name, "MyCtrl.$scope.name");
    assert_eq!(symbol.kind, SymbolKind::ScopeProperty);
    assert_eq!(symbol.uri, uri);
    assert_eq!(symbol.definition_span, Span::new(10, 0, 10, 30));
    assert_eq!(symbol.name_span, Span::new(10, 8, 10, 12));
    assert_eq!(symbol.docs.as_deref(), Some("A scope property"));
}

#[test]
fn test_reference_builder() {
    let uri = "file:///test.html".to_string();
    let reference = ReferenceBuilder::new("MyCtrl".to_string(), uri.clone()).span(Span::new(5, 10, 5, 16)).build();
    assert_eq!(reference.name, "MyCtrl");
    assert_eq!(reference.uri, uri);
    assert_eq!(reference.span, Span::new(5, 10, 5, 16));
}

#[test]
fn test_contains() {
    let span = Span::new(5, 10, 5, 20);
    assert!(span.contains(5, 10));
    assert!(span.contains(5, 15));
    assert!(span.contains(5, 20));
    assert!(!span.contains(5, 9));
    assert!(!span.contains(5, 21));
    assert!(!span.contains(4, 15));
    assert!(!span.contains(6, 15));
}

#[test]
fn test_contains_multiline() {
    let span = Span::new(5, 10, 8, 20);
    assert!(span.contains(5, 10));
    assert!(span.contains(6, 0));
    assert!(span.contains(7, 50));
    assert!(span.contains(8, 20));
    assert!(!span.contains(5, 9));
    assert!(!span.contains(8, 21));
}

#[test]
fn test_to_lsp_range() {
    let span = Span::new(5, 10, 8, 20);
    let range = span.to_lsp_range();
    assert_eq!(range.start.line, 5);
    assert_eq!(range.start.character, 10);
    assert_eq!(range.end.line, 8);
    assert_eq!(range.end.character, 20);
}

#[test]
fn range_size_weighs_lines() {
    assert_eq!(Span::new(0, 5, 0, 10).range_size(), 5);
    assert_eq!(Span::new(1, 2, 3, 4).range_size(), 2 * 10000 + 4 + (10000 - 2));
}

#[test]
fn contains_line_checks_lines_only() {
    let span = Span::new(2, 7, 4, 1);
    assert!(span.contains_line(2));
    assert!(span.contains_line(4));
    assert!(!span.contains_line(5));
}

#[test]
fn kind_names() {
    assert_eq!(SymbolKind::ScopeMethod.as_str(), "scope method");
    assert_eq!(SymbolKind::ComponentBinding.as_str(), "component binding");
    assert_eq!(FlatKind::FormBinding.as_str(), "form binding");
    assert_eq!(FlatKind::Module.as_str(), "module");
}

#[test]
fn local_variable_source_names() {
    assert_eq!(HtmlLocalVariableSource::NgRepeatSpecial.as_str(), "ng-repeat (special)");
    assert_eq!(HtmlLocalVariableSource::NgInit.as_str(), "ng-init");
    assert_eq!(FlatSource::NgRepeatKeyValue.as_str(), "ng-repeat");
}

#[test]
fn component_attribute_span() {
    let a = HtmlComponentAttribute {
        name: "on-select".to_string(),
        camel_name: "onSelect".to_string(),
        start_line: 3,
        start_col: 4,
        end_line: 3,
        end_col: 13,
    };
    assert_eq!(a.span(), Span::new(3, 4, 3, 13));
}
