use std::cell::Cell;

use angularjs_lsp::index::definition_store::DefinitionStore;
use angularjs_lsp::model::{Span, Symbol, SymbolBuilder, SymbolKind, SymbolReference};

fn make_uri() -> String {
    "file:///test.js".to_string()
}

fn make_reference(name: &str, uri: &str) -> SymbolReference {
    SymbolReference { name: name.to_string(), uri: uri.to_string(), span: Span::new(0, 0, 0, name.len() as u32) }
}

fn make_definition(name: &str, uri: &str) -> Symbol {
    let span = Span::new(0, 0, 0, name.len() as u32);
    SymbolBuilder::new(name.to_string(), SymbolKind::ScopeProperty, uri.to_string())
        .definition_span(span)
        .name_span(span)
        .build()
}

fn make_definition_at(name: &str, uri: &str, span: Span) -> Symbol {
    SymbolBuilder::new(name.to_string(), SymbolKind::ScopeProperty, uri.to_string())
        .definition_span(span)
        .name_span(span)
        .build()
}

fn make_reference_at(name: &str, uri: &str, span: Span) -> SymbolReference {
    SymbolReference { name: name.to_string(), uri: uri.to_string(), span }
}

fn has(names: &[String], n: &str) -> bool {
    names.iter().any(|x| x == n)
}

#[test]
fn clear_document_removes_empty_reference_keys() {
    let mut store = DefinitionStore::new();
    let uri = make_uri();
    for name in ["Ctrl.$scope.mo", "Ctrl.$scope.moc", "Ctrl.$scope.moch", "Ctrl.$scope.mochi"] {
        store.add_reference(make_reference(name, &uri));
    }
    store.clear_document(&uri);
    let names = store.get_reference_only_names();
    assert!(names.is_empty(), "expected no reference-only names after clear, got {:?}", names);
}

#[test]
fn deleted_reference_does_not_resurface_in_completion() {
    let mut store = DefinitionStore::new();
    let uri = make_uri();
    store.add_reference(make_reference("Ctrl.$scope.mochi", &uri));
    assert_eq!(store.get_reference_only_names(), vec!["Ctrl.$scope.mochi"]);
    store.clear_document(&uri);
    assert!(store.get_reference_only_names().is_empty());
}

#[test]
fn clear_document_preserves_other_uris() {
    let mut store = DefinitionStore::new();
    let uri_a = "file:///a.js";
    let uri_b = "file:///b.js";
    store.add_reference(make_reference("Ctrl.$scope.shared", uri_a));
    store.add_reference(make_reference("Ctrl.$scope.shared", uri_b));
    store.clear_document(uri_a);
    let names = store.get_reference_only_names();
    assert_eq!(names, vec!["Ctrl.$scope.shared"]);
    assert_eq!(store.get_references("Ctrl.$scope.shared").len(), 1);
}

#[test]
fn clear_document_removes_empty_definition_keys() {
    let mut store = DefinitionStore::new();
    let uri = make_uri();
    store.add_definition(make_definition("Ctrl.$scope.mochi", &uri));
    store.add_reference(make_reference("Ctrl.$scope.other", &uri));
    store.clear_document(&uri);
    assert!(!store.has_definition("Ctrl.$scope.mochi"));
    assert!(store.get_reference_only_names().is_empty());
}

#[test]
fn get_definitions_for_uri_returns_only_target_uri() {
    let mut store = DefinitionStore::new();
    let uri_a = "file:///a.js";
    let uri_b = "file:///b.js";
    store.add_definition(make_definition("Ctrl.$scope.foo", uri_a));
    store.add_definition(make_definition("Ctrl.$scope.bar", uri_a));
    store.add_definition(make_definition("Ctrl.$scope.shared", uri_a));
    store.add_definition(make_definition("Ctrl.$scope.shared", uri_b));
    let mut names: Vec<String> = store.get_definitions_for_uri(uri_a).into_iter().map(|s| s.name).collect();
    names.sort();
    assert_eq!(
        names,
        vec!["Ctrl.$scope.bar".to_string(), "Ctrl.$scope.foo".to_string(), "Ctrl.$scope.shared".to_string()]
    );
    let names_b: Vec<String> = store.get_definitions_for_uri(uri_b).into_iter().map(|s| s.name).collect();
    assert_eq!(names_b, vec!["Ctrl.$scope.shared".to_string()]);
}

#[test]
fn get_scope_definitions_for_js_filters_by_kind() {
    let mut store = DefinitionStore::new();
    let uri = make_uri();
    let span = Span::new(0, 0, 0, 4);
    let scope_prop = SymbolBuilder::new("Ctrl.$scope.x".to_string(), SymbolKind::ScopeProperty, uri.clone())
        .definition_span(span)
        .name_span(span)
        .build();
    let scope_method = SymbolBuilder::new("Ctrl.$scope.fn".to_string(), SymbolKind::ScopeMethod, uri.clone())
        .definition_span(Span::new(1, 0, 1, 2))
        .name_span(Span::new(1, 0, 1, 2))
        .build();
    let controller = SymbolBuilder::new("Ctrl".to_string(), SymbolKind::Controller, uri.clone())
        .definition_span(Span::new(2, 0, 2, 4))
        .name_span(Span::new(2, 0, 2, 4))
        .build();
    store.add_definition(scope_prop);
    store.add_definition(scope_method);
    store.add_definition(controller);
    let mut names: Vec<String> = store.get_scope_definitions_for_js(&uri).into_iter().map(|s| s.name).collect();
    names.sort();
    assert_eq!(names, vec!["Ctrl.$scope.fn".to_string(), "Ctrl.$scope.x".to_string()]);
}

#[test]
fn document_symbols_dedupes_repeated_adds() {
    let mut store = DefinitionStore::new();
    let uri = make_uri();
    let def1 = SymbolBuilder::new("Ctrl.$scope.x".to_string(), SymbolKind::ScopeProperty, uri.clone())
        .definition_span(Span::new(0, 0, 0, 1))
        .name_span(Span::new(0, 0, 0, 1))
        .build();
    let def2 = SymbolBuilder::new("Ctrl.$scope.x".to_string(), SymbolKind::ScopeProperty, uri.clone())
        .definition_span(Span::new(2, 0, 2, 1))
        .name_span(Span::new(2, 0, 2, 1))
        .build();
    store.add_definition(def1);
    store.add_definition(def2);
    store.add_reference(SymbolReference { name: "Ctrl.$scope.x".to_string(), uri: uri.clone(), span: Span::new(3, 0, 3, 1) });
    let entry = store.get_document_names(&uri);
    assert_eq!(entry.len(), 1);
    assert!(has(&entry, "Ctrl.$scope.x"));
    assert_eq!(store.get_definitions("Ctrl.$scope.x").len(), 2);
}

#[test]
fn get_definition_names_for_uri_returns_only_definitions_in_uri() {
    let mut store = DefinitionStore::new();
    let uri_a = "file:///a.html";
    let uri_b = "file:///b.js";
    store.add_definition(make_definition("Ctrl.$scope.foo", uri_a));
    store.add_definition(make_definition("Ctrl.$scope.bar", uri_a));
    store.add_definition(make_definition("Ctrl.$scope.baz", uri_b));
    let mut names_vec = store.get_definition_names_for_uri(uri_a);
    names_vec.sort();
    assert_eq!(names_vec, vec!["Ctrl.$scope.bar".to_string(), "Ctrl.$scope.foo".to_string()]);
}

#[test]
fn get_definition_names_for_uri_excludes_reference_only() {
    let mut store = DefinitionStore::new();
    let uri = make_uri();
    store.add_reference(make_reference("Ctrl.$scope.unknown", &uri));
    store.add_definition(make_definition("Ctrl.$scope.foo", &uri));
    store.add_reference(make_reference("Ctrl.$scope.foo", &uri));
    let names = store.get_definition_names_for_uri(&uri);
    assert!(has(&names, "Ctrl.$scope.foo"));
    assert!(!has(&names, "Ctrl.$scope.unknown"));
    assert_eq!(names.len(), 1);
}

#[test]
fn get_definition_names_for_uri_returns_empty_for_unknown() {
    let store = DefinitionStore::new();
    assert!(store.get_definition_names_for_uri(&make_uri()).is_empty());
}

#[test]
fn get_definition_names_for_uri_drops_after_clear_document() {
    let mut store = DefinitionStore::new();
    let uri = make_uri();
    store.add_definition(make_definition("Ctrl.$scope.foo", &uri));
    assert_eq!(store.get_definition_names_for_uri(&uri).len(), 1);
    store.clear_document(&uri);
    assert!(store.get_definition_names_for_uri(&uri).is_empty());
}

#[test]
fn any_reference_returns_true_when_predicate_matches() {
    let mut store = DefinitionStore::new();
    let uri_a = "file:///a.js";
    let uri_b = "file:///b.js".to_string();
    store.add_reference(make_reference("Ctrl.$scope.x", uri_a));
    store.add_reference(SymbolReference { name: "Ctrl.$scope.x".to_string(), uri: uri_b.clone(), span: Span::new(1, 0, 1, 1) });
    assert!(store.any_reference("Ctrl.$scope.x", |r: &SymbolReference| r.uri == uri_b));
}

#[test]
fn any_reference_returns_false_when_no_match() {
    let mut store = DefinitionStore::new();
    let uri_a = "file:///a.js";
    let uri_other = "file:///other.js".to_string();
    store.add_reference(make_reference("Ctrl.$scope.x", uri_a));
    assert!(!store.any_reference("Ctrl.$scope.x", |r: &SymbolReference| r.uri == uri_other));
}

#[test]
fn any_reference_short_circuits_on_first_match() {
    let mut store = DefinitionStore::new();
    let uri = make_uri();
    for line in 0..5u32 {
        store.add_reference(SymbolReference { name: "Ctrl.$scope.x".to_string(), uri: uri.clone(), span: Span::new(line, 0, line, 1) });
    }
    let visits = Cell::new(0);
    let result = store.any_reference("Ctrl.$scope.x", |_: &SymbolReference| {
        visits.set(visits.get() + 1);
        true
    });
    assert!(result);
    assert_eq!(visits.get(), 1);
}

#[test]
fn any_reference_returns_false_for_unknown_name() {
    let store = DefinitionStore::new();
    assert!(!store.any_reference("does.not.exist", |_: &SymbolReference| true));
}

#[test]
fn find_symbol_at_position_returns_none_for_unknown_uri() {
    let store = DefinitionStore::new();
    assert_eq!(store.find_symbol_at_position("file:///never-touched.js", 0, 0), None);
}

#[test]
fn find_symbol_at_position_finds_definition() {
    let mut store = DefinitionStore::new();
    let uri = make_uri();
    store.add_definition(make_definition_at("MyCtrl", &uri, Span::new(5, 0, 5, 6)));
    assert_eq!(store.find_symbol_at_position(&uri, 5, 3), Some("MyCtrl".to_string()));
}

#[test]
fn find_symbol_at_position_finds_reference() {
    let mut store = DefinitionStore::new();
    let uri = make_uri();
    store.add_reference(make_reference_at("RefOnly", &uri, Span::new(10, 4, 10, 10)));
    assert_eq!(store.find_symbol_at_position(&uri, 10, 7), Some("RefOnly".to_string()));
}

#[test]
fn find_symbol_at_position_prefers_smallest_range() {
    let mut store = DefinitionStore::new();
    let uri = make_uri();
    store.add_definition(make_definition_at("OuterSymbol", &uri, Span::new(0, 0, 0, 20)));
    store.add_definition(make_definition_at("Inner", &uri, Span::new(0, 5, 0, 10)));
    assert_eq!(store.find_symbol_at_position(&uri, 0, 7), Some("Inner".to_string()));
}

#[test]
fn find_symbol_at_position_ignores_other_uris() {
    let mut store = DefinitionStore::new();
    let uri_a = "file:///a.js";
    let uri_b = "file:///b.js";
    let span = Span::new(0, 0, 0, 6);
    store.add_definition(make_definition_at("Shared", uri_a, span));
    store.add_definition(make_definition_at("Shared", uri_b, span));
    assert_eq!(store.find_symbol_at_position(uri_a, 0, 3), Some("Shared".to_string()));
    assert_eq!(store.find_symbol_at_position(uri_b, 0, 3), Some("Shared".to_string()));
}

#[test]
fn find_symbol_at_position_returns_none_for_unmatched_position() {
    let mut store = DefinitionStore::new();
    let uri = make_uri();
    store.add_definition(make_definition_at("MyCtrl", &uri, Span::new(0, 0, 0, 6)));
    assert_eq!(store.find_symbol_at_position(&uri, 5, 0), None);
}

#[test]
fn get_reference_names_for_uri_collects_only_target_uri() {
    let mut store = DefinitionStore::new();
    let uri_a = "file:///a.html";
    let uri_b = "file:///b.html";
    store.add_reference(make_reference("RefA1", uri_a));
    store.add_reference(make_reference("RefA2", uri_a));
    store.add_reference(make_reference("RefB1", uri_b));
    store.add_reference(make_reference("RefA1", uri_b));
    let names_a = store.get_reference_names_for_uri(uri_a);
    assert_eq!(names_a.len(), 2);
    assert!(has(&names_a, "RefA1"));
    assert!(has(&names_a, "RefA2"));
    let names_b = store.get_reference_names_for_uri(uri_b);
    assert_eq!(names_b.len(), 2);
    assert!(has(&names_b, "RefA1"));
    assert!(has(&names_b, "RefB1"));
}

#[test]
fn get_reference_names_for_uri_includes_names_with_only_references() {
    let mut store = DefinitionStore::new();
    let uri = make_uri();
    store.add_reference(make_reference("OnlyRef", &uri));
    let names = store.get_reference_names_for_uri(&uri);
    assert_eq!(names.len(), 1);
    assert!(has(&names, "OnlyRef"));
}

#[test]
fn get_reference_names_for_uri_excludes_definition_only_names() {
    let mut store = DefinitionStore::new();
    let uri = make_uri();
    store.add_definition(make_definition("DefOnly", &uri));
    assert!(store.get_reference_names_for_uri(&uri).is_empty());
}

#[test]
fn get_reference_names_for_uri_returns_empty_for_unknown_uri() {
    let store = DefinitionStore::new();
    assert!(store.get_reference_names_for_uri("file:///never-touched.js").is_empty());
}

#[test]
fn get_reference_names_for_uri_drops_after_clear_document() {
    let mut store = DefinitionStore::new();
    let uri = make_uri();
    store.add_reference(make_reference("Foo", &uri));
    assert_eq!(store.get_reference_names_for_uri(&uri).len(), 1);
    store.clear_document(&uri);
    assert!(store.get_reference_names_for_uri(&uri).is_empty());
}

#[test]
fn adding_the_same_definition_twice_keeps_one() {
    let mut store = DefinitionStore::new();
    let uri = make_uri();
    store.add_definition(make_definition("Ctrl.$scope.x", &uri));
    store.add_definition(make_definition("Ctrl.$scope.x", &uri));
    assert_eq!(store.get_definitions("Ctrl.$scope.x").len(), 1);
}

#[test]
fn root_scope_lookups_match_the_property_suffix() {
    let mut store = DefinitionStore::new();
    let uri = make_uri();
    let sym = SymbolBuilder::new("app.$rootScope.user".to_string(), SymbolKind::RootScopeProperty, uri.clone())
        .definition_span(Span::new(1, 0, 1, 4))
        .name_span(Span::new(1, 0, 1, 4))
        .build();
    store.add_definition(sym);
    store.add_reference(make_reference("app.$rootScope.user", &uri));
    assert_eq!(store.find_root_scope_definitions_by_property("user").len(), 1);
    assert_eq!(store.find_root_scope_references_by_property("user").len(), 1);
    assert_eq!(store.find_root_scope_symbol_name_by_property("user"), Some("app.$rootScope.user".to_string()));
    assert_eq!(store.find_root_scope_symbol_name_by_property("other"), None);
    assert!(store.find_root_scope_definitions_by_property("use").is_empty());
}

#[test]
fn service_or_factory_is_recognised() {
    let mut store = DefinitionStore::new();
    let uri = make_uri();
    let sym = SymbolBuilder::new("UserService".to_string(), SymbolKind::Factory, uri.clone()).build();
    store.add_definition(sym);
    assert!(store.is_service_or_factory("UserService"));
    assert!(store.has_definition_of_kind("UserService", SymbolKind::Factory));
    assert!(!store.has_definition_of_kind("UserService", SymbolKind::Service));
    assert!(!store.is_service_or_factory("Other"));
}

#[test]
fn clear_all_empties_the_store() {
    let mut store = DefinitionStore::new();
    let uri = make_uri();
    store.add_definition(make_definition("A", &uri));
    store.add_reference(make_reference("B", &uri));
    store.clear_all();
    assert!(store.get_all_definitions().is_empty());
    assert!(store.get_references("B").is_empty());
    assert!(store.get_document_names(&uri).is_empty());
}

#[test]
fn for_each_reference_visits_all_refs() {
    let mut store = DefinitionStore::new();
    let uri_a = "file:///a.js".to_string();
    let uri_b = "file:///b.js".to_string();
    store.add_reference(make_reference("Ctrl.$scope.x", &uri_a));
    store.add_reference(SymbolReference { name: "Ctrl.$scope.x".to_string(), uri: uri_b.clone(), span: Span::new(1, 0, 1, 1) });
    let mut visited: Vec<String> = Vec::new();
    store.for_each_reference("Ctrl.$scope.x", |r: &SymbolReference| {
        visited.push(r.uri.clone());
    });
    visited.sort();
    let mut expected = vec![uri_a, uri_b];
    expected.sort();
    assert_eq!(visited, expected);
}

#[test]
fn for_each_reference_does_nothing_for_unknown_name() {
    let store = DefinitionStore::new();
    let mut count = 0;
    store.for_each_reference("does.not.exist", |_: &SymbolReference| count += 1);
    assert_eq!(count, 0);
}
