use angularjs_lsp::handler::completion::{CompletionHandler, CompletionKind};
use angularjs_lsp::handler::definition::{DefinitionHandler, DefinitionResponse};
use angularjs_lsp::handler::diagnostics::{DiagnosticsConfig, DiagnosticsHandler, Severity, UNDEFINED_SCOPE_PROPERTY_CODE};
use angularjs_lsp::handler::hover::HoverHandler;
use angularjs_lsp::index::html_resolve::HtmlResolution;
use angularjs_lsp::index::Index;
use angularjs_lsp::lsp::Position;
use angularjs_lsp::model::builder::{ReferenceBuilder, SymbolBuilder};
use angularjs_lsp::model::html::{HtmlComponentAttribute, HtmlComponentUsage, HtmlFormBinding, HtmlLocalVariable, HtmlLocalVariableReference, HtmlLocalVariableSource, HtmlScopeReference};
use angularjs_lsp::model::scope::HtmlControllerScope;
use angularjs_lsp::model::span::Span;
use angularjs_lsp::model::symbol::SymbolKind;

const JS: &str = "file:///app/app.js";
const OTHER_JS: &str = "file:///app/other.js";
const HTML: &str = "file:///app/index.html";

fn define(index: &mut Index, name: &str, kind: SymbolKind, line: u32, docs: Option<&str>) {
    let mut b = SymbolBuilder::new(name.to_string(), kind, JS.to_string())
        .definition_span(Span::new(line, 0, line + 2, 1))
        .name_span(Span::new(line, 4, line, 4 + name.len() as u32));
    if let Some(d) = docs {
        b = b.docs(d.to_string());
    }
    index.definitions.add_definition(b.build());
}

fn refer(index: &mut Index, name: &str, uri: &str, line: u32, col: u32) {
    let r = ReferenceBuilder::new(name.to_string(), uri.to_string())
        .span(Span::new(line, col, line, col + name.len() as u32))
        .build();
    index.definitions.add_reference(r);
}

fn controller_scope(index: &mut Index, name: &str, alias: Option<&str>, start: u32, end: u32) {
    index.controllers.add_html_controller_scope(HtmlControllerScope {
        controller_name: name.to_string(),
        alias: alias.map(|a| a.to_string()),
        uri: HTML.to_string(),
        start_line: start,
        end_line: end,
    });
}

fn scope_ref(index: &mut Index, path: &str, line: u32, col: u32) {
    index.html.add_html_scope_reference(HtmlScopeReference {
        property_path: path.to_string(),
        uri: HTML.to_string(),
        start_line: line,
        start_col: col,
        end_line: line,
        end_col: col + path.len() as u32,
    });
}

fn config() -> DiagnosticsConfig {
    DiagnosticsConfig {
        enabled: true,
        severity: "error".to_string(),
        bindings_mismatch_severity: None,
        unused_scope_variables: true,
        component_bindings_mismatch: false,
        require_callback_bindings: false,
    }
}

fn pos(line: u32, character: u32) -> Position {
    Position { line, character }
}

#[test]
fn definition_from_script_lists_every_definition() {
    let mut index = Index::new();
    define(&mut index, "MainCtrl", SymbolKind::Controller, 0, None);
    refer(&mut index, "MainCtrl", OTHER_JS, 3, 4);
    let handler = DefinitionHandler::new(&index);
    match handler.goto_definition(OTHER_JS, pos(3, 6)) {
        Some(DefinitionResponse::Array(locs)) => {
            assert_eq!(locs.len(), 1);
            assert_eq!(locs[0].uri, JS);
            assert_eq!(locs[0].range.start, pos(0, 0));
            assert_eq!(locs[0].range.end, pos(2, 1));
        }
        _ => panic!("expected the controller's definition"),
    }
    assert!(handler.goto_definition(OTHER_JS, pos(9, 0)).is_none());
}

#[test]
fn definition_from_template_follows_the_controller_scope() {
    let mut index = Index::new();
    define(&mut index, "MainCtrl", SymbolKind::Controller, 0, None);
    define(&mut index, "MainCtrl.$scope.user", SymbolKind::ScopeProperty, 5, None);
    controller_scope(&mut index, "MainCtrl", None, 0, 20);
    scope_ref(&mut index, "user", 4, 10);
    let handler = DefinitionHandler::new(&index);
    match handler.goto_definition(HTML, pos(4, 11)) {
        Some(DefinitionResponse::Array(locs)) => {
            assert_eq!(locs.len(), 1);
            assert_eq!(locs[0].uri, JS);
            assert_eq!(locs[0].range.start, pos(5, 0));
        }
        _ => panic!("expected the scope property's definition"),
    }
    assert!(handler.goto_definition(HTML, pos(30, 0)).is_none());
}

#[test]
fn undefined_scope_property_is_reported_in_the_template() {
    let mut index = Index::new();
    define(&mut index, "MainCtrl", SymbolKind::Controller, 0, None);
    define(&mut index, "MainCtrl.$scope.user", SymbolKind::ScopeProperty, 5, None);
    controller_scope(&mut index, "MainCtrl", None, 0, 20);
    scope_ref(&mut index, "user", 4, 10);
    scope_ref(&mut index, "missing", 6, 2);
    scope_ref(&mut index, "$index", 7, 2);
    let handler = DiagnosticsHandler::new(&index, config());
    let ds = handler.check_scope_references(HTML);
    assert_eq!(ds.len(), 1);
    assert_eq!(ds[0].message, "Property 'missing' is not defined in scope");
    assert_eq!(ds[0].severity, Severity::Error);
    assert_eq!(ds[0].range.start, pos(6, 2));
    assert_eq!(ds[0].range.end, pos(6, 9));
    assert!(!ds[0].unnecessary);
    assert_eq!(ds[0].code.as_deref(), Some(UNDEFINED_SCOPE_PROPERTY_CODE));
}

#[test]
fn aliased_scope_property_names_the_controller() {
    let mut index = Index::new();
    define(&mut index, "MainCtrl", SymbolKind::Controller, 0, None);
    controller_scope(&mut index, "MainCtrl", Some("vm"), 0, 20);
    scope_ref(&mut index, "vm.title", 3, 4);
    let handler = DiagnosticsHandler::new(&index, config());
    let ds = handler.diagnose_html(HTML);
    assert_eq!(ds.len(), 1);
    assert_eq!(ds[0].message, "Property 'title' is not defined in controller 'MainCtrl'");
}

#[test]
fn diagnostics_switched_off_report_nothing() {
    let mut index = Index::new();
    define(&mut index, "MainCtrl", SymbolKind::Controller, 0, None);
    controller_scope(&mut index, "MainCtrl", None, 0, 20);
    scope_ref(&mut index, "missing", 6, 2);
    let mut c = config();
    c.enabled = false;
    let handler = DiagnosticsHandler::new(&index, c);
    assert!(handler.diagnose_html(HTML).is_empty());
    assert!(handler.diagnose_js(JS).is_empty());
}

#[test]
fn undefined_local_variable_is_reported() {
    let mut index = Index::new();
    index.html.add_html_local_variable(HtmlLocalVariable {
        name: "item".to_string(),
        source: HtmlLocalVariableSource::NgRepeatIterator,
        uri: HTML.to_string(),
        scope_start_line: 2,
        scope_end_line: 8,
        name_start_line: 2,
        name_start_col: 20,
        name_end_line: 2,
        name_end_col: 24,
    });
    for (name, line) in [("item", 4u32), ("other", 5u32), ("item", 12u32)] {
        index.html.add_html_local_variable_reference(HtmlLocalVariableReference {
            variable_name: name.to_string(),
            uri: HTML.to_string(),
            start_line: line,
            start_col: 1,
            end_line: line,
            end_col: 1 + name.len() as u32,
        });
    }
    let handler = DiagnosticsHandler::new(&index, config());
    let ds = handler.check_local_variable_references(HTML);
    let messages: Vec<&str> = ds.iter().map(|d| d.message.as_str()).collect();
    assert_eq!(messages.len(), 2);
    assert!(ds.iter().all(|d| d.code.is_none()));
    assert!(messages.contains(&"Local variable 'other' is not defined in scope"));
    assert!(messages.contains(&"Local variable 'item' is not defined in scope"));
}

#[test]
fn hover_on_a_script_symbol_shows_kind_file_and_references() {
    let mut index = Index::new();
    define(&mut index, "UserService", SymbolKind::Service, 9, Some("Loads users."));
    refer(&mut index, "UserService", OTHER_JS, 3, 4);
    let handler = HoverHandler::new(&index);
    let h = handler.hover(OTHER_JS, pos(3, 5)).expect("a card");
    assert_eq!(
        h.contents,
        "**UserService** (*service*)\n\nLoads users.\n\n---\n\nDefined in: `app.js:10`\n\nReferences: 1"
    );
    assert!(handler.hover(OTHER_JS, pos(40, 0)).is_none());
}

#[test]
fn hover_on_a_local_variable_counts_its_uses() {
    let mut index = Index::new();
    index.html.add_html_local_variable(HtmlLocalVariable {
        name: "item".to_string(),
        source: HtmlLocalVariableSource::NgRepeatIterator,
        uri: HTML.to_string(),
        scope_start_line: 2,
        scope_end_line: 8,
        name_start_line: 2,
        name_start_col: 20,
        name_end_line: 2,
        name_end_col: 24,
    });
    for line in [3u32, 5u32, 11u32] {
        index.html.add_html_local_variable_reference(HtmlLocalVariableReference {
            variable_name: "item".to_string(),
            uri: HTML.to_string(),
            start_line: line,
            start_col: 1,
            end_line: line,
            end_col: 5,
        });
    }
    let handler = HoverHandler::new(&index);
    let h = handler.hover(HTML, pos(2, 21)).expect("a card");
    assert_eq!(
        h.contents,
        "**item** (*HTML local variable*)\n\nSource: `ng-repeat iterator`\nScope: lines 3-9\n\nReferences: 2"
    );
}

#[test]
fn completion_after_root_scope_lists_its_properties() {
    let mut index = Index::new();
    define(&mut index, "app.$rootScope.currentUser", SymbolKind::RootScopeProperty, 0, None);
    define(&mut index, "app.$rootScope.logout", SymbolKind::RootScopeMethod, 4, None);
    define(&mut index, "UserService", SymbolKind::Service, 8, None);
    let handler = CompletionHandler::new(&index);
    let items = handler.complete_with_context(Some("$rootScope"), None, &Vec::new()).expect("items");
    let mut labels: Vec<(String, CompletionKind)> = items.iter().map(|i| (i.label.clone(), i.kind)).collect();
    labels.sort_by(|a, b| a.0.cmp(&b.0));
    assert_eq!(
        labels,
        vec![
            ("currentUser".to_string(), CompletionKind::Property),
            ("logout".to_string(), CompletionKind::Function),
        ]
    );
}

#[test]
fn plain_completion_sorts_injected_services_first() {
    let mut index = Index::new();
    define(&mut index, "UserService", SymbolKind::Service, 0, None);
    define(&mut index, "OrderService", SymbolKind::Service, 4, None);
    define(&mut index, "MainCtrl", SymbolKind::Controller, 8, None);
    let handler = CompletionHandler::new(&index);
    let injected = vec!["UserService".to_string()];
    let items = handler.complete_with_context(None, Some("MainCtrl"), &injected).expect("items");
    assert_eq!(items.len(), 2);
    for item in items.iter() {
        if item.label == "UserService" {
            assert_eq!(item.sort_text.as_deref(), Some("0_UserService"));
            assert_eq!(item.detail, "service (injected)");
        } else {
            assert_eq!(item.label, "OrderService");
            assert_eq!(item.sort_text.as_deref(), Some("1_OrderService"));
            assert_eq!(item.detail, "service");
        }
    }
}

#[test]
fn directive_completion_uses_kebab_case_names() {
    let mut index = Index::new();
    define(&mut index, "userCard", SymbolKind::Component, 0, None);
    define(&mut index, "MainCtrl", SymbolKind::Controller, 4, None);
    let handler = CompletionHandler::new(&index);
    let items = handler.complete_directives("user", true).expect("items");
    assert_eq!(items.len(), 1);
    assert_eq!(items[0].label, "user-card");
    assert!(handler.complete_directives("zzz", true).is_none());
}

fn attr(name: &str, camel: &str) -> HtmlComponentAttribute {
    HtmlComponentAttribute {
        name: name.to_string(),
        camel_name: camel.to_string(),
        start_line: 3,
        start_col: 10,
        end_line: 3,
        end_col: 10 + name.len() as u32,
    }
}

#[test]
fn component_element_missing_required_bindings_gets_one_diagnostic() {
    let mut index = Index::new();
    define(&mut index, "userCard", SymbolKind::Component, 1, None);
    define(&mut index, "userCard.user", SymbolKind::ComponentBinding, 2, Some("Component binding: <"));
    define(&mut index, "userCard.title", SymbolKind::ComponentBinding, 3, Some("Component binding: @"));
    define(&mut index, "userCard.note", SymbolKind::ComponentBinding, 4, Some("Component binding: ?<"));
    define(&mut index, "userCard.onSave", SymbolKind::ComponentBinding, 5, Some("Component binding: &"));
    index.html.add_component_usage(HtmlComponentUsage {
        component_name: "userCard".to_string(),
        uri: HTML.to_string(),
        element_start_line: 3,
        element_start_col: 2,
        element_end_line: 3,
        element_end_col: 40,
        attributes: vec![attr("title", "title")],
    });
    let mut c = config();
    c.component_bindings_mismatch = true;
    let handler = DiagnosticsHandler::new(&index, c);
    let ds = handler.check_component_bindings_mismatch_html(HTML);
    let missing: Vec<_> = ds.iter().filter(|d| d.message.starts_with("Missing required binding")).collect();
    assert_eq!(missing.len(), 1);
    assert_eq!(missing[0].message, "Missing required binding 'user' on component 'userCard'");
    assert_eq!(missing[0].range.start.line, 3);
    assert_eq!(missing[0].range.start.character, 2);
}

#[test]
fn definition_from_template_alias_falls_back_to_controller_method() {
    let mut index = Index::new();
    controller_scope(&mut index, "MainCtrl", Some("vm"), 0, 10);
    scope_ref(&mut index, "vm.save", 5, 3);
    let s = SymbolBuilder::new("MainCtrl.save".to_string(), SymbolKind::Method, "file:///c.js".to_string())
        .definition_span(Span::new(2, 4, 2, 30))
        .name_span(Span::new(2, 9, 2, 13))
        .build();
    index.definitions.add_definition(s);
    let handler = DefinitionHandler::new(&index);
    match handler.goto_definition_with_source(HTML, pos(5, 6), None) {
        Some(DefinitionResponse::Array(locs)) => {
            assert_eq!(locs.len(), 1);
            assert_eq!(locs[0].uri, "file:///c.js");
            assert_eq!(locs[0].range.start, pos(2, 4));
            assert_eq!(locs[0].range.end, pos(2, 30));
        }
        _ => panic!("expected the controller method's definition"),
    }
}

#[test]
fn template_resolution_prefers_inherited_form_named_by_first_segment() {
    let mut index = Index::new();
    controller_scope(&mut index, "MainCtrl", None, 0, 10);
    scope_ref(&mut index, "userForm.$valid", 5, 3);
    index.html.add_html_form_binding(HtmlFormBinding {
        name: "userForm".to_string(),
        uri: HTML.to_string(),
        scope_start_line: 0,
        scope_end_line: 10,
        name_start_line: 1,
        name_start_col: 12,
        name_end_line: 1,
        name_end_col: 20,
    });
    match index.resolve_html_position(HTML, pos(5, 4), None) {
        Some(HtmlResolution::InheritedFormBinding(f)) => assert_eq!(f.name, "userForm"),
        _ => panic!("expected the form named by the path's first segment"),
    }
    match index.resolve_html_position(HTML, pos(9, 0), None) {
        None => {}
        _ => panic!("expected nothing where nothing is"),
    }
}
