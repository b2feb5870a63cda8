use angularjs_lsp::handler::completion::{service_prefix_at, CompletionHandler};
use angularjs_lsp::index::Index;
use angularjs_lsp::model::builder::SymbolBuilder;
use angularjs_lsp::model::html::{HtmlFormBinding, HtmlLocalVariable, HtmlLocalVariableSource};
use angularjs_lsp::model::scope::{ControllerScope, HtmlControllerScope};
use angularjs_lsp::model::span::Span;
use angularjs_lsp::model::symbol::SymbolKind;

const JS: &str = "file:///app/app.js";
const HTML: &str = "file:///app/list.html";

fn define(index: &mut Index, name: &str, kind: SymbolKind) {
    let s = SymbolBuilder::new(name.to_string(), kind, JS.to_string())
        .definition_span(Span::new(1, 0, 3, 1))
        .name_span(Span::new(1, 0, 1, name.len() as u32))
        .build();
    index.definitions.add_definition(s);
}

fn labels(items: &[angularjs_lsp::handler::completion::CompletionItem]) -> Vec<String> {
    items.iter().map(|i| i.label.clone()).collect()
}

#[test]
fn service_prefix_before_trailing_dot() {
    let text = "var x = 1;\n  return UserService.";
    assert_eq!(service_prefix_at(text, 1, 21).as_deref(), Some("UserService"));
    assert_eq!(service_prefix_at("$scope.", 0, 7).as_deref(), Some("$scope"));
    assert_eq!(service_prefix_at("a + .", 0, 5), None);
    assert_eq!(service_prefix_at("UserService", 0, 11), None);
    assert_eq!(service_prefix_at("foo.", 0, 9), None);
    assert_eq!(service_prefix_at("foo.", 3, 0), None);
}

#[test]
fn script_completion_after_service_lists_its_methods() {
    let mut index = Index::new();
    define(&mut index, "UserService", SymbolKind::Service);
    define(&mut index, "UserService.save", SymbolKind::Method);
    define(&mut index, "UserService.load", SymbolKind::Method);
    let handler = CompletionHandler::new(&index);
    let items = handler.complete_at(JS, "UserService.", 0, 12, false).unwrap();
    let mut l = labels(&items);
    l.sort();
    assert_eq!(l, vec!["load".to_string(), "save".to_string()]);
}

#[test]
fn script_completion_after_unknown_object_is_left_to_others() {
    let mut index = Index::new();
    define(&mut index, "UserService", SymbolKind::Service);
    let handler = CompletionHandler::new(&index);
    assert!(handler.complete_at(JS, "console.", 0, 8, false).is_none());
}

#[test]
fn script_completion_without_prefix_skips_controllers() {
    let mut index = Index::new();
    define(&mut index, "UserService", SymbolKind::Service);
    define(&mut index, "MainCtrl", SymbolKind::Controller);
    index.controllers.add_controller_scope(ControllerScope {
        name: "MainCtrl".to_string(),
        uri: JS.to_string(),
        start_line: 0,
        end_line: 10,
        injected_services: vec!["UserService".to_string()],
    });
    let handler = CompletionHandler::new(&index);
    let items = handler.complete_at(JS, "  Us", 2, 4, false).unwrap();
    assert_eq!(labels(&items), vec!["UserService".to_string()]);
    assert_eq!(items[0].sort_text.as_deref(), Some("0_UserService"));
}

#[test]
fn template_completion_merges_scope_variables_forms_and_aliases() {
    let mut index = Index::new();
    define(&mut index, "MainCtrl.$scope.user", SymbolKind::ScopeProperty);
    index.controllers.add_html_controller_scope(HtmlControllerScope {
        controller_name: "MainCtrl".to_string(),
        alias: Some("vm".to_string()),
        uri: HTML.to_string(),
        start_line: 0,
        end_line: 20,
    });
    index.html.add_html_local_variable(HtmlLocalVariable {
        name: "item".to_string(),
        source: HtmlLocalVariableSource::NgRepeatIterator,
        uri: HTML.to_string(),
        scope_start_line: 2,
        scope_end_line: 8,
        name_start_line: 2,
        name_start_col: 20,
        name_end_line: 2,
        name_end_col: 24,
    });
    index.html.add_html_form_binding(HtmlFormBinding {
        name: "userForm".to_string(),
        uri: HTML.to_string(),
        scope_start_line: 0,
        scope_end_line: 20,
        name_start_line: 1,
        name_start_col: 10,
        name_end_line: 1,
        name_end_col: 18,
    });
    index.html.add_html_form_binding(HtmlFormBinding {
        name: "item".to_string(),
        uri: HTML.to_string(),
        scope_start_line: 0,
        scope_end_line: 20,
        name_start_line: 1,
        name_start_col: 10,
        name_end_line: 1,
        name_end_col: 14,
    });
    let handler = CompletionHandler::new(&index);
    let items = handler.complete_at(HTML, "", 5, 3, true).unwrap();
    assert_eq!(
        labels(&items),
        vec!["user".to_string(), "item".to_string(), "userForm".to_string(), "vm".to_string()]
    );
    assert_eq!(items[1].detail, "local variable (ng-repeat)");
    assert_eq!(items[2].detail, "form binding ($scope)");
    assert_eq!(items[3].detail, "controller alias (MainCtrl)");
    assert!(handler.complete_in_template(HTML, 5, false).is_none());
}

#[test]
fn template_completion_with_nothing_found_is_none() {
    let index = Index::new();
    let handler = CompletionHandler::new(&index);
    assert!(handler.complete_in_template(HTML, 0, true).is_none());
}

#[test]
fn scope_completion_lists_only_the_current_controllers_members() {
    let mut index = Index::new();
    define(&mut index, "MainCtrl.$scope.user", SymbolKind::ScopeProperty);
    define(&mut index, "MainCtrl.$scope.save", SymbolKind::ScopeMethod);
    define(&mut index, "OtherCtrl.$scope.secret", SymbolKind::ScopeProperty);
    let handler = CompletionHandler::new(&index);
    let items = handler.complete_with_context(Some("$scope"), Some("MainCtrl"), &Vec::new()).unwrap();
    let mut l = labels(&items);
    l.sort();
    assert_eq!(l, vec!["save".to_string(), "user".to_string()]);
}
