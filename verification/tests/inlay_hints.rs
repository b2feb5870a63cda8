use angularjs_lsp::handler::inlay_hints::{
    byte_offset_to_utf16_col, collect_di_rename_hints, extract_string_value, hash_source, new_js_tree_cache, position_in_range,
    split_alias, Hint, InlayHintsHandler,
};
use angularjs_lsp::handler::js_syntax::parse_javascript;
use angularjs_lsp::index::Index;
use angularjs_lsp::lsp::{Position, Range};
use angularjs_lsp::model::html::HtmlScopeReference;
use angularjs_lsp::model::scope::HtmlControllerScope;
use angularjs_lsp::model::template::ComponentTemplateUrl;

fn di_hints(source: &str) -> Vec<Hint> {
    let tree = parse_javascript(source).unwrap();
    collect_di_rename_hints(&tree, source)
}

fn labels(hints: &[Hint]) -> Vec<String> {
    hints.iter().map(|h| h.label.clone()).collect()
}

const JS_URI: &str = "file:///test.js";
const HTML_URI: &str = "file:///test.html";

#[test]
fn split_alias_with_simple_path() {
    assert_eq!(split_alias("vm.foo"), Some(("vm", "foo")));
    assert_eq!(split_alias("$ctrl.bar"), Some(("$ctrl", "bar")));
    assert_eq!(split_alias("vm.user.name"), Some(("vm", "user.name")));
    assert_eq!(split_alias("vm"), None);
    assert_eq!(split_alias(""), None);
    assert_eq!(split_alias(".foo"), None);
    assert_eq!(split_alias("vm."), None);
}

#[test]
fn position_in_range_basic() {
    let r = Range { start: Position { line: 1, character: 5 }, end: Position { line: 3, character: 10 } };
    assert!(position_in_range(Position { line: 1, character: 5 }, r));
    assert!(position_in_range(Position { line: 2, character: 0 }, r));
    assert!(position_in_range(Position { line: 3, character: 10 }, r));
    assert!(!position_in_range(Position { line: 0, character: 100 }, r));
    assert!(!position_in_range(Position { line: 1, character: 4 }, r));
    assert!(!position_in_range(Position { line: 3, character: 11 }, r));
    assert!(!position_in_range(Position { line: 4, character: 0 }, r));
}

#[test]
fn byte_offset_to_utf16_col_handles_non_ascii_prefix() {
    let source = "var s = '🎉'; function f(x) {}\n";
    let byte_idx = source.find("x").unwrap();
    let utf16_col = byte_offset_to_utf16_col(source, byte_idx);
    let expected: usize = source[..byte_idx].chars().map(|c| c.len_utf16()).sum();
    assert_eq!(utf16_col, expected);
    assert!(utf16_col < byte_idx);
}

#[test]
fn byte_offset_to_utf16_col_resets_at_newline() {
    let source = "first line\nsecond line";
    let byte_idx = source.find("second").unwrap();
    let utf16_col = byte_offset_to_utf16_col(source, byte_idx);
    assert_eq!(utf16_col, 0);
}

#[test]
fn byte_offset_to_utf16_col_counts_astral_as_two() {
    let source = "a😀b";
    assert_eq!(byte_offset_to_utf16_col(source, 5), 3);
}

#[test]
fn collect_di_rename_hints_array_form() {
    let source = "\
angular.module('app').controller('Main', ['$scope', '$timeout', function(s, t) {\n\
    s.foo = 1;\n\
}]);\n";
    let hints = di_hints(source);
    assert_eq!(hints.len(), 2);
    let labels = labels(&hints);
    assert!(labels.contains(&": $scope".to_string()));
    assert!(labels.contains(&": $timeout".to_string()));
}

#[test]
fn collect_di_rename_hints_skips_when_param_matches_service() {
    let source = "\
angular.module('app').controller('Main', ['$scope', function($scope) {\n\
    $scope.foo = 1;\n\
}]);\n";
    let hints = di_hints(source);
    assert!(hints.is_empty(), "expected no hints, got {:?}", hints);
}

#[test]
fn collect_di_rename_hints_partial_renaming() {
    let source = "\
angular.module('app').controller('Main', ['$scope', '$timeout', function($scope, t) {\n\
    $scope.foo = t;\n\
}]);\n";
    let hints = di_hints(source);
    assert_eq!(hints.len(), 1);
    assert_eq!(hints[0].label, ": $timeout");
}

#[test]
fn collect_di_rename_hints_position_after_param() {
    let source = "var d = ['$scope', function(s) {}];\n";
    let hints = di_hints(source);
    assert_eq!(hints.len(), 1);
    assert_eq!(hints[0].position.line, 0);
    assert_eq!(hints[0].position.character, 29);
}

#[test]
fn collect_di_rename_hints_ignores_non_di_array() {
    let source = "var deps = ['$scope', '$timeout'];\n";
    let hints = di_hints(source);
    assert!(hints.is_empty());
}

#[test]
fn collect_di_rename_hints_nested_in_module_chain() {
    let source = "\
angular.module('app').config(['$routeProvider', function(rp) {\n\
    rp.when('/', {});\n\
}]);\n";
    let hints = di_hints(source);
    assert_eq!(hints.len(), 1);
    assert_eq!(hints[0].label, ": $routeProvider");
}

#[test]
fn collect_di_rename_hints_accepts_arrow_functions() {
    let source = "var d = ['$http', (h) => h.get('/')];\n";
    let hints = di_hints(source);
    assert_eq!(labels(&hints), vec![": $http".to_string()]);
    assert_eq!(hints[0].position.character, 20);
}

#[test]
fn string_values_lose_matching_quotes_only() {
    assert_eq!(extract_string_value("'$scope'"), "$scope");
    assert_eq!(extract_string_value("\"$http\""), "$http");
    assert_eq!(extract_string_value("`tpl`"), "tpl");
    assert_eq!(extract_string_value("'mixed\""), "'mixed\"");
    assert_eq!(extract_string_value("'"), "'");
}

#[test]
fn inlay_hints_di_rename_via_public_api() {
    let source = "\
angular.module('app').controller('Main', ['$scope', '$timeout', function(s, t) {\n\
    s.foo = 1;\n\
}]);\n";
    let index = Index::new();
    let mut handler = InlayHintsHandler::new(&index, new_js_tree_cache());
    let hints = handler.inlay_hints(JS_URI, Some(source), None).unwrap();
    assert_eq!(hints.len(), 2);
    let labels = labels(&hints);
    assert!(labels.contains(&": $scope".to_string()), "expected `: $scope` in {:?}", labels);
    assert!(labels.contains(&": $timeout".to_string()), "expected `: $timeout` in {:?}", labels);
}

#[test]
fn inlay_hints_controller_as_alias_via_public_api() {
    let mut index = Index::new();
    index.controllers.add_html_controller_scope(HtmlControllerScope {
        controller_name: "MainCtrl".to_string(),
        alias: Some("vm".to_string()),
        uri: HTML_URI.to_string(),
        start_line: 0,
        end_line: 10,
    });
    index.html.add_html_scope_reference(HtmlScopeReference {
        property_path: "vm.foo".to_string(),
        uri: HTML_URI.to_string(),
        start_line: 5,
        start_col: 3,
        end_line: 5,
        end_col: 9,
    });
    let mut handler = InlayHintsHandler::new(&index, new_js_tree_cache());
    let hints = handler.inlay_hints(HTML_URI, None, None).unwrap();
    assert_eq!(hints.len(), 1);
    assert_eq!(hints[0].position.line, 5);
    assert_eq!(hints[0].position.character, 5);
    assert_eq!(hints[0].label, ": MainCtrl");
}

#[test]
fn inlay_hints_dollar_ctrl_alias_via_public_api() {
    let mut index = Index::new();
    index.components.add_component_template_url(ComponentTemplateUrl {
        uri: "file:///component.js".to_string(),
        template_path: "/test.html".to_string(),
        line: 0,
        col: 0,
        controller_name: Some("UserCardController".to_string()),
        controller_as: "$ctrl".to_string(),
    });
    index.html.add_html_scope_reference(HtmlScopeReference {
        property_path: "$ctrl.bar".to_string(),
        uri: HTML_URI.to_string(),
        start_line: 2,
        start_col: 4,
        end_line: 2,
        end_col: 13,
    });
    let mut handler = InlayHintsHandler::new(&index, new_js_tree_cache());
    let hints = handler.inlay_hints(HTML_URI, None, None).unwrap();
    assert_eq!(hints.len(), 1);
    assert_eq!(hints[0].position.line, 2);
    assert_eq!(hints[0].position.character, 9);
    assert_eq!(hints[0].label, ": UserCardController");
}

#[test]
fn alias_named_like_its_controller_gets_no_hint() {
    let mut index = Index::new();
    index.controllers.add_html_controller_scope(HtmlControllerScope {
        controller_name: "MainCtrl".to_string(),
        alias: Some("MainCtrl".to_string()),
        uri: HTML_URI.to_string(),
        start_line: 0,
        end_line: 10,
    });
    index.html.add_html_scope_reference(HtmlScopeReference {
        property_path: "MainCtrl.foo".to_string(),
        uri: HTML_URI.to_string(),
        start_line: 5,
        start_col: 3,
        end_line: 5,
        end_col: 15,
    });
    let handler = InlayHintsHandler::new(&index, new_js_tree_cache());
    assert!(handler.hint_columns_fit(HTML_URI));
    let mut handler = handler;
    assert!(handler.inlay_hints(HTML_URI, None, None).unwrap().is_empty());
}

#[test]
fn inlay_hints_range_filter_drops_hints_outside_visible_range() {
    let source = "\
var a = ['$scope', function(s) { s.foo = 1; }];\n\
var b = ['$timeout', function(t) { t.cancel(); }];\n";
    let index = Index::new();
    let mut handler = InlayHintsHandler::new(&index, new_js_tree_cache());
    let all = handler.inlay_hints(JS_URI, Some(source), None).unwrap();
    assert_eq!(all.len(), 2);
    let only_first = handler
        .inlay_hints(
            JS_URI,
            Some(source),
            Some(Range { start: Position { line: 0, character: 0 }, end: Position { line: 0, character: 1000 } }),
        )
        .unwrap();
    assert_eq!(only_first.len(), 1);
    assert_eq!(only_first[0].label, ": $scope");
}

#[test]
fn inlay_hints_returns_none_for_unknown_extension() {
    let index = Index::new();
    let mut handler = InlayHintsHandler::new(&index, new_js_tree_cache());
    assert!(handler.inlay_hints("file:///test.css", None, None).is_none());
}

#[test]
fn js_tree_cache_reuses_tree_when_source_unchanged() {
    let source = "var d = ['$scope', function(s) { s.foo = 1; }];\n";
    let index = Index::new();
    let mut handler = InlayHintsHandler::new(&index, new_js_tree_cache());
    let first = handler.inlay_hints(JS_URI, Some(source), None).unwrap();
    assert_eq!(first.len(), 1);
    assert_eq!(handler.js_tree_cache.len(), 1);
    let hash_after_first = handler.js_tree_cache.get(JS_URI).unwrap().source_hash;
    let second = handler.inlay_hints(JS_URI, Some(source), None).unwrap();
    assert_eq!(second.len(), 1);
    assert_eq!(handler.js_tree_cache.len(), 1);
    assert_eq!(handler.js_tree_cache.get(JS_URI).unwrap().source_hash, hash_after_first);
}

#[test]
fn js_tree_cache_invalidates_on_source_change() {
    let index = Index::new();
    let mut handler = InlayHintsHandler::new(&index, new_js_tree_cache());
    let first = handler
        .inlay_hints(JS_URI, Some("var d = ['$scope', function(s) { s.foo = 1; }];\n"), None)
        .unwrap();
    assert_eq!(first.len(), 1);
    let hash1 = handler.js_tree_cache.get(JS_URI).unwrap().source_hash;
    let second = handler
        .inlay_hints(JS_URI, Some("var d = ['$timeout', function(t) { t.cancel(); }];\n"), None)
        .unwrap();
    assert_eq!(second.len(), 1);
    let hash2 = handler.js_tree_cache.get(JS_URI).unwrap().source_hash;
    assert_ne!(hash1, hash2, "hash should change after source edit");
    assert_eq!(second[0].label, ": $timeout");
}

#[test]
fn scripts_without_open_text_get_no_hints() {
    let index = Index::new();
    let mut handler = InlayHintsHandler::new(&index, new_js_tree_cache());
    assert_eq!(handler.inlay_hints(JS_URI, None, None).unwrap().len(), 0);
    assert_eq!(handler.js_tree_cache.len(), 0);
}

#[test]
fn hash_source_tells_texts_apart() {
    let a = hash_source("app.controller('A', function($scope) {});");
    let b = hash_source("app.controller('B', function($scope) {});");
    assert_eq!(a, hash_source("app.controller('A', function($scope) {});"));
    assert_ne!(a, b);
}
