use angularjs_lsp::handler::code_action::{
    detect_indent_from_source, property_root_segment, ranges_overlap, split_alias_and_property, CodeActionHandler,
};
use angularjs_lsp::handler::diagnostics::{Diagnostic, Severity, UNDEFINED_SCOPE_PROPERTY_CODE};
use angularjs_lsp::index::Index;
use angularjs_lsp::lsp::{Position, Range};
use angularjs_lsp::model::html::HtmlScopeReference;
use angularjs_lsp::model::scope::{ControllerScope, HtmlControllerScope};

const JS: &str = "file:///app/main.js";
const HTML: &str = "file:///app/main.html";

fn range(sl: u32, sc: u32, el: u32, ec: u32) -> Range {
    Range { start: Position { line: sl, character: sc }, end: Position { line: el, character: ec } }
}

fn undefined_property(r: Range, code: Option<&str>) -> Diagnostic {
    Diagnostic {
        range: r,
        severity: Severity::Warning,
        message: "Property 'title' is not defined in controller 'MainCtrl'".to_string(),
        unnecessary: false,
        code: code.map(|c| c.to_string()),
    }
}

fn controller_index(alias: Option<&str>, path: &str) -> Index {
    let mut index = Index::new();
    index.controllers.add_controller_scope(ControllerScope {
        name: "MainCtrl".to_string(),
        uri: JS.to_string(),
        start_line: 3,
        end_line: 9,
        injected_services: vec![],
    });
    index.controllers.add_html_controller_scope(HtmlControllerScope {
        controller_name: "MainCtrl".to_string(),
        alias: alias.map(|a| a.to_string()),
        uri: HTML.to_string(),
        start_line: 0,
        end_line: 10,
    });
    index.html.add_html_scope_reference(HtmlScopeReference {
        property_path: path.to_string(),
        uri: HTML.to_string(),
        start_line: 2,
        start_col: 4,
        end_line: 2,
        end_col: 4 + path.len() as u32,
    });
    index
}

#[test]
fn split_alias_and_property_handles_dot() {
    assert_eq!(split_alias_and_property("vm.foo"), (Some("vm".to_string()), "foo".to_string()));
    assert_eq!(split_alias_and_property("vm.user.name"), (Some("vm".to_string()), "user.name".to_string()));
    assert_eq!(split_alias_and_property("foo"), (None, "foo".to_string()));
}

#[test]
fn property_root_segment_returns_first_segment() {
    assert_eq!(property_root_segment("foo"), "foo");
    assert_eq!(property_root_segment("user.name"), "user");
    assert_eq!(property_root_segment("a.b.c"), "a");
}

#[test]
fn ranges_overlap_works() {
    let r = |sl, sc, el, ec| Range {
        start: Position { line: sl, character: sc },
        end: Position { line: el, character: ec },
    };
    assert!(ranges_overlap(&r(1, 0, 1, 5), &r(1, 0, 1, 5)));
    assert!(ranges_overlap(&r(1, 0, 1, 10), &r(1, 5, 1, 15)));
    assert!(!ranges_overlap(&r(1, 0, 1, 5), &r(1, 6, 1, 10)));
    assert!(!ranges_overlap(&r(1, 10, 1, 15), &r(1, 0, 1, 5)));
    assert!(!ranges_overlap(&r(1, 0, 1, 5), &r(2, 0, 2, 5)));
}

#[test]
fn detect_indent_from_source_extracts_leading_whitespace() {
    let src = "function f() {\n    var a = 1;\n\tvar b = 2;\nno_indent;\n".to_string();
    assert_eq!(detect_indent_from_source(Some(&src), 1), Some("    ".to_string()));
    assert_eq!(detect_indent_from_source(Some(&src), 2), Some("\t".to_string()));
    assert_eq!(detect_indent_from_source(Some(&src), 3), None);
    assert_eq!(detect_indent_from_source(Some(&src), 100), None);
    assert_eq!(detect_indent_from_source(None, 1), None);
}

#[test]
fn detect_indent_on_windows_line_endings() {
    let src = "a\r\n  b\r\n".to_string();
    assert_eq!(detect_indent_from_source(Some(&src), 1), Some("  ".to_string()));
}

#[test]
fn quick_fix_inserts_this_property_for_an_alias() {
    let index = controller_index(Some("vm"), "vm.title");
    let handler = CodeActionHandler::new(&index);
    let diags = vec![undefined_property(range(2, 4, 2, 12), Some(UNDEFINED_SCOPE_PROPERTY_CODE))];
    let sources = vec![(JS.to_string(), "// a\n// b\n\nfunction MainCtrl() {\n  var x;\n}\n".to_string())];
    let fixes = handler.code_action(HTML, range(2, 5, 2, 5), &diags, &sources).expect("a fix");
    assert_eq!(fixes.len(), 1);
    assert_eq!(fixes[0].diagnostic, 0);
    let ins = &fixes[0].insertion;
    assert_eq!(ins.uri, JS);
    assert_eq!(ins.line, 4);
    assert_eq!(ins.new_text, "  this.title = null;\n");
    assert_eq!(ins.title, "Add `this.title = null;` to controller `MainCtrl`");
}

#[test]
fn quick_fix_uses_scope_without_alias_and_default_indent() {
    let index = controller_index(None, "title");
    let handler = CodeActionHandler::new(&index);
    let diags = vec![undefined_property(range(2, 4, 2, 9), Some(UNDEFINED_SCOPE_PROPERTY_CODE))];
    let fixes = handler.code_action(HTML, range(0, 0, 5, 0), &diags, &vec![]).expect("a fix");
    assert_eq!(fixes.len(), 1);
    assert_eq!(fixes[0].insertion.new_text, "    $scope.title = null;\n");
}

#[test]
fn quick_fixes_skip_other_findings_and_documents() {
    let index = controller_index(Some("vm"), "vm.title");
    let handler = CodeActionHandler::new(&index);
    let uncoded = vec![undefined_property(range(2, 4, 2, 12), None)];
    assert!(handler.code_action(HTML, range(2, 5, 2, 5), &uncoded, &vec![]).is_none());
    let coded = vec![undefined_property(range(2, 4, 2, 12), Some(UNDEFINED_SCOPE_PROPERTY_CODE))];
    assert!(handler.code_action(HTML, range(7, 0, 7, 3), &coded, &vec![]).is_none());
    assert!(handler.code_action(JS, range(2, 5, 2, 5), &coded, &vec![]).is_none());
}
