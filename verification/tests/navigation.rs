use angularjs_lsp::handler::document_highlight::{DocumentHighlightHandler, HighlightKind};
use angularjs_lsp::handler::document_symbol::DocumentSymbolHandler;
use angularjs_lsp::handler::references::ReferencesHandler;
use angularjs_lsp::handler::rename::RenameHandler;
use angularjs_lsp::handler::semantic_tokens::{SemanticTokensHandler, TOKEN_TYPE_MACRO, TOKEN_TYPE_VARIABLE};
use angularjs_lsp::handler::workspace_symbol::WorkspaceSymbolHandler;
use angularjs_lsp::index::Index;
use angularjs_lsp::lsp::Position;
use angularjs_lsp::model::builder::{ReferenceBuilder, SymbolBuilder};
use angularjs_lsp::model::html::{
    DirectiveUsageType, HtmlDirectiveReference, HtmlLocalVariable, HtmlLocalVariableReference, HtmlLocalVariableSource,
};
use angularjs_lsp::model::span::Span;
use angularjs_lsp::model::symbol::{OutlineKind, SymbolKind};

const JS: &str = "file:///app/app.js";
const OTHER_JS: &str = "file:///app/other.js";
const HTML: &str = "file:///app/list.html";

fn define(index: &mut Index, name: &str, kind: SymbolKind, line: u32) {
    let s = SymbolBuilder::new(name.to_string(), kind, JS.to_string())
        .definition_span(Span::new(line, 0, line + 2, 1))
        .name_span(Span::new(line, 4, line, 4 + name.len() as u32))
        .build();
    index.definitions.add_definition(s);
}

fn refer(index: &mut Index, name: &str, uri: &str, line: u32, col: u32) {
    let r = ReferenceBuilder::new(name.to_string(), uri.to_string())
        .span(Span::new(line, col, line, col + name.len() as u32))
        .build();
    index.definitions.add_reference(r);
}

fn pos(line: u32, character: u32) -> Position {
    Position { line, character }
}

fn item_variable(index: &mut Index) {
    index.html.add_html_local_variable(HtmlLocalVariable {
        name: "item".to_string(),
        source: HtmlLocalVariableSource::NgRepeatIterator,
        uri: HTML.to_string(),
        scope_start_line: 2,
        scope_end_line: 8,
        name_start_line: 2,
        name_start_col: 20,
        name_end_line: 2,
        name_end_col: 24,
    });
    for line in [3u32, 5u32, 11u32] {
        index.html.add_html_local_variable_reference(HtmlLocalVariableReference {
            variable_name: "item".to_string(),
            uri: HTML.to_string(),
            start_line: line,
            start_col: 1,
            end_line: line,
            end_col: 5,
        });
    }
}

#[test]
fn references_include_the_declaration_on_request() {
    let mut index = Index::new();
    define(&mut index, "UserService", SymbolKind::Service, 9);
    refer(&mut index, "UserService", OTHER_JS, 3, 4);
    refer(&mut index, "UserService", OTHER_JS, 7, 2);
    let handler = ReferencesHandler::new(&index);
    let with_decl = handler.find_references(OTHER_JS, pos(3, 5), true).expect("references");
    assert_eq!(with_decl.len(), 3);
    assert_eq!(with_decl[0].uri, JS);
    assert_eq!(with_decl[0].range.start, pos(9, 0));
    assert_eq!(with_decl[1].range.start, pos(3, 4));
    assert_eq!(with_decl[2].range.start, pos(7, 2));
    let without = handler.find_references(OTHER_JS, pos(3, 5), false).expect("references");
    assert_eq!(without.len(), 2);
    assert!(handler.find_references(OTHER_JS, pos(50, 0), true).is_none());
}

#[test]
fn references_of_a_local_variable_stay_within_its_scope() {
    let mut index = Index::new();
    item_variable(&mut index);
    let handler = ReferencesHandler::new(&index);
    let locs = handler.find_references(HTML, pos(2, 21), true).expect("references");
    let lines: Vec<u32> = locs.iter().map(|l| l.range.start.line).collect();
    assert_eq!(lines, vec![2, 3, 5]);
}

#[test]
fn highlights_mark_definitions_as_writes_and_uses_as_reads() {
    let mut index = Index::new();
    define(&mut index, "UserService", SymbolKind::Service, 9);
    refer(&mut index, "UserService", JS, 15, 2);
    refer(&mut index, "UserService", OTHER_JS, 3, 4);
    let handler = DocumentHighlightHandler::new(&index);
    let hs = handler.document_highlight(JS, pos(15, 3)).expect("highlights");
    let kinds: Vec<HighlightKind> = hs.iter().map(|h| h.kind).collect();
    assert_eq!(kinds, vec![HighlightKind::Write, HighlightKind::Read]);
    assert_eq!(hs[1].range.start, pos(15, 2));
}

#[test]
fn rename_groups_edits_by_document() {
    let mut index = Index::new();
    define(&mut index, "UserService", SymbolKind::Service, 9);
    refer(&mut index, "UserService", OTHER_JS, 3, 4);
    refer(&mut index, "UserService", OTHER_JS, 7, 2);
    let handler = RenameHandler::new(&index);
    let edit = handler.rename(OTHER_JS, pos(3, 5), "AccountService").expect("an edit");
    assert_eq!(edit.changes.len(), 2);
    for (uri, edits) in edit.changes.iter() {
        for e in edits.iter() {
            assert_eq!(e.new_text, "AccountService");
        }
        if uri == JS {
            assert_eq!(edits.len(), 1);
            assert_eq!(edits[0].range.start, pos(9, 4));
            assert_eq!(edits[0].range.end, pos(9, 15));
        } else {
            assert_eq!(uri, OTHER_JS);
            assert_eq!(edits.len(), 2);
        }
    }
    assert!(handler.rename(OTHER_JS, pos(50, 0), "X").is_none());
}

#[test]
fn rename_of_a_local_variable_edits_its_name_and_uses() {
    let mut index = Index::new();
    item_variable(&mut index);
    let handler = RenameHandler::new(&index);
    let edit = handler.rename(HTML, pos(4, 0), "entry");
    assert!(edit.is_none());
    let edit = handler.rename(HTML, pos(3, 2), "entry").expect("an edit");
    assert_eq!(edit.changes.len(), 1);
    assert_eq!(edit.changes[0].0, HTML);
    let lines: Vec<u32> = edit.changes[0].1.iter().map(|e| e.range.start.line).collect();
    assert_eq!(lines, vec![2, 3, 5]);
}

#[test]
fn workspace_symbols_match_case_insensitively() {
    let mut index = Index::new();
    define(&mut index, "UserService", SymbolKind::Service, 0);
    define(&mut index, "MainCtrl", SymbolKind::Controller, 4);
    define(&mut index, "MainCtrl.$scope.user", SymbolKind::ScopeProperty, 8);
    let handler = WorkspaceSymbolHandler::new(&index);
    let found = handler.handle("USER");
    assert_eq!(found.len(), 1);
    assert_eq!(found[0].name, "UserService");
    assert_eq!(found[0].kind, OutlineKind::Class);
    assert_eq!(found[0].container_name, "service");
    assert_eq!(handler.handle("").len(), 2);
}

#[test]
fn outline_lists_the_symbols_of_a_document() {
    let mut index = Index::new();
    define(&mut index, "MainCtrl", SymbolKind::Controller, 4);
    define(&mut index, "MainCtrl.$scope.user", SymbolKind::ScopeProperty, 8);
    let handler = DocumentSymbolHandler::new(&index);
    let outline = handler.document_symbols(JS).expect("an outline");
    assert_eq!(outline.len(), 2);
    let names: Vec<&str> = outline.iter().map(|s| s.name.as_str()).collect();
    assert!(names.contains(&"MainCtrl"));
    assert!(names.contains(&"MainCtrl.$scope.user"));
    assert!(handler.document_symbols(OTHER_JS).is_none());
}

#[test]
fn template_tokens_are_encoded_relative_to_each_other() {
    let mut index = Index::new();
    item_variable(&mut index);
    index.html.add_html_directive_reference(HtmlDirectiveReference {
        directive_name: "userCard".to_string(),
        uri: HTML.to_string(),
        start_line: 1,
        start_col: 2,
        end_line: 1,
        end_col: 11,
        usage_type: DirectiveUsageType::Element,
    });
    let handler = SemanticTokensHandler::new(&index);
    assert!(handler.semantic_tokens_full(JS).is_none());
    let tokens = handler.semantic_tokens_full(HTML).expect("tokens");
    // directive (1,2), variable (2,20), references (3,1), (5,1), (11,1)
    assert_eq!(tokens.len(), 5);
    assert_eq!((tokens[0].delta_line, tokens[0].delta_start, tokens[0].length), (1, 2, 9));
    assert_eq!(tokens[0].token_type, TOKEN_TYPE_MACRO);
    assert_eq!((tokens[1].delta_line, tokens[1].delta_start, tokens[1].length), (1, 20, 4));
    assert_eq!(tokens[1].token_type, TOKEN_TYPE_VARIABLE);
    assert_eq!((tokens[2].delta_line, tokens[2].delta_start), (1, 1));
    assert_eq!((tokens[4].delta_line, tokens[4].delta_start), (6, 1));
}
