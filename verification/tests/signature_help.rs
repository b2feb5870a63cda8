use angularjs_lsp::handler::signature_help::{find_call_context, SignatureHelpHandler};
use angularjs_lsp::index::Index;
use angularjs_lsp::model::builder::SymbolBuilder;
use angularjs_lsp::model::span::Span;
use angularjs_lsp::model::symbol::SymbolKind;

const JS: &str = "file:///app/app.js";

fn index_with_method(name: &str, params: &[&str], docs: Option<&str>) -> Index {
    let mut index = Index::new();
    let mut b = SymbolBuilder::new(name.to_string(), SymbolKind::Method, JS.to_string())
        .definition_span(Span::new(3, 0, 5, 1))
        .name_span(Span::new(3, 4, 3, 4 + name.len() as u32))
        .parameters(params.iter().map(|p| p.to_string()).collect());
    if let Some(d) = docs {
        b = b.docs(d.to_string());
    }
    index.definitions.add_definition(b.build());
    index
}

#[test]
fn call_context_counts_top_level_commas() {
    let src = "UserService.save(user, [a, b], {x: 1, y: 2}, ";
    let (name, active) = find_call_context(src, 0, src.len() as u32).unwrap();
    assert_eq!(name, "UserService.save");
    assert_eq!(active, 3);
}

#[test]
fn call_context_skips_closed_calls() {
    let src = "outer(inner(1, 2), ";
    let (name, active) = find_call_context(src, 0, 100).unwrap();
    assert_eq!(name, "outer");
    assert_eq!(active, 1);
}

#[test]
fn call_context_stops_at_the_cursor() {
    let src = "first(a, b); second(c";
    let (name, active) = find_call_context(src, 0, 8).unwrap();
    assert_eq!(name, "first");
    assert_eq!(active, 1);
}

#[test]
fn call_context_reads_the_requested_line() {
    let src = "var x = 1;\n  $http.get(url\n";
    let (name, active) = find_call_context(src, 1, 15).unwrap();
    assert_eq!(name, "$http.get");
    assert_eq!(active, 0);
    assert!(find_call_context(src, 5, 0).is_none());
}

#[test]
fn call_context_needs_an_open_parenthesis_and_a_name() {
    assert!(find_call_context("foo(a)", 0, 6).is_none());
    assert!(find_call_context("(a, b", 0, 5).is_none());
    assert!(find_call_context("= (a", 0, 4).is_none());
}

#[test]
fn call_context_name_stops_at_other_characters() {
    let (name, _) = find_call_context("a + b.c (", 0, 9).unwrap();
    assert_eq!(name, "b.c");
}

#[test]
fn call_context_cuts_multibyte_lines_by_bytes() {
    // "é" takes two bytes: byte 8 falls after "f(\"é\", ".
    let src = "f(\"é\", g";
    let (name, active) = find_call_context(src, 0, 8).unwrap();
    assert_eq!(name, "f");
    assert_eq!(active, 1);
}

#[test]
fn signature_help_shows_first_definition() {
    let index = index_with_method("UserService.save", &["user", "options"], Some("Saves a user."));
    let handler = SignatureHelpHandler::new(&index);
    let src = "UserService.save(u, ";
    let help = handler.signature_help(JS, 0, src.len() as u32, src).unwrap();
    assert_eq!(help.label, "UserService.save(user, options)");
    assert_eq!(help.parameters, vec!["user".to_string(), "options".to_string()]);
    assert_eq!(help.documentation.as_deref(), Some("Saves a user."));
    assert_eq!(help.active_parameter, 1);
}

#[test]
fn signature_help_needs_parameters() {
    let index = index_with_method("UserService.reset", &[], None);
    let handler = SignatureHelpHandler::new(&index);
    let src = "UserService.reset(";
    assert!(handler.signature_help(JS, 0, src.len() as u32, src).is_none());
}

#[test]
fn signature_help_unknown_function() {
    let index = index_with_method("UserService.save", &["user"], None);
    let handler = SignatureHelpHandler::new(&index);
    let src = "OrderService.save(";
    assert!(handler.signature_help(JS, 0, src.len() as u32, src).is_none());
}
