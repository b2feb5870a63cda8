use angularjs_lsp::index::di_usage_store::{DiUsage, DiUsageStore};
use angularjs_lsp::model::Span;

fn span(line: u32) -> Span {
    Span::new(line, 0, line, 5)
}

#[test]
fn add_and_get_for_uri_returns_usages_in_order() {
    let mut store = DiUsageStore::new();
    let uri = "file:///a.js";
    store.add(uri, DiUsage { name: "$scope".into(), span: span(1) });
    store.add(uri, DiUsage { name: "$tiemout".into(), span: span(2) });
    let usages = store.get_for_uri(uri);
    assert_eq!(usages.len(), 2);
    assert_eq!(usages[0].name, "$scope");
    assert_eq!(usages[1].name, "$tiemout");
}

#[test]
fn get_for_uri_returns_empty_when_unknown() {
    let store = DiUsageStore::new();
    assert!(store.get_for_uri("file:///unknown.js").is_empty());
}

#[test]
fn clear_document_drops_only_target_uri() {
    let mut store = DiUsageStore::new();
    let uri_a = "file:///a.js";
    let uri_b = "file:///b.js";
    store.add(uri_a, DiUsage { name: "X".into(), span: span(1) });
    store.add(uri_b, DiUsage { name: "Y".into(), span: span(1) });
    store.clear_document(uri_a);
    assert!(store.get_for_uri(uri_a).is_empty());
    assert_eq!(store.get_for_uri(uri_b).len(), 1);
}

#[test]
fn clear_all_drops_all_usages() {
    let mut store = DiUsageStore::new();
    let uri_a = "file:///a.js";
    store.add(uri_a, DiUsage { name: "X".into(), span: span(1) });
    store.clear_all();
    assert!(store.get_for_uri(uri_a).is_empty());
}
