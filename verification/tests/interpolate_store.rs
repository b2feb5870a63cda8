use angularjs_lsp::index::interpolate_store::InterpolateStore;

fn url(path: &str) -> String {
    format!("file://{}", path)
}

#[test]
fn defaults_to_double_curly() {
    let store = InterpolateStore::new();
    assert_eq!(store.resolved(), ("{{".to_string(), "}}".to_string()));
}

#[test]
fn js_detected_overrides_default() {
    let mut store = InterpolateStore::new();
    let uri = url("/app/config.js");
    store.set_start_symbol(uri.clone(), "{<".to_string());
    store.set_end_symbol(uri, ">}".to_string());
    assert_eq!(store.resolved(), ("{<".to_string(), ">}".to_string()));
}

#[test]
fn partial_js_detected_falls_back_to_default_for_missing_side() {
    let mut store = InterpolateStore::new();
    let uri = url("/app/config.js");
    store.set_start_symbol(uri, "{<".to_string());
    assert_eq!(store.resolved(), ("{<".to_string(), "}}".to_string()));
}

#[test]
fn clear_document_removes_entry() {
    let mut store = InterpolateStore::new();
    let uri = url("/app/config.js");
    store.set_start_symbol(uri.clone(), "{<".to_string());
    store.set_end_symbol(uri.clone(), ">}".to_string());
    assert_eq!(store.resolved(), ("{<".to_string(), ">}".to_string()));
    store.clear_document(&uri);
    assert_eq!(store.resolved(), ("{{".to_string(), "}}".to_string()));
}

#[test]
fn multiple_uris_first_in_uri_order_wins() {
    let mut store = InterpolateStore::new();
    store.set_start_symbol(url("/b.js"), "B<".to_string());
    store.set_start_symbol(url("/a.js"), "A<".to_string());
    assert_eq!(store.resolved().0, "A<".to_string());
}

#[test]
fn split_across_uris_each_contributes() {
    let mut store = InterpolateStore::new();
    store.set_start_symbol(url("/a.js"), "<%".to_string());
    store.set_end_symbol(url("/b.js"), "%>".to_string());
    assert_eq!(store.resolved(), ("<%".to_string(), "%>".to_string()));
}

#[test]
fn iter_js_detected_for_cache_returns_all_entries() {
    let mut store = InterpolateStore::new();
    store.set_start_symbol(url("/a.js"), "<%".to_string());
    store.set_end_symbol(url("/a.js"), "%>".to_string());
    store.set_start_symbol(url("/b.js"), "[[".to_string());
    let mut entries = store.iter_js_detected_for_cache();
    entries.sort_by(|a, b| a.0.cmp(&b.0));
    assert_eq!(entries.len(), 2);
    assert_eq!(entries[0].0, url("/a.js"));
    assert_eq!(entries[0].1, Some("<%".to_string()));
    assert_eq!(entries[0].2, Some("%>".to_string()));
    assert_eq!(entries[1].0, url("/b.js"));
    assert_eq!(entries[1].1, Some("[[".to_string()));
    assert_eq!(entries[1].2, None);
}

#[test]
fn restore_from_cache_round_trip() {
    let mut store = InterpolateStore::new();
    store.set_start_symbol(url("/a.js"), "<%".to_string());
    store.set_end_symbol(url("/a.js"), "%>".to_string());
    store.set_start_symbol(url("/b.js"), "[[".to_string());
    let snapshot = store.iter_js_detected_for_cache();
    let mut restored = InterpolateStore::new();
    for (uri, s, e) in snapshot {
        restored.restore_from_cache(uri, s, e);
    }
    assert_eq!(store.resolved(), restored.resolved());
    let entries = restored.iter_js_detected_for_cache();
    assert_eq!(entries.len(), 2);
}

#[test]
fn restore_from_cache_skips_empty_entries() {
    let mut store = InterpolateStore::new();
    store.restore_from_cache(url("/a.js"), None, None);
    assert!(store.iter_js_detected_for_cache().is_empty());
}

#[test]
fn resolution_ignores_the_order_of_recording() {
    let mut one = InterpolateStore::new();
    one.set_end_symbol(url("/z.js"), "Z>".to_string());
    one.set_end_symbol(url("/m.js"), "M>".to_string());
    let mut two = InterpolateStore::new();
    two.set_end_symbol(url("/m.js"), "M>".to_string());
    two.set_end_symbol(url("/z.js"), "Z>".to_string());
    assert_eq!(one.resolved(), two.resolved());
    assert_eq!(one.resolved().1, "M>".to_string());
}
