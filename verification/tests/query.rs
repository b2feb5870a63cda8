use angularjs_lsp::index::query::{ng_model_target_alias, ng_model_target_tail};
use angularjs_lsp::index::Index;

#[test]
fn tail_returns_last_segment() {
    assert_eq!(ng_model_target_tail("currentPage"), "currentPage");
    assert_eq!(ng_model_target_tail("vm.currentPage"), "currentPage");
    assert_eq!(ng_model_target_tail("user.profile.name"), "name");
}

#[test]
fn alias_returns_first_segment_or_none() {
    assert_eq!(ng_model_target_alias("currentPage"), None);
    assert_eq!(ng_model_target_alias("vm.currentPage"), Some("vm"));
    assert_eq!(ng_model_target_alias("user.profile.name"), Some("user"));
}

#[test]
fn symbol_names_are_split_at_their_markers() {
    let index = Index::new();
    assert_eq!(
        index.parse_scope_symbol_name("MainCtrl.$scope.user.name"),
        Some(("MainCtrl".to_string(), "user.name".to_string()))
    );
    assert_eq!(index.parse_scope_symbol_name("MainCtrl.save"), None);
    assert_eq!(
        index.parse_root_scope_symbol_name("app.$rootScope.currentUser"),
        Some(("app".to_string(), "currentUser".to_string()))
    );
    assert_eq!(
        index.parse_controller_method_name("MainCtrl.save"),
        Some(("MainCtrl".to_string(), "save".to_string()))
    );
    assert_eq!(index.parse_controller_method_name("MainCtrl."), None);
    assert_eq!(index.parse_controller_method_name("MainCtrl.$scope.x"), None);
    assert_eq!(index.parse_controller_method_name("MainCtrl"), None);
}
