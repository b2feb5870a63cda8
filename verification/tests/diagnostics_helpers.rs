use angularjs_lsp::handler::diagnostics::{parse_binding_type, severity_from_str, should_skip_attribute, BindingKind, Severity};

#[test]
fn parse_binding_type_oneway() {
    assert_eq!(parse_binding_type(Some("Component binding: <")), (BindingKind::OneWay, false));
}

#[test]
fn parse_binding_type_optional_oneway() {
    assert_eq!(parse_binding_type(Some("Component binding: ?<")), (BindingKind::OneWay, true));
}

#[test]
fn parse_binding_type_callback_with_alias() {
    assert_eq!(parse_binding_type(Some("Component binding: &onSelected")), (BindingKind::Callback, false));
}

#[test]
fn parse_binding_type_optional_callback_with_alias() {
    assert_eq!(parse_binding_type(Some("Component binding: ?&onSelected")), (BindingKind::Callback, true));
}

#[test]
fn parse_binding_type_string_and_twoway() {
    assert_eq!(parse_binding_type(Some("Component binding: @")), (BindingKind::String, false));
    assert_eq!(parse_binding_type(Some("Component binding: =")), (BindingKind::TwoWay, false));
    assert_eq!(parse_binding_type(Some("Component binding: ?=")), (BindingKind::TwoWay, true));
}

#[test]
fn parse_binding_type_none_or_unknown() {
    assert_eq!(parse_binding_type(None), (BindingKind::Unknown, false));
    assert_eq!(parse_binding_type(Some("not a binding doc")), (BindingKind::Unknown, false));
    assert_eq!(parse_binding_type(Some("Component binding: ")), (BindingKind::Unknown, false));
    assert_eq!(parse_binding_type(Some("Component binding: ~")), (BindingKind::Unknown, false));
}

#[test]
fn should_skip_attribute_standard() {
    assert!(should_skip_attribute("class"));
    assert!(should_skip_attribute("id"));
    assert!(should_skip_attribute("style"));
    assert!(should_skip_attribute("aria-label"));
    assert!(should_skip_attribute("data-foo"));
    assert!(should_skip_attribute("ng-if"));
}

#[test]
fn should_skip_attribute_not_standard() {
    assert!(!should_skip_attribute("user"));
    assert!(!should_skip_attribute("on-select"));
    assert!(!should_skip_attribute("my-binding"));
}

#[test]
fn severity_from_str_ignores_case_and_defaults_to_warning() {
    assert_eq!(severity_from_str("ERROR"), Severity::Error);
    assert_eq!(severity_from_str("hint"), Severity::Hint);
    assert_eq!(severity_from_str("info"), Severity::Information);
    assert_eq!(severity_from_str("Information"), Severity::Information);
    assert_eq!(severity_from_str("loud"), Severity::Warning);
}

#[test]
fn should_skip_attribute_is_case_insensitive() {
    assert!(should_skip_attribute("NG-IF"));
    assert!(should_skip_attribute("Data-Ng-Model"));
}

#[test]
fn parse_binding_type_question_mark_without_symbol() {
    assert_eq!(parse_binding_type(Some("Component binding: ?")), (BindingKind::Unknown, false));
    assert_eq!(parse_binding_type(Some("Component binding: ?~")), (BindingKind::Unknown, false));
    assert_eq!(parse_binding_type(Some("Component binding: ? <")), (BindingKind::Unknown, false));
}
