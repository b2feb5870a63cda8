use angularjs_lsp::handler::builtin_services::{is_builtin_service, levenshtein, suggest_builtin_service};

#[test]
fn levenshtein_same_string_is_zero() {
    assert_eq!(levenshtein("$timeout", "$timeout"), 0);
}

#[test]
fn levenshtein_empty_left() {
    assert_eq!(levenshtein("", "abc"), 3);
}

#[test]
fn levenshtein_empty_right() {
    assert_eq!(levenshtein("abc", ""), 3);
}

#[test]
fn levenshtein_single_substitution() {
    assert_eq!(levenshtein("$timeout", "$timoout"), 1);
}

#[test]
fn levenshtein_transposition_counts_as_two() {
    assert_eq!(levenshtein("$tiemout", "$timeout"), 2);
}

#[test]
fn levenshtein_insertion() {
    assert_eq!(levenshtein("$http", "$https"), 1);
}

#[test]
fn levenshtein_deletion() {
    assert_eq!(levenshtein("$scoope", "$scope"), 1);
}

#[test]
fn levenshtein_completely_different() {
    let d = levenshtein("$foo", "$timeout");
    assert!((5..=8).contains(&d), "got {}", d);
}

#[test]
fn is_builtin_recognizes_core_services() {
    assert!(is_builtin_service("$scope"));
    assert!(is_builtin_service("$http"));
    assert!(is_builtin_service("$timeout"));
    assert!(is_builtin_service("$rootScope"));
}

#[test]
fn is_builtin_recognizes_ui_router() {
    assert!(is_builtin_service("$state"));
    assert!(is_builtin_service("$stateProvider"));
    assert!(is_builtin_service("$stateParams"));
}

#[test]
fn is_builtin_rejects_user_services() {
    assert!(!is_builtin_service("UserService"));
    assert!(!is_builtin_service("$tiemout"));
    assert!(!is_builtin_service(""));
}

#[test]
fn suggest_returns_close_match() {
    assert_eq!(suggest_builtin_service("$tiemout", 2), Some("$timeout"));
}

#[test]
fn suggest_returns_none_for_unknown_unrelated() {
    assert_eq!(suggest_builtin_service("MyCustomService", 2), None);
}

#[test]
fn suggest_does_not_match_exact_name() {
    assert_eq!(suggest_builtin_service("$timeout", 2), None);
}

#[test]
fn suggest_picks_closest_when_multiple_candidates() {
    assert_eq!(suggest_builtin_service("$sccope", 2), Some("$scope"));
}

#[test]
fn levenshtein_is_symmetric_on_examples() {
    assert_eq!(levenshtein("kitten", "sitting"), 3);
    assert_eq!(levenshtein("sitting", "kitten"), 3);
}

#[test]
fn suggest_respects_max_distance() {
    assert_eq!(suggest_builtin_service("$tiemout", 1), None);
}

#[test]
fn levenshtein_is_symmetric_and_bounded() {
    let words = ["kitten", "sitting", "$timeout", "$timout", "", "abc", "héllo"];
    for a in words.iter() {
        for b in words.iter() {
            let d = levenshtein(a, b);
            assert_eq!(d, levenshtein(b, a));
            let (na, nb) = (a.chars().count(), b.chars().count());
            assert!(d >= na.max(nb) - na.min(nb));
            assert!(d <= na.max(nb));
            for c in words.iter() {
                assert!(levenshtein(a, c) <= d + levenshtein(b, c));
            }
        }
    }
    assert_eq!(levenshtein("kitten", "sitting"), 3);
}
