use cazdo::pattern::{is_protected, matches_pattern};

#[test]
fn test_exact_match() {
    assert!(matches_pattern("main", "main"));
    assert!(matches_pattern("master", "master"));
    assert!(!matches_pattern("main", "master"));
    assert!(!matches_pattern("main-feature", "main"));
}

#[test]
fn test_wildcard_suffix() {
    assert!(matches_pattern("releases/v1.0", "releases/*"));
    assert!(matches_pattern("releases/v12.x", "releases/*"));
    assert!(matches_pattern("releases/", "releases/*"));
    assert!(!matches_pattern("releases", "releases/*"));
    assert!(!matches_pattern("other/v1.0", "releases/*"));
}

#[test]
fn test_wildcard_prefix() {
    assert!(matches_pattern("feature-main", "*main"));
    assert!(matches_pattern("main", "*main"));
    assert!(!matches_pattern("main-feature", "*main"));
}

#[test]
fn test_wildcard_middle() {
    assert!(matches_pattern("feature-123-test", "feature-*-test"));
    assert!(matches_pattern("feature--test", "feature-*-test"));
    assert!(!matches_pattern("feature-123-prod", "feature-*-test"));
}

#[test]
fn test_multiple_wildcards() {
    assert!(matches_pattern("a/b/c", "*/*"));
    assert!(matches_pattern("foo/bar/baz", "*/*"));
}

#[test]
fn test_is_protected() {
    let patterns = vec![
        "main".to_string(),
        "master".to_string(),
        "releases/*".to_string(),
    ];

    assert!(is_protected("main", &patterns));
    assert!(is_protected("master", &patterns));
    assert!(is_protected("releases/v1.0", &patterns));
    assert!(!is_protected("feature/123", &patterns));
    assert!(!is_protected("develop", &patterns));
}

#[test]
fn test_star_only() {
    assert!(matches_pattern("anything", "*"));
    assert!(matches_pattern("", "*"));
}

#[test]
fn star_matches_assorted_texts() {
    for t in ["", "a", "*", "releases/v1.0", "ünïcödé", "   "] {
        assert!(matches_pattern(t, "*"));
        assert!(matches_pattern(t, "**"));
    }
}

#[test]
fn matching_is_case_sensitive_and_anchored() {
    assert!(!matches_pattern("Main", "main"));
    assert!(!matches_pattern("xmain", "main"));
    assert!(!matches_pattern("mainx", "main"));
    assert!(!matches_pattern("", "main"));
    assert!(matches_pattern("", ""));
    assert!(!matches_pattern("a", ""));
}

#[test]
fn backtracking_over_repeated_prefixes() {
    assert!(matches_pattern("aaab", "*ab"));
    assert!(matches_pattern("abcabd", "*abd"));
    assert!(!matches_pattern("abcabc", "*abd"));
    assert!(matches_pattern("a-b-c-d", "a*-d"));
    assert!(matches_pattern("xyz", "***x*y*z***"));
}

#[test]
fn empty_pattern_list_protects_nothing() {
    let none: Vec<String> = Vec::new();
    assert!(!is_protected("main", &none));
}
