use templify::selection::{matches_pattern, should_filter};

#[test]
fn selection_plain_and_glob() {
    assert!(matches_pattern("api", "api"));
    assert!(!matches_pattern("api", "ap"));
    assert!(matches_pattern("api-server", "api*"));
    assert!(matches_pattern("web-api", "*api"));
    assert!(!matches_pattern("web", "a*b*c"));
}

#[test]
fn selection_regex_pattern() {
    assert!(matches_pattern("service-42", "regex:^service-[0-9]+$"));
    assert!(!matches_pattern("service-x", "regex:^service-[0-9]+$"));
    // a pattern that does not compile falls back to plain comparison
    assert!(matches_pattern("regex:(", "regex:("));
}

#[test]
fn selection_should_filter() {
    let wanted = vec!["api*".to_string()];
    let unwanted = vec!["api-old".to_string()];
    assert!(!should_filter("api-new", &wanted, &unwanted));
    assert!(should_filter("api-old", &wanted, &unwanted));
    assert!(should_filter("web", &wanted, &unwanted));
    assert!(!should_filter("web", &[], &[]));
}
