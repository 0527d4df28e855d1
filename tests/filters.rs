use templify::filters::{camelcase, kebabcase, pascalcase, screamingsnakecase, snakecase, uuid_generate};

#[test]
fn filters_case_conversions() {
    assert_eq!(camelcase("foo bar".to_string()), "fooBar");
    assert_eq!(pascalcase("foo bar".to_string()), "FooBar");
    assert_eq!(snakecase("FooBar".to_string()), "foo_bar");
    assert_eq!(kebabcase("FooBar".to_string()), "foo-bar");
    assert_eq!(screamingsnakecase("fooBar".to_string()), "FOO_BAR");
}

#[test]
fn filters_uuid_seeded_is_deterministic_v5() {
    let a = uuid_generate(Some("service-a".to_string()));
    let b = uuid_generate(Some("service-a".to_string()));
    let c = uuid_generate(Some("service-b".to_string()));
    assert_eq!(a, b);
    assert_ne!(a, c);
    assert_eq!(a.len(), 36);
    assert_eq!(a.as_bytes()[14], b'5');
}

#[test]
fn filters_uuid_unseeded_is_random_v4() {
    let a = uuid_generate(None);
    let b = uuid_generate(Some(String::new()));
    assert_eq!(a.len(), 36);
    assert_eq!(a.as_bytes()[14], b'4');
    assert_eq!(b.as_bytes()[14], b'4');
    assert_ne!(a, b);
}
