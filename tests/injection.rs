use templify::injection::{apply, parse_blocks, splice_edits, Edit, InjectionError};

fn block(name: &str, pattern: &str, text: &str) -> String {
    format!(
        "<!-- injection-pattern: {} -->\n{}\n<!-- injection-string-start -->{}<!-- injection-string-end -->\n",
        name, pattern, text
    )
}

#[test]
fn injection_replaces_group_only() {
    let rendered = block("bump", r"^id=(?P<injection>\d+);$", "99");
    let out = apply(&rendered, Some("id=42;")).unwrap();
    assert_eq!(out.text, "id=99;");
    assert!(out.warnings.is_empty());
}

#[test]
fn injection_whole_statement_replacement_lands_in_group() {
    // the replacement takes exactly the span of the `injection` group
    let rendered = block("bump", r"^id=(?P<injection>\d+);$", "id=99;");
    let out = apply(&rendered, Some("id=42;")).unwrap();
    assert_eq!(out.text, "id=id=99;;");
}

#[test]
fn injection_whole_line_group() {
    let rendered = block("bump", r"(?m)^(?P<injection>id=\d+;)$", "id=99;");
    let out = apply(&rendered, Some("id=42;")).unwrap();
    assert_eq!(out.text, "id=99;");
}

#[test]
fn injection_zero_matches_warns() {
    let rendered = block("nothing", r"(?P<injection>zzz)", "x");
    let out = apply(&rendered, Some("id=42;")).unwrap();
    assert_eq!(out.text, "id=42;");
    assert_eq!(out.warnings, vec!["nothing".to_string()]);
}

#[test]
fn injection_without_prior_passes_through() {
    let rendered = block("b", r"(?P<injection>a)", "x");
    let out = apply(&rendered, None).unwrap();
    assert_eq!(out.text, rendered);
}

#[test]
fn injection_several_blocks_and_matches() {
    let rendered = format!("{}{}", block("b", r"(?P<injection>b)", "B"), block("a", r"(?P<injection>a)", "A"));
    let out = apply(&rendered, Some("a-b-a")).unwrap();
    assert_eq!(out.text, "A-B-A");
}

#[test]
fn injection_context_kept_around_group() {
    let rendered = block("imports", r"// imports\n(?P<injection>)", "use x;\n");
    let out = apply(&rendered, Some("// imports\nfn main() {}\n")).unwrap();
    assert_eq!(out.text, "// imports\nuse x;\nfn main() {}\n");
}

#[test]
fn injection_invalid_pattern() {
    let rendered = block("bad", r"(?P<injection>a", "x");
    match apply(&rendered, Some("a")) {
        Err(InjectionError::InvalidPattern { pattern, .. }) => assert_eq!(pattern, "(?P<injection>a"),
        other => panic!("unexpected {:?}", other),
    }
}

#[test]
fn injection_missing_group() {
    let rendered = block("nogroup", r"(?P<other>a)", "x");
    match apply(&rendered, Some("a")) {
        Err(InjectionError::MissingGroup(p)) => assert_eq!(p, "(?P<other>a)"),
        other => panic!("unexpected {:?}", other),
    }
}

#[test]
fn injection_unterminated_block() {
    let rendered = "<!-- injection-pattern: lone -->\n(?P<injection>a)\n";
    match apply(rendered, Some("a")) {
        Err(InjectionError::Unterminated(n)) => assert_eq!(n, "lone"),
        other => panic!("unexpected {:?}", other),
    }
}

#[test]
fn injection_overlap_rejected() {
    let rendered = format!("{}{}", block("x", r"(?P<injection>abc)", "1"), block("y", r"(?P<injection>bc)", "2"));
    assert!(matches!(apply(&rendered, Some("abc")), Err(InjectionError::Overlapping)));
}

#[test]
fn injection_parse_blocks_fields() {
    let rendered = block("n-1", "  pat  ", "rep\n");
    let bs = parse_blocks(&rendered);
    assert_eq!(bs.len(), 1);
    assert_eq!(bs[0].name, "n-1");
    assert_eq!(bs[0].pattern, "pat");
    assert_eq!(bs[0].replacement, Some("rep\n".to_string()));
}

#[test]
fn injection_splice_orders_edits() {
    let edits = vec![
        Edit { start: 4, end: 5, text: "E".to_string() },
        Edit { start: 0, end: 1, text: "A".to_string() },
    ];
    assert_eq!(splice_edits("abcde", &edits).unwrap(), "AbcdE");
}

#[test]
fn injection_splice_rejects_same_start() {
    let edits = vec![
        Edit { start: 1, end: 1, text: "x".to_string() },
        Edit { start: 1, end: 1, text: "y".to_string() },
    ];
    assert!(splice_edits("ab", &edits).is_err());
}

#[test]
fn injection_unicode_positions() {
    let rendered = block("u", r"é(?P<injection>x)", "Y");
    let out = apply(&rendered, Some("aéxz")).unwrap();
    assert_eq!(out.text, "aéYz");
}
