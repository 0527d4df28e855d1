use templify::manual_sections::{SectionBlock, SectionErrorKind};
use templify::{ManualSectionConfig, ManualSectionManager};

fn manager() -> ManualSectionManager {
    ManualSectionManager::new(ManualSectionConfig::default())
}

#[test]
fn test_duplicates() {
    let config = ManualSectionConfig::default();
    let manager = ManualSectionManager::new(config);
    let content = "
        MANUAL SECTION START: foo
        MANUAL SECTION END
        MANUAL SECTION START: foo
        MANUAL SECTION END
        ";
    assert!(manager.check_duplicates(content, "test").is_err());
}

#[test]
fn test_nesting() {
    let config = ManualSectionConfig::default();
    let manager = ManualSectionManager::new(config);
    let content = "
        MANUAL SECTION START: foo
        MANUAL SECTION START: bar
        MANUAL SECTION END
        MANUAL SECTION END
        ";
    assert!(manager.check_structure(content, "test").is_err());
}

#[test]
fn test_missing_section() {
    let config = ManualSectionConfig::default();
    let manager = ManualSectionManager::new(config);
    let old = "MANUAL SECTION START: keep_me\nMANUAL SECTION END";
    let new = "MANUAL SECTION START: other\nMANUAL SECTION END";
    assert!(manager.validate_sections("test", new, Some(old)).is_err());
}

#[test]
fn sections_ids_in_order() {
    let t = "a\nMANUAL SECTION START: one\nx\nMANUAL SECTION END\nMANUAL SECTION START:two-2 \nMANUAL SECTION END\n";
    assert_eq!(manager().extract_section_ids(t), vec!["one".to_string(), "two-2".to_string()]);
}

#[test]
fn sections_header_needs_space_or_end_after_id() {
    assert_eq!(manager().extract_section_ids("MANUAL SECTION START: bad!"), Vec::<String>::new());
    assert_eq!(manager().extract_section_ids("MANUAL SECTION START: last"), vec!["last".to_string()]);
}

#[test]
fn sections_round_trip_keeps_old_body() {
    let prev = "head\nMANUAL SECTION START: x\nold\nMANUAL SECTION END\ntail\n";
    let new = "HEAD\nMANUAL SECTION START: x\nnew\nMANUAL SECTION END\nTAIL\n";
    let out = manager().preserve_sections(new, prev);
    assert_eq!(out, "HEAD\nMANUAL SECTION START: x\nold\nMANUAL SECTION END\nTAIL\n");
}

#[test]
fn sections_first_time_section_kept_fresh() {
    let prev = "MANUAL SECTION START: a\nmine\nMANUAL SECTION END";
    let new = "MANUAL SECTION START: a\n\nMANUAL SECTION END\nMANUAL SECTION START: b\nfresh\nMANUAL SECTION END";
    let out = manager().preserve_sections(new, prev);
    assert_eq!(out, "MANUAL SECTION START: a\nmine\nMANUAL SECTION END\nMANUAL SECTION START: b\nfresh\nMANUAL SECTION END");
}

#[test]
fn sections_preserve_is_idempotent() {
    let prev = "MANUAL SECTION START: a\nmine\nMANUAL SECTION END\n";
    let new = "top\nMANUAL SECTION START: a\n\nMANUAL SECTION END\n";
    let once = manager().preserve_sections(new, prev);
    let twice = manager().preserve_sections(new, &once);
    assert_eq!(once, twice);
}

#[test]
fn sections_lost_section_error() {
    let old = "MANUAL SECTION START: keep_me\nMANUAL SECTION END";
    let new = "MANUAL SECTION START: other\nMANUAL SECTION END";
    let err = manager().validate_sections("t.j2", new, Some(old)).unwrap_err();
    assert_eq!(err.file, "t.j2");
    match err.kind {
        SectionErrorKind::LostSection(id) => assert_eq!(id, "keep_me"),
        other => panic!("unexpected {:?}", other),
    }
}

#[test]
fn sections_duplicate_error_lists_ids() {
    let t = "MANUAL SECTION START: foo\na\nMANUAL SECTION END\nMANUAL SECTION START: foo\nb\nMANUAL SECTION END";
    match manager().check_duplicates(t, "f").unwrap_err().kind {
        SectionErrorKind::DuplicateSectionId(ids) => assert_eq!(ids, vec!["foo".to_string()]),
        other => panic!("unexpected {:?}", other),
    }
}

#[test]
fn sections_unbalanced_error() {
    let t = "MANUAL SECTION START: a\nMANUAL SECTION START: b\nMANUAL SECTION END";
    match manager().check_structure(t, "f").unwrap_err().kind {
        SectionErrorKind::UnbalancedMarkers { starts, ends } => assert_eq!((starts, ends), (2, 1)),
        other => panic!("unexpected {:?}", other),
    }
}

#[test]
fn sections_nested_error() {
    let t = "MANUAL SECTION START: a\nMANUAL SECTION START: b\nMANUAL SECTION END\nMANUAL SECTION END";
    assert!(matches!(manager().check_structure(t, "f").unwrap_err().kind, SectionErrorKind::NestedSection));
}

#[test]
fn sections_dangling_end_error() {
    let t = "MANUAL SECTION END\nMANUAL SECTION START: a\n";
    assert!(matches!(manager().check_structure(t, "f").unwrap_err().kind, SectionErrorKind::DanglingEnd));
}

#[test]
fn sections_errors_in_previous_output_named() {
    let old = "MANUAL SECTION END";
    let err = manager().validate_sections("t.j2", "plain", Some(old)).unwrap_err();
    assert_eq!(err.file, "existing file");
}

#[test]
fn sections_valid_texts_pass() {
    let t = "MANUAL SECTION START: a\nx\nMANUAL SECTION END\n";
    assert!(manager().validate_sections("t", t, Some(t)).is_ok());
    assert!(manager().validate_sections("t", "", None).is_ok());
}

#[test]
fn sections_extract_and_restore_blocks() {
    let m = manager();
    let unformatted = "fn a() {}\nMANUAL SECTION START: body\n  keep   me\nMANUAL SECTION END\n";
    let blocks = m.extract_blocks(unformatted);
    assert_eq!(blocks.len(), 1);
    assert_eq!(blocks[0].id, "body");
    assert_eq!(blocks[0].text, "MANUAL SECTION START: body\n  keep   me\nMANUAL SECTION END");
    let formatted = "fn a() {}\nMANUAL SECTION START: body\nkeep me\nMANUAL SECTION END\n";
    assert_eq!(m.restore_blocks(formatted, &blocks), unformatted);
}

#[test]
fn sections_restore_uses_last_entry() {
    let m = manager();
    let blocks = vec![
        SectionBlock { id: "a".to_string(), text: "first".to_string() },
        SectionBlock { id: "a".to_string(), text: "second".to_string() },
    ];
    let t = "<MANUAL SECTION START: a\nMANUAL SECTION END>";
    assert_eq!(m.restore_blocks(t, &blocks), "<second>");
}

#[test]
fn sections_custom_markers() {
    let m = ManualSectionManager::new(ManualSectionConfig {
        start_marker: "BEGIN".to_string(),
        end_marker: "FINISH".to_string(),
    });
    assert_eq!(m.extract_section_ids("BEGIN: q\nFINISH"), vec!["q".to_string()]);
    assert!(m.check_structure("BEGIN: q\nFINISH", "f").is_ok());
}
