use templify::config::{FormatConfig, FormatDefaults, FormatterConfig, FormatterEntry};
use templify::{FormatterManager, ManualSectionConfig, ManualSectionManager};

fn config(enabled: bool, preserve: bool) -> FormatConfig {
    FormatConfig {
        enabled,
        formatters: vec![
            FormatterEntry {
                pattern: "*.rs".to_string(),
                config: FormatterConfig {
                    formatter_type: "command".to_string(),
                    command: Some("rustfmt".to_string()),
                    args: Some(vec!["--edition".to_string(), "2021".to_string()]),
                    enabled: true,
                },
            },
            FormatterEntry {
                pattern: "Makefile".to_string(),
                config: FormatterConfig {
                    formatter_type: "builtin".to_string(),
                    command: None,
                    args: None,
                    enabled: true,
                },
            },
        ],
        defaults: FormatDefaults { ignore_patterns: vec!["*.gen.rs".to_string()], preserve_manual_sections: preserve },
    }
}

fn manager(enabled: bool, preserve: bool) -> FormatterManager {
    FormatterManager::new(config(enabled, preserve), ManualSectionManager::new(ManualSectionConfig::default()))
}

#[test]
fn formatting_command_chosen_by_pattern() {
    let m = manager(true, true);
    let (cmd, args) = m.formatter_command("src/main.rs").unwrap();
    assert_eq!(cmd, "rustfmt");
    assert_eq!(args, vec!["--edition".to_string(), "2021".to_string()]);
    assert!(m.formatter_command("README.md").is_none());
    assert!(m.formatter_command("Makefile").is_none());
}

#[test]
fn formatting_disabled_or_ignored() {
    assert!(manager(false, true).formatter_command("main.rs").is_none());
    assert!(manager(true, true).should_ignore("x.gen.rs"));
    assert!(manager(true, true).formatter_command("x.gen.rs").is_none());
}

#[test]
fn formatting_pattern_rules() {
    let m = manager(true, true);
    assert!(m.matches_pattern("a.rs", "*.rs"));
    assert!(!m.matches_pattern("a.rsx", "*.rs"));
    assert!(m.matches_pattern("dir/Makefile", "Makefile"));
}

#[test]
fn formatting_restores_sections() {
    let m = manager(true, true);
    let content = "x  =  1\nMANUAL SECTION START: k\n  a  =  2\nMANUAL SECTION END\n";
    let formatted = "x = 1\nMANUAL SECTION START: k\na = 2\nMANUAL SECTION END\n".to_string();
    assert_eq!(
        m.finish_format(content, Some(formatted)),
        "x = 1\nMANUAL SECTION START: k\n  a  =  2\nMANUAL SECTION END\n"
    );
    assert_eq!(m.finish_format(content, None), content);
    let plain = manager(true, false);
    assert_eq!(plain.finish_format(content, Some("y".to_string())), "y");
}
