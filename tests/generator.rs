use templify::{classify, output_name_template, plan_file, Effect, GenerationError, TemplateKind};
use templify::{ManualSectionConfig, ManualSectionManager};

fn sections() -> ManualSectionManager {
    ManualSectionManager::new(ManualSectionConfig::default())
}

#[test]
fn generator_classify_and_names() {
    assert_eq!(classify("a.txt.j2", false), TemplateKind::Renderable);
    assert_eq!(classify("a.txt.inj", false), TemplateKind::Injection);
    assert_eq!(classify("a.txt", false), TemplateKind::Plain);
    assert_eq!(classify("dir.j2", true), TemplateKind::Directory);
    assert_eq!(output_name_template("{{ name }}.rs.j2", TemplateKind::Renderable), Some("{{ name }}.rs".to_string()));
    assert_eq!(output_name_template("mod.rs.inj", TemplateKind::Injection), Some("mod.rs".to_string()));
    assert_eq!(output_name_template("logo.png", TemplateKind::Plain), None);
}

#[test]
fn generator_renderable_merges_sections() {
    let prior = "MANUAL SECTION START: a\nmine\nMANUAL SECTION END\n";
    let rendered = "v2\nMANUAL SECTION START: a\n\nMANUAL SECTION END\n";
    let plan = plan_file(&sections(), TemplateKind::Renderable, "t.j2", rendered, Some(prior), false).unwrap();
    assert_eq!(plan.effect, Effect::WriteFile);
    assert_eq!(plan.content.unwrap(), "v2\nMANUAL SECTION START: a\nmine\nMANUAL SECTION END\n");
}

#[test]
fn generator_dry_run_touches_nothing() {
    let prior = "MANUAL SECTION START: a\nmine\nMANUAL SECTION END\n";
    let rendered = "v2\n";
    for kind in [TemplateKind::Renderable, TemplateKind::Injection, TemplateKind::Plain] {
        let dry = plan_file(&sections(), kind, "t", "x", None, true).unwrap();
        assert_eq!(dry.effect, Effect::Nothing);
    }
    let live = plan_file(&sections(), TemplateKind::Renderable, "t", rendered, Some(prior), false);
    let dry = plan_file(&sections(), TemplateKind::Renderable, "t", rendered, Some(prior), true);
    assert!(matches!(live, Err(GenerationError::Section(_))));
    assert!(matches!(dry, Err(GenerationError::Section(_))));
}

#[test]
fn generator_injection_and_copy() {
    let rendered = "<!-- injection-pattern: v -->\n(?P<injection>1)\n<!-- injection-string-start -->2<!-- injection-string-end -->";
    let plan = plan_file(&sections(), TemplateKind::Injection, "m.inj", rendered, Some("v1"), false).unwrap();
    assert_eq!(plan.content.unwrap(), "v2");
    let first = plan_file(&sections(), TemplateKind::Injection, "m.inj", rendered, None, false).unwrap();
    assert_eq!(first.content.unwrap(), rendered);
    let copy = plan_file(&sections(), TemplateKind::Plain, "a.png", "", None, false).unwrap();
    assert_eq!(copy.effect, Effect::CopyFile);
    assert!(copy.content.is_none());
}

#[test]
fn generator_second_run_is_identical() {
    let template_output = "head\nMANUAL SECTION START: a\n\nMANUAL SECTION END\n";
    let first = plan_file(&sections(), TemplateKind::Renderable, "t", template_output, None, false).unwrap();
    let written = first.content.unwrap();
    let edited = written.replace("\n\nMANUAL", "\nhand written\nMANUAL");
    let second = plan_file(&sections(), TemplateKind::Renderable, "t", template_output, Some(&edited), false).unwrap();
    let out2 = second.content.unwrap();
    let third = plan_file(&sections(), TemplateKind::Renderable, "t", template_output, Some(&out2), false).unwrap();
    assert_eq!(out2, edited);
    assert_eq!(third.content.unwrap(), out2);
}
