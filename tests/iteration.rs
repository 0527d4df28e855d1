use templify::config::parse_iteration;
use templify::iteration::{IterationError, IterationEvaluator, IterationPattern};

#[test]
fn test_parse_simple() {
    let result = IterationEvaluator::parse_simple("service in services").unwrap();
    assert_eq!(result.var, "service");
    assert_eq!(result.expr, "services");
    assert!(result.condition.is_none());
}

#[test]
fn test_parse_simple_with_condition() {
    let result = IterationEvaluator::parse_simple("service in services if service.enabled").unwrap();
    assert_eq!(result.var, "service");
    assert_eq!(result.expr, "services");
    assert_eq!(result.condition, Some("service.enabled".to_string()));
}

#[test]
fn test_parse_nested() {
    let result =
        IterationEvaluator::parse_nested("module in modules >> component in module.components").unwrap();
    assert_eq!(result.len(), 2);
    assert_eq!(result[0].var, "module");
    assert_eq!(result[0].expr, "modules");
    assert_eq!(result[1].var, "component");
    assert_eq!(result[1].expr, "module.components");
}

#[test]
fn test_evaluate_path() {
    assert_eq!(IterationEvaluator::evaluate_path("dd.services"), "/services");
    assert_eq!(IterationEvaluator::evaluate_path("services"), "/services");
    assert_eq!(IterationEvaluator::evaluate_path("dd.modules.components"), "/modules/components");
}

#[test]
fn iteration_item_in_items() {
    let r = IterationEvaluator::parse_simple("item in items").unwrap();
    assert_eq!(r.var, "item");
    assert_eq!(r.expr, "items");
    assert_eq!(r.condition, None);
}

#[test]
fn iteration_condition_kept() {
    let r = IterationEvaluator::parse_simple("item in items if item.active").unwrap();
    assert_eq!(r.condition, Some("item.active".to_string()));
}

#[test]
fn iteration_nested_two_clauses_in_order() {
    match IterationEvaluator::parse("a in as >> b in a.bs").unwrap() {
        IterationPattern::Nested(v) => {
            assert_eq!(v.len(), 2);
            assert_eq!((v[0].var.as_str(), v[0].expr.as_str()), ("a", "as"));
            assert_eq!((v[1].var.as_str(), v[1].expr.as_str()), ("b", "a.bs"));
        }
        _ => panic!("expected a nested pattern"),
    }
}

#[test]
fn iteration_parse_dispatches_simple() {
    match IterationEvaluator::parse("x in xs").unwrap() {
        IterationPattern::Simple(i) => assert_eq!(i.var, "x"),
        _ => panic!("expected a simple pattern"),
    }
}

#[test]
fn iteration_without_in_is_rejected() {
    match IterationEvaluator::parse_simple("items") {
        Err(IterationError::InvalidSyntax(s)) => assert_eq!(s, "items"),
        _ => panic!("expected a syntax error"),
    }
}

#[test]
fn iteration_two_in_separators_rejected() {
    assert!(IterationEvaluator::parse_simple("a in b in c").is_err());
}

#[test]
fn iteration_nested_bad_clause_reports_it() {
    match IterationEvaluator::parse_nested("a in as >>  broken  ") {
        Err(IterationError::InvalidSyntax(s)) => assert_eq!(s, "broken"),
        _ => panic!("expected a syntax error"),
    }
}

#[test]
fn iteration_trims_whitespace() {
    let r = IterationEvaluator::parse_simple("  item   in   items  ").unwrap();
    assert_eq!(r.var, "item");
    assert_eq!(r.expr, "items");
}

#[test]
fn path_modules_core() {
    assert_eq!(IterationEvaluator::evaluate_path("modules.core"), "/modules/core");
    assert_eq!(IterationEvaluator::evaluate_path("  dd.a.b.c "), "/a/b/c");
    assert_eq!(IterationEvaluator::evaluate_path(""), "/");
}

#[test]
fn config_parse_iteration() {
    let i = parse_iteration("svc in services").unwrap();
    assert_eq!(i.var, "svc");
    assert_eq!(i.expr, "services");
    assert!(parse_iteration("nothing here").is_err());
}
