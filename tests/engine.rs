use templify::engine::{render_error_message, TemplateEngine};

fn context(pairs: &[(&str, &str)]) -> serde_json::Value {
    let mut map = serde_json::Map::new();
    for (k, v) in pairs {
        map.insert(k.to_string(), serde_json::Value::String(v.to_string()));
    }
    serde_json::Value::Object(map)
}

#[test]
fn test_render_string() {
    let engine = TemplateEngine::new();
    let context = context(&[("name", "World")]);
    let result = engine.render_string("Hello, {{ name }}!", &context).unwrap();
    assert_eq!(result, "Hello, World!");
}

#[test]
fn test_render_string_with_globals() {
    let mut engine = TemplateEngine::new();
    engine.add_global("version".to_string(), serde_json::Value::String("1.0.0".to_string()));
    let context = context(&[("name", "Test")]);
    let result = engine.render_string("{{ name }} v{{ version }}", &context).unwrap();
    assert_eq!(result, "Test v1.0.0");
}

#[test]
fn test_render_string_undefined_variable() {
    let engine = TemplateEngine::new();
    let context = context(&[]);
    let result = engine.render_string("Hello, {{ name }}!", &context);
    assert!(result.is_err());
}

#[test]
fn engine_filters_available() {
    let engine = TemplateEngine::new();
    let context = context(&[("n", "my service")]);
    let out = engine.render_string("{{ n | pascalcase }} {{ n | snakecase }}", &context).unwrap();
    assert_eq!(out, "MyService my_service");
}

#[test]
fn engine_error_names_line() {
    let engine = TemplateEngine::new();
    let err = engine.render_string("ok\nHello, {{ missing }}!\n", &context(&[])).unwrap_err();
    assert!(err.ends_with("\nHello, {{ missing }}!"));
}

#[test]
fn engine_error_message_lines() {
    assert_eq!(render_error_message("bad", None, "a\nb"), "bad");
    assert_eq!(render_error_message("bad", Some(2), "a\r\nb\r\n"), "bad\nb");
    assert_eq!(render_error_message("bad", Some(1), "a\r\nb"), "bad\na");
    assert_eq!(render_error_message("bad", Some(3), "a\nb\n"), "bad\n");
    assert_eq!(render_error_message("bad", Some(0), "a"), "bad\n");
}
