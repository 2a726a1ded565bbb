use figura::{Context, Value};

#[test]
fn test_value_display_string() {
    let v = Value::Text("hello".to_string());
    assert_eq!(v.to_text(), "hello");
}

#[test]
fn test_value_display_str() {
    let v = Value::static_str("world");
    assert_eq!(v.to_text(), "world");
}

#[test]
fn test_value_display_int() {
    let v = Value::Int(42);
    assert_eq!(v.to_text(), "42");
}

#[test]
fn test_value_display_negative_int() {
    let v = Value::Int(-100);
    assert_eq!(v.to_text(), "-100");
}

#[test]
fn test_value_display_float() {
    let v = Value::Float(format!("{}", 3.14));
    assert_eq!(v.to_text(), "3.14");
}

#[test]
fn test_value_display_bool_true() {
    let v = Value::Bool(true);
    assert_eq!(v.to_text(), "true");
}

#[test]
fn test_value_display_bool_false() {
    let v = Value::Bool(false);
    assert_eq!(v.to_text(), "false");
}

#[test]
fn test_value_debug() {
    let v = Value::Text("test".to_string());
    let debug = format!("{:?}", v);
    assert!(debug.contains("Text"));
    assert!(debug.contains("test"));
}

#[test]
fn test_value_float_canonical_rendering() {
    assert_eq!(Value::Float("120.50".to_string()).to_text(), "120.5");
    assert_eq!(Value::Float("007.250".to_string()).to_text(), "7.25");
    assert_eq!(Value::Float("0.0".to_string()).to_text(), "0");
    assert_eq!(Value::Float("-0.0".to_string()).to_text(), "0");
    assert_eq!(Value::Float(".5".to_string()).to_text(), "0.5");
    assert_eq!(Value::Float("-273.15".to_string()).to_text(), "-273.15");
}

#[test]
fn test_value_kind_names() {
    assert_eq!(Value::Text("x".to_string()).kind_name(), "string");
    assert_eq!(Value::Int(1).kind_name(), "i64");
    assert_eq!(Value::Float("1.5".to_string()).kind_name(), "float");
    assert_eq!(Value::Bool(true).kind_name(), "bool");
}

#[test]
fn test_value_truthiness() {
    assert!(Value::Text("x".to_string()).truthy());
    assert!(!Value::Text("".to_string()).truthy());
    assert!(Value::Int(-3).truthy());
    assert!(!Value::Int(0).truthy());
    assert!(Value::Float("0.001".to_string()).truthy());
    assert!(!Value::Float("0.0".to_string()).truthy());
    assert!(!Value::Float("-0.000".to_string()).truthy());
    assert!(Value::Bool(true).truthy());
    assert!(!Value::Bool(false).truthy());
}

#[test]
fn test_context_insert_and_get() {
    let mut ctx = Context::new();
    ctx.insert("name", Value::static_str("Alice"));
    assert!(ctx.get("name").is_some());
    assert!(ctx.get("missing").is_none());
    assert_eq!(ctx.get("name").unwrap().to_text(), "Alice");
}

#[test]
fn test_context_later_binding_wins() {
    let mut ctx = Context::new();
    ctx.insert("n", Value::Int(1));
    ctx.insert("n", Value::Int(2));
    assert_eq!(ctx.get("n").unwrap().to_text(), "2");
}
