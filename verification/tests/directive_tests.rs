use figura::{
    Argument, ConditionalDirective, Context, NoDirective, RepeatDirective, ReplaceDirective,
    SwitchDirective, Value,
};

// ==================== ReplaceDirective Tests ====================

#[test]
fn test_replace_directive_string() {
    let dir = ReplaceDirective(Argument::variable("name"));
    let mut ctx = Context::new();
    ctx.insert("name", Value::Text("World".to_string()));
    assert_eq!(dir.execute(&ctx).unwrap(), "World");
}

#[test]
fn test_replace_directive_str() {
    let dir = ReplaceDirective(Argument::variable("greeting"));
    let mut ctx = Context::new();
    ctx.insert("greeting", Value::static_str("Hello"));
    assert_eq!(dir.execute(&ctx).unwrap(), "Hello");
}

#[test]
fn test_replace_directive_int() {
    let dir = ReplaceDirective(Argument::variable("count"));
    let mut ctx = Context::new();
    ctx.insert("count", Value::Int(42));
    assert_eq!(dir.execute(&ctx).unwrap(), "42");
}

#[test]
fn test_replace_directive_negative_int() {
    let dir = ReplaceDirective(Argument::variable("temp"));
    let mut ctx = Context::new();
    ctx.insert("temp", Value::Int(-10));
    assert_eq!(dir.execute(&ctx).unwrap(), "-10");
}

#[test]
fn test_replace_directive_float() {
    let dir = ReplaceDirective(Argument::variable("pi"));
    let mut ctx = Context::new();
    ctx.insert("pi", Value::Float(format!("{}", 3.14159)));
    assert_eq!(dir.execute(&ctx).unwrap(), "3.14159");
}

#[test]
fn test_replace_directive_bool_true() {
    let dir = ReplaceDirective(Argument::variable("flag"));
    let mut ctx = Context::new();
    ctx.insert("flag", Value::Bool(true));
    assert_eq!(dir.execute(&ctx).unwrap(), "true");
}

#[test]
fn test_replace_directive_bool_false() {
    let dir = ReplaceDirective(Argument::variable("flag"));
    let mut ctx = Context::new();
    ctx.insert("flag", Value::Bool(false));
    assert_eq!(dir.execute(&ctx).unwrap(), "false");
}

#[test]
fn test_replace_directive_missing_key_error() {
    let dir = ReplaceDirective(Argument::variable("missing"));
    let ctx = Context::new();
    let result = dir.execute(&ctx);
    assert!(result.is_err());
    assert!(
        result
            .unwrap_err()
            .message()
            .contains("doesn't exist in the context")
    );
}

// ==================== RepeatDirective Tests ====================

#[test]
fn test_repeat_directive_literal_pattern_literal_count() {
    let dir = RepeatDirective(Argument::variable("ab"), Argument::variable("3"));
    let ctx = Context::new();
    assert_eq!(dir.execute(&ctx).unwrap(), "ababab");
}

#[test]
fn test_repeat_directive_context_pattern() {
    let dir = RepeatDirective(Argument::variable("char"), Argument::variable("4"));
    let mut ctx = Context::new();
    ctx.insert("char", Value::Text("X".to_string()));
    assert_eq!(dir.execute(&ctx).unwrap(), "XXXX");
}

#[test]
fn test_repeat_directive_context_count() {
    let dir = RepeatDirective(Argument::variable("*"), Argument::variable("stars"));
    let mut ctx = Context::new();
    ctx.insert("stars", Value::Int(5));
    assert_eq!(dir.execute(&ctx).unwrap(), "*****");
}

#[test]
fn test_repeat_directive_both_from_context() {
    let dir = RepeatDirective(Argument::variable("sep"), Argument::variable("times"));
    let mut ctx = Context::new();
    ctx.insert("sep", Value::Text("-".to_string()));
    ctx.insert("times", Value::Int(3));
    assert_eq!(dir.execute(&ctx).unwrap(), "---");
}

#[test]
fn test_repeat_directive_zero_count() {
    let dir = RepeatDirective(Argument::variable("x"), Argument::variable("0"));
    let ctx = Context::new();
    assert_eq!(dir.execute(&ctx).unwrap(), "");
}

#[test]
fn test_repeat_directive_one_count() {
    let dir = RepeatDirective(Argument::variable("single"), Argument::variable("1"));
    let ctx = Context::new();
    assert_eq!(dir.execute(&ctx).unwrap(), "single");
}

#[test]
fn directive_test_repeat_directive_large_count() {
    let dir = RepeatDirective(Argument::variable("a"), Argument::variable("1000"));
    let ctx = Context::new();
    let result = dir.execute(&ctx).unwrap();
    assert_eq!(result.len(), 1000);
    assert!(result.chars().all(|c| c == 'a'));
}

#[test]
fn test_repeat_directive_multichar_pattern() {
    let dir = RepeatDirective(Argument::literal("hello "), Argument::variable("2"));
    let ctx = Context::new();
    assert_eq!(dir.execute(&ctx).unwrap(), "hello hello ");
}

#[test]
fn test_repeat_directive_negative_count_error() {
    let dir = RepeatDirective(Argument::variable("x"), Argument::variable("n"));
    let mut ctx = Context::new();
    ctx.insert("n", Value::Int(-1));
    let result = dir.execute(&ctx);
    assert!(result.is_err());
}

#[test]
fn test_repeat_directive_float_count_error() {
    let dir = RepeatDirective(Argument::variable("x"), Argument::variable("n"));
    let mut ctx = Context::new();
    ctx.insert("n", Value::Float(format!("{}", 2.5)));
    let result = dir.execute(&ctx);
    assert!(result.is_err());
}

#[test]
fn test_repeat_directive_string_count_error() {
    let dir = RepeatDirective(Argument::variable("x"), Argument::variable("n"));
    let mut ctx = Context::new();
    ctx.insert("n", Value::Text("five".to_string()));
    let result = dir.execute(&ctx);
    assert!(result.is_err());
}

#[test]
fn test_repeat_directive_invalid_literal_count_error() {
    let dir = RepeatDirective(Argument::variable("x"), Argument::variable("not_a_number"));
    let ctx = Context::new();
    let result = dir.execute(&ctx);
    assert!(result.is_err());
}

// ==================== ConditionalDirective Tests ====================

#[test]
fn test_conditional_bool_true() {
    let dir = ConditionalDirective::new(
        Argument::variable("cond"),
        Argument::variable("yes"),
        Argument::variable("no"),
    );
    let mut ctx = Context::new();
    ctx.insert("cond", Value::Bool(true));
    assert_eq!(dir.execute(&ctx).unwrap(), "yes");
}

#[test]
fn test_conditional_bool_false() {
    let dir = ConditionalDirective::new(
        Argument::variable("cond"),
        Argument::variable("yes"),
        Argument::variable("no"),
    );
    let mut ctx = Context::new();
    ctx.insert("cond", Value::Bool(false));
    assert_eq!(dir.execute(&ctx).unwrap(), "no");
}

#[test]
fn test_conditional_int_truthy() {
    let dir = ConditionalDirective::new(
        Argument::variable("val"),
        Argument::variable("nonzero"),
        Argument::variable("zero"),
    );
    let mut ctx = Context::new();
    ctx.insert("val", Value::Int(1));
    assert_eq!(dir.execute(&ctx).unwrap(), "nonzero");
}

#[test]
fn test_conditional_int_falsy() {
    let dir = ConditionalDirective::new(
        Argument::variable("val"),
        Argument::variable("nonzero"),
        Argument::variable("zero"),
    );
    let mut ctx = Context::new();
    ctx.insert("val", Value::Int(0));
    assert_eq!(dir.execute(&ctx).unwrap(), "zero");
}

#[test]
fn test_conditional_float_truthy() {
    let dir = ConditionalDirective::new(
        Argument::variable("f"),
        Argument::variable("has_value"),
        Argument::variable("empty"),
    );
    let mut ctx = Context::new();
    ctx.insert("f", Value::Float(format!("{}", 0.001)));
    assert_eq!(dir.execute(&ctx).unwrap(), "has_value");
}

#[test]
fn test_conditional_float_falsy() {
    let dir = ConditionalDirective::new(
        Argument::variable("f"),
        Argument::variable("has_value"),
        Argument::variable("empty"),
    );
    let mut ctx = Context::new();
    ctx.insert("f", Value::Float(format!("{}", 0.0)));
    assert_eq!(dir.execute(&ctx).unwrap(), "empty");
}

#[test]
fn test_conditional_string_truthy() {
    let dir = ConditionalDirective::new(
        Argument::variable("s"),
        Argument::variable("has_text"),
        Argument::variable("empty"),
    );
    let mut ctx = Context::new();
    ctx.insert("s", Value::Text("hello".to_string()));
    assert_eq!(dir.execute(&ctx).unwrap(), "has_text");
}

#[test]
fn test_conditional_string_falsy() {
    let dir = ConditionalDirective::new(
        Argument::variable("s"),
        Argument::variable("has_text"),
        Argument::variable("empty"),
    );
    let mut ctx = Context::new();
    ctx.insert("s", Value::Text("".to_string()));
    assert_eq!(dir.execute(&ctx).unwrap(), "empty");
}

#[test]
fn test_conditional_missing_condition_falsy() {
    let dir = ConditionalDirective::new(
        Argument::variable("missing"),
        Argument::variable("found"),
        Argument::variable("not_found"),
    );
    let ctx = Context::new();
    assert_eq!(dir.execute(&ctx).unwrap(), "not_found");
}

#[test]
fn test_conditional_resolve_then_from_context() {
    let dir = ConditionalDirective::new(
        Argument::variable("cond"),
        Argument::variable("msg"),
        Argument::variable("other"),
    );
    let mut ctx = Context::new();
    ctx.insert("cond", Value::Bool(true));
    ctx.insert("msg", Value::Text("Hello!".to_string()));
    assert_eq!(dir.execute(&ctx).unwrap(), "Hello!");
}

#[test]
fn test_conditional_resolve_else_from_context() {
    let dir = ConditionalDirective::new(
        Argument::variable("cond"),
        Argument::variable("msg"),
        Argument::variable("fallback"),
    );
    let mut ctx = Context::new();
    ctx.insert("cond", Value::Bool(false));
    ctx.insert("fallback", Value::Text("Goodbye!".to_string()));
    assert_eq!(dir.execute(&ctx).unwrap(), "Goodbye!");
}

#[test]
fn test_conditional_literal_result() {
    let dir = ConditionalDirective::new(
        Argument::variable("flag"),
        Argument::variable("literal_yes"),
        Argument::variable("literal_no"),
    );
    let mut ctx = Context::new();
    ctx.insert("flag", Value::Bool(true));
    // "literal_yes" not in context, so returned as-is
    assert_eq!(dir.execute(&ctx).unwrap(), "literal_yes");
}

// ==================== SwitchDirective Tests ====================

fn pairs(ps: &[(&str, &str)]) -> Vec<(String, String)> {
    ps.iter().map(|(a, b)| (a.to_string(), b.to_string())).collect()
}

#[test]
fn test_switch_first_case_match() {
    let dir = SwitchDirective::new(
        Argument::variable("val"),
        pairs(&[("a", "result_a"), ("b", "result_b")]),
        Some("default".to_string()),
    );
    let mut ctx = Context::new();
    ctx.insert("val", Value::Text("a".to_string()));
    assert_eq!(dir.execute(&ctx).unwrap(), "result_a");
}

#[test]
fn test_switch_second_case_match() {
    let dir = SwitchDirective::new(
        Argument::variable("val"),
        pairs(&[("a", "result_a"), ("b", "result_b")]),
        Some("default".to_string()),
    );
    let mut ctx = Context::new();
    ctx.insert("val", Value::Text("b".to_string()));
    assert_eq!(dir.execute(&ctx).unwrap(), "result_b");
}

#[test]
fn test_switch_default_case() {
    let dir = SwitchDirective::new(
        Argument::variable("val"),
        pairs(&[("a", "result_a")]),
        Some("fallback".to_string()),
    );
    let mut ctx = Context::new();
    ctx.insert("val", Value::Text("x".to_string()));
    assert_eq!(dir.execute(&ctx).unwrap(), "fallback");
}

#[test]
fn test_switch_no_match_no_default_error() {
    let dir = SwitchDirective::new(Argument::variable("val"), pairs(&[("a", "result_a")]), None);
    let mut ctx = Context::new();
    ctx.insert("val", Value::Text("x".to_string()));
    let result = dir.execute(&ctx);
    assert!(result.is_err());
}

#[test]
fn test_switch_resolve_value_from_context() {
    let dir = SwitchDirective::new(
        Argument::variable("key"),
        pairs(&[("opt1", "res1")]),
        Some("def".to_string()),
    );
    let mut ctx = Context::new();
    ctx.insert("key", Value::Text("opt1".to_string()));
    assert_eq!(dir.execute(&ctx).unwrap(), "res1");
}

#[test]
fn test_switch_resolve_pattern_from_context() {
    let dir = SwitchDirective::new(
        Argument::variable("val"),
        pairs(&[("pat", "matched")]),
        Some("unmatched".to_string()),
    );
    let mut ctx = Context::new();
    ctx.insert("val", Value::Text("hello".to_string()));
    ctx.insert("pat", Value::Text("hello".to_string()));
    assert_eq!(dir.execute(&ctx).unwrap(), "matched");
}

#[test]
fn test_switch_resolve_result_from_context() {
    let dir = SwitchDirective::new(Argument::variable("val"), pairs(&[("x", "output")]), None);
    let mut ctx = Context::new();
    ctx.insert("val", Value::Text("x".to_string()));
    ctx.insert("output", Value::Text("THE OUTPUT".to_string()));
    assert_eq!(dir.execute(&ctx).unwrap(), "THE OUTPUT");
}

#[test]
fn test_switch_many_cases() {
    let dir = SwitchDirective::new(
        Argument::variable("num"),
        pairs(&[("1", "one"), ("2", "two"), ("3", "three"), ("4", "four"), ("5", "five")]),
        Some("many".to_string()),
    );
    let mut ctx = Context::new();
    ctx.insert("num", Value::Text("4".to_string()));
    assert_eq!(dir.execute(&ctx).unwrap(), "four");
}

#[test]
fn test_switch_with_int_value() {
    let dir = SwitchDirective::new(
        Argument::variable("n"),
        pairs(&[("42", "answer")]),
        Some("unknown".to_string()),
    );
    let mut ctx = Context::new();
    ctx.insert("n", Value::Int(42));
    assert_eq!(dir.execute(&ctx).unwrap(), "answer");
}

#[test]
fn test_switch_only_default() {
    let dir = SwitchDirective::new(
        Argument::variable("x"),
        Vec::new(),
        Some("always_this".to_string()),
    );
    let mut ctx = Context::new();
    ctx.insert("x", Value::Text("anything".to_string()));
    assert_eq!(dir.execute(&ctx).unwrap(), "always_this");
}

#[test]
fn test_switch_empty_cases_no_default_error() {
    let dir = SwitchDirective::new(Argument::variable("x"), Vec::new(), None);
    let mut ctx = Context::new();
    ctx.insert("x", Value::Text("test".to_string()));
    let result = dir.execute(&ctx);
    assert!(result.is_err());
}

// ==================== NoDirective ====================

#[test]
fn test_no_directive_renders_nothing() {
    let ctx = Context::new();
    assert_eq!(NoDirective.execute(&ctx).unwrap(), "");
}
