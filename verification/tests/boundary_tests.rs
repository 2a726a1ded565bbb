use figura::{Context, Directive, Lexer, Template, Token, Value};

// ==================== Number Boundary Tests ====================

#[test]
fn test_lexer_i64_max() {
    let tokens = Lexer::tokenize("9223372036854775807");
    assert_eq!(tokens.len(), 1);
    assert!(matches!(tokens[0], Token::Int(i64::MAX)));
}

#[test]
fn test_lexer_i64_min_abs() {
    // i64::MIN as positive would overflow, but we can test a large negative
    let tokens = Lexer::tokenize("-9223372036854775807");
    assert_eq!(tokens.len(), 2); // Minus and Int
}

#[test]
fn test_lexer_float_precision() {
    let tokens = Lexer::tokenize("0.123456789012345");
    assert_eq!(tokens.len(), 1);
}

#[test]
fn test_lexer_very_small_float() {
    let tokens = Lexer::tokenize("0.000000001");
    assert_eq!(tokens.len(), 1);
}

// ==================== String Boundary Tests ====================

#[test]
fn test_lexer_string_with_all_escapes() {
    let tokens = Lexer::tokenize("\"\\n\\t\\r\\\\\\\"\\0\"");
    assert_eq!(tokens.len(), 1);
    if let Token::Literal(s) = &tokens[0] {
        assert_eq!(s, "\n\t\r\\\"\0");
    } else {
        panic!("Expected Literal token");
    }
}

#[test]
fn test_lexer_unclosed_string() {
    // The lexer handles an unclosed string (reaches end of input)
    let tokens = Lexer::tokenize("\"unclosed");
    assert_eq!(tokens.len(), 1);
}

// ==================== Template Boundary Tests ====================

#[test]
fn test_template_single_char() {
    let tpl = Template::parse("a").unwrap();
    assert_eq!(tpl.parts.len(), 1);
}

#[test]
fn test_template_single_directive() {
    let mut ctx = Context::new();
    ctx.insert("x", Value::Text("y".to_string()));

    let tpl = Template::parse("{x}").unwrap();
    let result = tpl.format(&ctx).unwrap();
    assert_eq!(result, "y");
}

#[test]
fn test_template_directive_at_start() {
    let mut ctx = Context::new();
    ctx.insert("x", Value::Text("START".to_string()));

    let tpl = Template::parse("{x} middle end").unwrap();
    let result = tpl.format(&ctx).unwrap();
    assert_eq!(result, "START middle end");
}

#[test]
fn test_template_directive_at_end() {
    let mut ctx = Context::new();
    ctx.insert("x", Value::Text("END".to_string()));

    let tpl = Template::parse("start middle {x}").unwrap();
    let result = tpl.format(&ctx).unwrap();
    assert_eq!(result, "start middle END");
}

#[test]
fn test_template_only_escape() {
    let tpl = Template::parse("\\{").unwrap();
    assert_eq!(tpl.parts.len(), 1);
}

#[test]
fn test_template_escape_at_end() {
    let tpl = Template::parse("text\\}").unwrap();
    assert_eq!(tpl.parts.len(), 1);
}

// ==================== Stress Tests ====================

#[test]
fn test_lexer_long_identifier() {
    let long_ident = "a".repeat(10000);
    let tokens = Lexer::tokenize(&long_ident);
    assert_eq!(tokens.len(), 1);
}

#[test]
fn test_lexer_long_string() {
    let long_string = format!("\"{}\"", "x".repeat(10000));
    let tokens = Lexer::tokenize(&long_string);
    assert_eq!(tokens.len(), 1);
}

#[test]
fn test_lexer_many_tokens() {
    let input = "a + ".repeat(1000) + "a";
    let tokens = Lexer::tokenize(&input);
    assert_eq!(tokens.len(), 2001); // 1000 pairs + 1 final
}

#[test]
fn test_template_long_text() {
    let long_text = "x".repeat(100000);
    let tpl = Template::parse(&long_text).unwrap();
    assert_eq!(tpl.parts.len(), 1);
}

#[test]
fn test_template_many_small_parts() {
    let mut ctx = Context::new();
    ctx.insert("x", Value::Text("X".to_string()));

    // 500 alternating text and directive parts
    let template: String = (0..500).map(|_| "a{x}").collect();
    let tpl = Template::parse(&template).unwrap();
    let result = tpl.format(&ctx).unwrap();

    assert_eq!(result.len(), 1000); // 500 'a' + 500 'X'
}

#[test]
fn test_deeply_escaped() {
    let input = "\\".repeat(100);
    let tpl = Template::parse(&input).unwrap();
    // Every pair of \\ becomes one \
    assert_eq!(tpl.parts.len(), 1);
}

// ==================== Nested Delimiter Tests ====================

#[test]
fn test_nested_braces_in_directive() {
    let mut ctx = Context::new();
    ctx.insert("x", Value::Text("test".to_string()));

    let tpl = Template::parse("outer {x} end").unwrap();
    let result = tpl.format(&ctx).unwrap();
    assert_eq!(result, "outer test end");
}

#[test]
fn nested_delimiter_test_deeply_nested() {
    // Doubled delimiters around one directive are escaped literals.
    assert_eq!(Template::validate('{', '}', "{{{{{x}}}}}"), 0);
    let mut ctx = Context::new();
    ctx.insert("x", Value::Text("v".to_string()));
    let tpl = Template::parse("{{{{{x}}}}}").unwrap();
    assert_eq!(tpl.format(&ctx).unwrap(), "{{v}}");
}

#[test]
fn test_nested_open_inside_body_is_error() {
    // A single open inside a directive body must be matched before the
    // body closes; its tokens then match no shape.
    let result = Template::parse("{a{b}c}");
    assert!(result.is_err());
}

#[test]
fn test_parts_are_flat_directives() {
    let tpl = Template::parse("x{a}y").unwrap();
    assert!(matches!(&tpl.parts[0], Directive::Literal(s) if s == "x"));
    assert!(matches!(&tpl.parts[1], Directive::Replace(_)));
    assert!(matches!(&tpl.parts[2], Directive::Literal(s) if s == "y"));
}
