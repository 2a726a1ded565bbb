use figura::{Directive, Template, TemplateError};

// ==================== Basic Parsing Tests ====================

#[test]
fn test_parse_empty_string() {
    let tpl = Template::parse("").unwrap();
    assert_eq!(tpl.parts.len(), 0);
}

#[test]
fn test_parse_only_text() {
    let tpl = Template::parse("hello world").unwrap();
    assert_eq!(tpl.parts.len(), 1);
    assert!(matches!(&tpl.parts[0], Directive::Literal(s) if s == "hello world"));
}

#[test]
fn test_parse_single_directive() {
    let tpl = Template::parse("{name}").unwrap();
    assert_eq!(tpl.parts.len(), 1);
    assert!(matches!(&tpl.parts[0], Directive::Replace(_)));
}

#[test]
fn test_parse_text_before_directive() {
    let tpl = Template::parse("Hello, {name}").unwrap();
    assert_eq!(tpl.parts.len(), 2);
    assert!(matches!(&tpl.parts[0], Directive::Literal(s) if s == "Hello, "));
    assert!(matches!(&tpl.parts[1], Directive::Replace(_)));
}

#[test]
fn test_parse_text_after_directive() {
    let tpl = Template::parse("{name}!").unwrap();
    assert_eq!(tpl.parts.len(), 2);
    assert!(matches!(&tpl.parts[0], Directive::Replace(_)));
    assert!(matches!(&tpl.parts[1], Directive::Literal(s) if s == "!"));
}

#[test]
fn test_parse_text_around_directive() {
    let tpl = Template::parse("Hello, {name}!").unwrap();
    assert_eq!(tpl.parts.len(), 3);
    assert!(matches!(&tpl.parts[0], Directive::Literal(s) if s == "Hello, "));
    assert!(matches!(&tpl.parts[1], Directive::Replace(_)));
    assert!(matches!(&tpl.parts[2], Directive::Literal(s) if s == "!"));
}

#[test]
fn test_parse_multiple_directives() {
    let tpl = Template::parse("{first} {second}").unwrap();
    assert_eq!(tpl.parts.len(), 3);
    assert!(matches!(&tpl.parts[0], Directive::Replace(_)));
    assert!(matches!(&tpl.parts[1], Directive::Literal(s) if s == " "));
    assert!(matches!(&tpl.parts[2], Directive::Replace(_)));
}

#[test]
fn test_parse_adjacent_directives() {
    let tpl = Template::parse("{a}{b}{c}").unwrap();
    assert_eq!(tpl.parts.len(), 3);
    assert!(matches!(&tpl.parts[0], Directive::Replace(_)));
    assert!(matches!(&tpl.parts[1], Directive::Replace(_)));
    assert!(matches!(&tpl.parts[2], Directive::Replace(_)));
}

#[test]
fn test_parse_complex_template() {
    let tpl = Template::parse("Dear {title} {name}, your order #{order_id} is ready.").unwrap();
    assert_eq!(tpl.parts.len(), 7);
}

// ==================== Escape Sequence Tests ====================

#[test]
fn test_parse_escaped_opening_in_text() {
    let tpl = Template::parse("use \\{ for braces").unwrap();
    assert_eq!(tpl.parts.len(), 1);
    assert!(matches!(&tpl.parts[0], Directive::Literal(s) if s == "use { for braces"));
}

#[test]
fn test_parse_escaped_closing_in_text() {
    let tpl = Template::parse("use \\} for braces").unwrap();
    assert_eq!(tpl.parts.len(), 1);
    assert!(matches!(&tpl.parts[0], Directive::Literal(s) if s == "use } for braces"));
}

#[test]
fn test_parse_escaped_backslash() {
    let tpl = Template::parse("path\\\\to\\\\file").unwrap();
    assert_eq!(tpl.parts.len(), 1);
    assert!(matches!(&tpl.parts[0], Directive::Literal(s) if s == "path\\to\\file"));
}

#[test]
fn test_parse_escaped_in_directive() {
    // {name\}} - the backslash puts a raw } into the directive body, whose
    // tokens match no directive shape.
    let result = Template::parse("{name\\}}");
    assert!(result.is_err());
}

#[test]
fn test_parse_escaped_regular_char() {
    let tpl = Template::parse("\\n is newline").unwrap();
    assert_eq!(tpl.parts.len(), 1);
    assert!(matches!(&tpl.parts[0], Directive::Literal(s) if s == "n is newline"));
}

#[test]
fn test_parse_trailing_backslash() {
    let tpl = Template::parse("trailing\\").unwrap();
    assert_eq!(tpl.parts.len(), 1);
    assert!(matches!(&tpl.parts[0], Directive::Literal(s) if s == "trailing"));
}

#[test]
fn test_parse_mixed_escapes_and_directives() {
    let tpl = Template::parse("\\{not a directive\\} but {this} is").unwrap();
    assert_eq!(tpl.parts.len(), 3);
    assert!(matches!(&tpl.parts[0], Directive::Literal(s) if s == "{not a directive} but "));
    assert!(matches!(&tpl.parts[1], Directive::Replace(_)));
    assert!(matches!(&tpl.parts[2], Directive::Literal(s) if s == " is"));
}

// ==================== Error Tests ====================

#[test]
fn test_parse_unmatched_opening() {
    let result = Template::parse("{unclosed");
    assert!(matches!(result, Err(TemplateError::MissingDelimiter(c)) if c == '}'));
}

#[test]
fn test_parse_unmatched_closing() {
    let result = Template::parse("extra}");
    assert!(matches!(result, Err(TemplateError::MissingDelimiter(c)) if c == '{'));
}

// ==================== Custom Delimiter Tests ====================

#[test]
fn test_custom_delimiters_angle_brackets() {
    let tpl = Template::compile('<', '>', "<name>").unwrap();
    assert_eq!(tpl.parts.len(), 1);
    assert!(matches!(&tpl.parts[0], Directive::Replace(_)));
}

#[test]
fn test_custom_delimiters_square_brackets() {
    let tpl = Template::compile('[', ']', "Hello [name]!").unwrap();
    assert_eq!(tpl.parts.len(), 3);
}

#[test]
fn test_custom_delimiters_parens() {
    let tpl = Template::compile('(', ')', "Value: (value)").unwrap();
    assert_eq!(tpl.parts.len(), 2);
}

#[test]
fn test_custom_delimiters_dollar() {
    let tpl = Template::compile('$', '$', "Hello $name$!").unwrap();
    assert_eq!(tpl.parts.len(), 3);
    assert!(matches!(&tpl.parts[0], Directive::Literal(s) if s == "Hello "));
    assert!(matches!(&tpl.parts[1], Directive::Replace(_)));
    assert!(matches!(&tpl.parts[2], Directive::Literal(s) if s == "!"));
}

#[test]
fn test_custom_delimiters_preserve_default_braces() {
    let tpl = Template::compile('<', '>', "{not a directive} but <this> is").unwrap();
    assert_eq!(tpl.parts.len(), 3);
    assert!(matches!(&tpl.parts[0], Directive::Literal(s) if s == "{not a directive} but "));
}

// ==================== Unicode and Special Characters ====================

#[test]
fn test_parse_unicode_in_text() {
    let tpl = Template::parse("Héllo Wörld 🌍").unwrap();
    assert_eq!(tpl.parts.len(), 1);
    assert!(matches!(&tpl.parts[0], Directive::Literal(s) if s == "Héllo Wörld 🌍"));
}

#[test]
fn test_parse_unicode_around_directive() {
    let tpl = Template::parse("Привет, {name}!").unwrap();
    assert_eq!(tpl.parts.len(), 3);
    assert!(matches!(&tpl.parts[0], Directive::Literal(s) if s == "Привет, "));
}

#[test]
fn test_parse_emoji_in_text() {
    let tpl = Template::parse("Hello 👋 {name} 🎉").unwrap();
    assert_eq!(tpl.parts.len(), 3);
}

#[test]
fn test_parse_multiline() {
    let tpl = Template::parse("line1\n{var}\nline3").unwrap();
    assert_eq!(tpl.parts.len(), 3);
    assert!(matches!(&tpl.parts[0], Directive::Literal(s) if s == "line1\n"));
    assert!(matches!(&tpl.parts[2], Directive::Literal(s) if s == "\nline3"));
}

#[test]
fn test_parse_tabs() {
    let tpl = Template::parse("\t{var}\t").unwrap();
    assert_eq!(tpl.parts.len(), 3);
}

// ==================== Real-World Template Tests ====================

#[test]
fn test_parse_email_template() {
    let template = "Dear {title} {last_name},\n\n\
                    Thank you for your order #{order_id}.\n\
                    Your total is ${amount}.\n\n\
                    Best regards,\n\
                    {company_name}";
    let tpl = Template::parse(template).unwrap();
    let directive_count = tpl
        .parts
        .iter()
        .filter(|p| !matches!(p, Directive::Literal(_)))
        .count();
    assert_eq!(directive_count, 5);
}

#[test]
fn test_parse_html_template() {
    let template = "<div class=\"greeting\">Hello, {name}!</div>";
    let tpl = Template::parse(template).unwrap();
    assert_eq!(tpl.parts.len(), 3);
}

#[test]
fn test_parse_url_template() {
    let template = "https://api.example.com/users/{user_id}/posts/{post_id}";
    let tpl = Template::parse(template).unwrap();
    let directive_count = tpl
        .parts
        .iter()
        .filter(|p| !matches!(p, Directive::Literal(_)))
        .count();
    assert_eq!(directive_count, 2);
}

#[test]
fn test_parse_json_like() {
    // Regular JSON braces are plain text under angle-bracket delimiters.
    let template = "{\"name\": \"<name>\", \"age\": <age>}";
    let tpl = Template::compile('<', '>', template).unwrap();
    let directive_count = tpl
        .parts
        .iter()
        .filter(|p| !matches!(p, Directive::Literal(_)))
        .count();
    assert_eq!(directive_count, 2);
}
