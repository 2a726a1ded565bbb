use figura::Template;

fn validate(input: &str) -> i128 {
    Template::validate('{', '}', input)
}

// ==================== Basic Matching Tests ====================

#[test]
fn lib_test_empty_string() {
    assert_eq!(validate(""), 0);
}

#[test]
fn test_validate_returns_zero_for_balanced() {
    assert_eq!(validate("{}"), 0);
    assert_eq!(validate("{{}}"), 0);
    assert_eq!(validate("{}{}"), 0);
}

#[test]
fn test_no_delimiters() {
    assert_eq!(validate("hello world"), 0);
    assert_eq!(validate("abc123"), 0);
}

#[test]
fn test_single_pair() {
    assert_eq!(validate("{}"), 0);
}

#[test]
fn test_nested_pairs() {
    assert_eq!(validate("{{}}"), 0);
}

#[test]
fn lib_test_deeply_nested() {
    assert_eq!(validate("{{{}}}"), 0);
}

#[test]
fn test_very_deeply_nested() {
    assert_eq!(validate("{{{{{{{{{{}}}}}}}}}}"), 0);
}

#[test]
fn test_multiple_sequential_pairs() {
    assert_eq!(validate("{}{}"), 0);
}

#[test]
fn test_with_text_between() {
    assert_eq!(validate("hello{world}"), 0);
    assert_eq!(validate("{hello{world}}"), 0);
}

// ==================== Unmatched Delimiter Tests ====================

#[test]
fn test_unmatched_opening() {
    assert!(validate("{") > 0);
}

#[test]
fn test_unmatched_closing() {
    assert!(validate("}") < 0);
}

#[test]
fn test_closing_before_opening() {
    assert!(validate("}{") < 0);
}

// ==================== Escape Sequence Tests ====================

#[test]
fn test_escaped_opening_delimiter() {
    assert_eq!(validate("\\{"), 0);
}

#[test]
fn test_escaped_closing_delimiter() {
    assert_eq!(validate("\\}"), 0);
}

#[test]
fn test_escaped_delimiter_doesnt_count() {
    assert_eq!(validate("{\\}}"), 0);
}

#[test]
fn test_escaped_opening_in_balanced_expression() {
    assert_eq!(validate("{\\{}"), 0);
}

#[test]
fn test_escaped_closing_in_balanced_expression() {
    assert_eq!(validate("{\\}}"), 0);
}

#[test]
fn test_multiple_escaped_delimiters() {
    assert_eq!(validate("\\{\\}"), 0);
}

#[test]
fn test_escaped_backslash_then_delimiter() {
    // \\ followed by { means the backslash is escaped, { is NOT escaped
    assert!(validate("\\\\{") > 0);
    assert_eq!(validate("\\\\{}"), 0);
}

#[test]
fn test_escaped_regular_character() {
    assert_eq!(validate("\\a"), 0);
    assert_eq!(validate("\\n"), 0);
}

#[test]
fn test_trailing_backslash() {
    assert_eq!(validate("\\"), 0);
    assert_eq!(validate("{}\\"), 0);
}

// ==================== Edge Cases ====================

#[test]
fn test_only_escaped_delimiters() {
    assert_eq!(validate("\\{\\}\\{\\}"), 0);
}

#[test]
fn test_alternating_escaped_and_real() {
    // \{ { \} } = escaped-open, real-open, escaped-close, real-close = balanced
    assert_eq!(validate("\\{{\\}}"), 0);
}

// ==================== Doubled-Delimiter Escapes ====================

#[test]
fn test_doubled_open_is_escaped_literal() {
    assert_eq!(validate("{{"), 0);
    assert_eq!(validate("{{}}"), 0);
}

#[test]
fn test_doubled_close_is_escaped_literal() {
    assert_eq!(validate("}}"), 0);
}

#[test]
fn test_doubled_then_single_open() {
    assert_eq!(validate("{{{"), 1);
}

#[test]
fn test_same_delimiter_balance() {
    assert_eq!(Template::validate('$', '$', "a $x$ b"), 0);
    assert_eq!(Template::validate('$', '$', "a $x b"), 1);
    assert_eq!(Template::validate('$', '$', "a $$ b"), 0);
}
