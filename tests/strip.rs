use quoted_string::strip_quotes;

#[test]
fn empty_string() {
    assert!(strip_quotes("").is_none());
}

#[test]
fn empty_quoted_string() {
    assert_eq!(strip_quotes("\"\""), Some(""));
}

#[test]
fn missing_quotes() {
    assert_eq!(strip_quotes("\"abc"), None);
    assert_eq!(strip_quotes("abc\""), None);
}

#[test]
fn simple_string() {
    assert_eq!(strip_quotes("\"simple\""), Some("simple"));
}

#[test]
fn strip_single_quote_char() {
    assert_eq!(strip_quotes("\""), None);
    assert_eq!(strip_quotes("\"a b\""), Some("a b"));
    assert_eq!(strip_quotes("a b"), None);
}
