use quoted_string::test_utils::{TestError, TestSpec};
use quoted_string::{parse, validate, Parsed};

#[test]
fn parse_simple() {
    let parsed = parse::<TestSpec>("\"simple\"").unwrap();
    assert_eq!(parsed.quoted_string, "\"simple\"");
    assert_eq!(parsed.tail, "");
}

#[test]
fn parse_with_tail() {
    let parsed = parse::<TestSpec>("\"simple\"; abc").unwrap();
    assert_eq!(parsed.quoted_string, "\"simple\"");
    assert_eq!(parsed.tail, "; abc");
}

#[test]
fn parse_with_quoted_pairs() {
    let parsed = parse::<TestSpec>("\"si\\\"m\\\\ple\"").unwrap();
    assert_eq!(parsed.quoted_string, "\"si\\\"m\\\\ple\"");
    assert_eq!(parsed.tail, "");
}

#[test]
fn parse_with_unnecessary_quoted_pairs() {
    let parsed = parse::<TestSpec>("\"sim\\p\\le\"").unwrap();
    assert_eq!(parsed.quoted_string, "\"sim\\p\\le\"");
    assert_eq!(parsed.tail, "");
}

#[test]
fn reject_missing_quoted() {
    let res = parse::<TestSpec>("simple");
    assert_eq!(res, Err((0, TestError::QuotesMissing)));
}

#[test]
fn reject_tailing_escape() {
    let res = parse::<TestSpec>("\"simple\\\"");
    assert_eq!(res, Err((9, TestError::QuotesMissing)));
}

#[test]
fn reject_unquoted_quotable() {
    let res = parse::<TestSpec>("\"simp\0le\"");
    assert_eq!(res, Err((5, TestError::EscapeMissing)));
}

#[test]
fn reject_missing_closing_dquotes() {
    let res = parse::<TestSpec>("\"simple");
    assert_eq!(res, Err((7, TestError::QuotesMissing)));
}

#[test]
fn empty_string_does_not_panic() {
    let res = parse::<TestSpec>("");
    assert_eq!(res, Err((0, TestError::QuotesMissing)));
}

#[test]
fn accept_valid_quoted_string() {
    assert!(validate::<TestSpec>("\"that\\\"s strange\""));
}

#[test]
fn reject_invalid_quoted_string() {
    assert!(!validate::<TestSpec>("ups"))
}

#[test]
fn reject_quoted_string_shorter_than_input() {
    assert!(!validate::<TestSpec>("\"nice!\"ups whats here?\""))
}

#[test]
fn parse_list_of_quoted_strings() {
    let parsed = parse::<TestSpec>("\"list of\"; \"more\"").unwrap();
    assert_eq!(parsed, Parsed { quoted_string: "\"list of\"", tail: "; \"more\"" });
}

#[test]
fn validate_rejects_trailing_text() {
    assert!(!validate::<TestSpec>("\"not right\"really not"));
    assert!(validate::<TestSpec>("\"quoted string\""));
}

#[test]
fn parse_reports_byte_offsets() {
    assert_eq!(parse::<TestSpec>("\"ab\u{2192}c\""), Err((3, TestError::Unquoteable)));
    assert_eq!(parse::<TestSpec>("\"a\\\u{1}\""), Err((3, TestError::Unquoteable)));
    assert_eq!(parse::<TestSpec>("\u{e9}\"a\""), Err((0, TestError::QuotesMissing)));
}

#[test]
fn parse_keeps_dropped_whitespace_in_match() {
    let parsed = parse::<TestSpec>("\"a\nb\"c").unwrap();
    assert_eq!(parsed.quoted_string, "\"a\nb\"");
    assert_eq!(parsed.tail, "c");
}

#[test]
fn parse_escaped_quote_does_not_end() {
    let parsed = parse::<TestSpec>("\"\\\"\"\"").unwrap();
    assert_eq!(parsed.quoted_string, "\"\\\"\"");
    assert_eq!(parsed.tail, "\"");
    assert!(!validate::<TestSpec>("\"\\\"\"\""));
}

#[test]
fn parse_match_ends_at_first_unescaped_quote() {
    let parsed = parse::<TestSpec>("\"a\\\"b\"c\"").unwrap();
    assert_eq!(parsed.quoted_string, "\"a\\\"b\"");
    assert_eq!(parsed.tail, "c\"");
}
