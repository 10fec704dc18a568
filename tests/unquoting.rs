use std::borrow::Cow;

use quoted_string::test_utils::{LenientTestSpec, TestError, TestSpec};
use quoted_string::{to_content, ContentChars};

#[test]
fn no_quotes() {
    let res = to_content::<TestSpec>("noquotes");
    assert_eq!(res, Err(TestError::QuotesMissing));
}

#[test]
fn unquote_unnecessary_quoted() {
    let res = to_content::<TestSpec>(r#""simple""#).unwrap();
    assert_eq!(res, Cow::Borrowed("simple"))
}

#[test]
fn quoted_but_no_quoted_pair() {
    let res = to_content::<TestSpec>(r#""abc def""#).unwrap();
    assert_eq!(res, Cow::Borrowed("abc def"))
}

#[test]
fn unquote_with_quoted_pair() {
    let res = to_content::<TestSpec>(r#""a\"b""#).unwrap();
    let expected: Cow<'static, str> = Cow::Owned(r#"a"b"#.into());
    assert_eq!(res, expected);
}

#[test]
fn with_multiple_quoted_pairs() {
    let res = to_content::<TestSpec>(r#""a\"\bc\ d""#).unwrap();
    let expected: Cow<'static, str> = Cow::Owned(r#"a"bc d"#.into());
    assert_eq!(res, expected);
}

#[test]
fn empty() {
    let res = to_content::<TestSpec>(r#""""#).unwrap();
    assert_eq!(res, Cow::Borrowed(""))
}

#[test]
fn unquote_strip_non_semantic_ws() {
    let res = to_content::<TestSpec>("\"hy \nthere\"").unwrap();
    let expected: Cow<'static, str> = Cow::Owned("hy there".into());
    assert_eq!(res, expected);
}

#[test]
fn tailing_escape() {
    let res = to_content::<TestSpec>(r#""ab\""#);
    assert_eq!(res, Err(TestError::TailingEscape));
}

#[test]
fn missing_escape() {
    let res = to_content::<TestSpec>("\"a\"\"");
    assert_eq!(res, Err(TestError::EscapeMissing));
}

#[test]
fn to_content_keeps_escaped_quote_and_drops_newline() {
    let res = to_content::<TestSpec>("\"ab\\\"c\nde\"").unwrap();
    assert_eq!(&*res, "ab\"cde");
    assert!(matches!(res, Cow::Owned(_)));
}

#[test]
fn to_content_single_quote_char_is_missing_quotes() {
    assert_eq!(to_content::<TestSpec>("\""), Err(TestError::QuotesMissing));
    assert_eq!(to_content::<TestSpec>("\"abc"), Err(TestError::QuotesMissing));
}

#[test]
fn to_content_error_after_split() {
    assert_eq!(to_content::<TestSpec>("\"a\nb\0\""), Err(TestError::EscapeMissing));
    assert_eq!(to_content::<TestSpec>("\"a\u{2192}\""), Err(TestError::Unquoteable));
}

#[test]
fn to_content_newline_at_end() {
    let res = to_content::<TestSpec>("\"abc\n\"").unwrap();
    assert_eq!(res, Cow::<str>::Owned("abc".into()));
}

#[test]
fn lenient_grammar_keeps_trailing_escape() {
    let res = to_content::<LenientTestSpec>("\"ab\\\"").unwrap();
    assert_eq!(res, Cow::<str>::Owned("ab\\".into()));
    let cc = ContentChars::<LenientTestSpec>::from_str_unchecked("\"a\nb\\\"").unwrap();
    assert_eq!(cc.collect_chars().unwrap(), vec!['a', 'b', '\\']);
    assert_eq!(to_content::<LenientTestSpec>("\"a\\\"b\""), Ok(Cow::<str>::Owned("a\"b".into())));
}
