use quoted_string::test_utils::{TestError, TestSpec};
use quoted_string::{AsciiCaseInsensitiveEq, ContentChars};

#[test]
fn missing_double_quoted() {
    let res = ContentChars::<TestSpec>::from_str_unchecked("abcdef");
    assert_eq!(res.err(), Some(TestError::QuotesMissing));
}

#[test]
fn iter_unnecessary_quoted() {
    let res = ContentChars::<TestSpec>::from_str_unchecked("\"abcdef\"").unwrap();
    assert_eq!(res.collect_chars().unwrap().as_slice(), &['a', 'b', 'c', 'd', 'e', 'f'])
}

#[test]
fn quoted() {
    let res = ContentChars::<TestSpec>::from_str_unchecked("\"abc def\"").unwrap();
    assert_eq!(res.collect_chars().unwrap().as_slice(), &['a', 'b', 'c', ' ', 'd', 'e', 'f'])
}

#[test]
fn iter_with_quoted_pair() {
    let res = ContentChars::<TestSpec>::from_str_unchecked(r#""abc\" \def""#).unwrap();
    assert_eq!(
        res.collect_chars().unwrap().as_slice(),
        &['a', 'b', 'c', '"', ' ', 'd', 'e', 'f']
    )
}

#[test]
fn iter_strip_non_semantic_ws() {
    let res = ContentChars::<TestSpec>::from_str_unchecked("\"abc\ndef\"").unwrap();
    assert_eq!(res.collect_chars().unwrap().as_slice(), &['a', 'b', 'c', 'd', 'e', 'f'])
}

#[test]
fn ascii_case_insensitive_eq() {
    let left = ContentChars::<TestSpec>::from_str_unchecked(r#""abc""#).unwrap();
    let right = ContentChars::<TestSpec>::from_str_unchecked(r#""aBc""#).unwrap();
    assert!(left.eq_ignore_ascii_case(&right))
}

#[test]
fn content_chars_compare_with_text() {
    let cc = ContentChars::<TestSpec>::from_str_unchecked(r#""ab\"\ c""#).unwrap();
    assert!(cc.eq_str("ab\" c"));
    assert!(!cc.eq_str("ab\" C"));
    assert!(!cc.eq_str("ab\" "));
    assert!(!cc.eq_str("ab\" cd"));
    assert!(cc.eq_ignore_ascii_case("AB\" c"));
    assert!(!cc.eq_ignore_ascii_case("AB\" d"));
}

#[test]
fn content_chars_compare_with_each_other() {
    let a = ContentChars::<TestSpec>::from_str_unchecked("\"a\\bc\"").unwrap();
    let b = ContentChars::<TestSpec>::from_str_unchecked("\"ab\nc\"").unwrap();
    let c = ContentChars::<TestSpec>::from_str_unchecked("\"abd\"").unwrap();
    assert!(a.eq_chars(&b));
    assert!(!a.eq_chars(&c));
    assert!(!a.eq_ignore_ascii_case(&c));
}

#[test]
fn content_chars_decode_error_is_never_equal() {
    let bad = ContentChars::<TestSpec>::from_str_unchecked("\"a\"b\"").unwrap();
    let same = ContentChars::<TestSpec>::from_str_unchecked("\"a\"b\"").unwrap();
    assert!(!bad.eq_str("a\"b"));
    assert!(!bad.eq_chars(&same));
    assert_eq!(bad.collect_chars(), Err(TestError::EscapeMissing));
}

#[test]
fn content_chars_step_by_step() {
    let mut cc = ContentChars::<TestSpec>::from_str_unchecked("\"a\n\\\"\0b\\\"").unwrap();
    assert_eq!(cc.next(), Some(Ok('a')));
    assert_eq!(cc.next(), Some(Ok('"')));
    assert_eq!(cc.next(), Some(Err(TestError::EscapeMissing)));
    assert_eq!(cc.next(), Some(Ok('b')));
    assert_eq!(cc.next(), Some(Err(TestError::TailingEscape)));
    assert_eq!(cc.next(), None);
}

#[test]
fn content_chars_from_parts() {
    let cc = ContentChars::<TestSpec>::from_parts_unchecked("x\\y z", quoted_string::test_utils::TestQuotedValidator);
    assert_eq!(cc.collect_chars().unwrap(), vec!['x', 'y', ' ', 'z']);
}

#[test]
fn content_chars_invalid_char() {
    let cc = ContentChars::<TestSpec>::from_str_unchecked("\"a\u{1}\"").unwrap();
    assert_eq!(cc.collect_chars(), Err(TestError::Unquoteable));
}

#[test]
fn content_chars_compare_with_str_reference_ignoring_case() {
    let cc = ContentChars::<TestSpec>::from_str_unchecked(r#""ab\"\ c""#).unwrap();
    let text: &str = "AB\" C";
    assert!(AsciiCaseInsensitiveEq::<&str>::eq_ignore_ascii_case(&cc, &text));
    assert!(AsciiCaseInsensitiveEq::eq_ignore_ascii_case(&text, &cc));
    let other: &str = "AB\" D";
    assert!(!AsciiCaseInsensitiveEq::<&str>::eq_ignore_ascii_case(&cc, &other));
    assert!(!AsciiCaseInsensitiveEq::eq_ignore_ascii_case(&other, &cc));
}
