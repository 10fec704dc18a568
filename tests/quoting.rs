use std::borrow::Cow;

use quoted_string::test_utils::{TestError, TestSpec, TestUnquotedValidator};
use quoted_string::{quote, quote_if_needed};

#[test]
fn quote_simple() {
    let data = &[
        ("this is simple", "\"this is simple\""),
        ("with quotes\"  ", "\"with quotes\\\"  \""),
        ("with slash\\  ", "\"with slash\\\\  \""),
    ];
    for &(unquoted, quoted) in data.iter() {
        let got_quoted = quote::<TestSpec>(unquoted).unwrap();
        assert_eq!(got_quoted, quoted);
    }
}

#[test]
fn quote_unquotable() {
    let res = quote::<TestSpec>("→");
    assert_eq!(res.unwrap_err(), TestError::Unquoteable);
}

#[test]
fn quote_if_needed_unneded() {
    let mut without_quoting = TestUnquotedValidator::new();
    let out = quote_if_needed::<TestSpec, _>("abcdef", &mut without_quoting).unwrap();
    assert_eq!(out, Cow::Borrowed("abcdef"));
}

#[test]
fn quote_if_needed_state() {
    let mut without_quoting = TestUnquotedValidator::new();
    let out = quote_if_needed::<TestSpec, _>("abcd.e", &mut without_quoting).unwrap();
    assert_eq!(out, Cow::Borrowed("abcd.e"));
    assert_eq!(without_quoting.count, 6);
    assert_eq!(without_quoting.last_was_dot, false)
}

#[test]
fn quote_if_needed_needed_because_char() {
    let mut without_quoting = TestUnquotedValidator::new();
    let out = quote_if_needed::<TestSpec, _>("ab def", &mut without_quoting).unwrap();
    let expected: Cow<'static, str> = Cow::Owned("\"ab def\"".into());
    assert_eq!(out, expected);
    assert!(without_quoting.count >= 3);
}

#[test]
fn quote_if_needed_needed_because_state() {
    let mut without_quoting = TestUnquotedValidator::new();
    let out = quote_if_needed::<TestSpec, _>("abc..f", &mut without_quoting).unwrap();
    let expected: Cow<'static, str> = Cow::Owned("\"abc..f\"".into());
    assert_eq!(out, expected);
    assert!(without_quoting.count >= 5);
}

#[test]
fn quote_if_needed_needed_because_end() {
    let mut without_quoting = TestUnquotedValidator::new();
    let out = quote_if_needed::<TestSpec, _>("a", &mut without_quoting).unwrap();
    let expected: Cow<'static, str> = Cow::Owned("\"a\"".into());
    assert_eq!(out, expected);
    assert!(without_quoting.count >= 1);
}

#[test]
fn quote_escapes_nul_and_keeps_tab() {
    assert_eq!(quote::<TestSpec>("a\0\tb").unwrap(), "\"a\\\0\tb\"");
    assert_eq!(quote::<TestSpec>("").unwrap(), "\"\"");
}

#[test]
fn quote_rejects_newline() {
    assert_eq!(quote::<TestSpec>("a\nb"), Err(TestError::Unquoteable));
}

#[test]
fn quote_if_needed_escapes_after_the_refused_char() {
    let mut without_quoting = TestUnquotedValidator::new();
    let out = quote_if_needed::<TestSpec, _>("ab\"cd", &mut without_quoting).unwrap();
    assert_eq!(out, Cow::<str>::Owned("\"ab\\\"cd\"".into()));
    assert_eq!(without_quoting.count, 3);
}

#[test]
fn quote_if_needed_fails_on_unquotable() {
    let mut without_quoting = TestUnquotedValidator::new();
    let out = quote_if_needed::<TestSpec, _>("ab\u{2192}", &mut without_quoting);
    assert_eq!(out, Err(TestError::Unquoteable));
}

#[test]
fn quote_if_needed_leading_dot() {
    let mut without_quoting = TestUnquotedValidator::new();
    let out = quote_if_needed::<TestSpec, _>(".abcde", &mut without_quoting).unwrap();
    assert_eq!(out, Cow::<str>::Owned("\".abcde\"".into()));
    assert_eq!(without_quoting.count, 1);
}

#[test]
fn quote_keeps_only_the_quoted_form_on_success() {
    assert_eq!(quote::<TestSpec>("a\\b\"c").unwrap(), "\"a\\\\b\\\"c\"");
    assert_eq!(quote::<TestSpec>("ok then \u{e9}"), Err(TestError::Unquoteable));
}
