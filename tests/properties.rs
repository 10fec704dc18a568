use std::borrow::Cow;

use quoted_string::test_utils::{TestError, TestSpec, TestUnquotedValidator};
use quoted_string::{
    parse, quote, quote_if_needed, to_content, validate, AsciiCaseInsensitiveEq, ContentChars,
    CoreError, PartialCodePoint, ScanAutomaton,
};

const SAMPLES: &[&str] = &["", "simple", "with \"quotes\"", "back\\slash", "tab\tand nul\0", "ab.cd"];

fn pcp(c: char) -> PartialCodePoint {
    PartialCodePoint::from_code_point(c as u32)
}

#[test]
fn round_trip_of_samples() {
    for s in SAMPLES {
        let q = quote::<TestSpec>(s).unwrap();
        assert_eq!(to_content::<TestSpec>(&q).unwrap(), *s);
    }
}

#[test]
fn quoted_samples_are_wrapped_in_quotes() {
    for s in SAMPLES {
        let q = quote::<TestSpec>(s).unwrap();
        assert!(q.len() >= 2 && q.starts_with('"') && q.ends_with('"'));
    }
}

#[test]
fn quote_if_needed_borrows_only_when_valid_unquoted() {
    let mut v = TestUnquotedValidator::new();
    assert!(matches!(quote_if_needed::<TestSpec, _>("ab.cde", &mut v), Ok(Cow::Borrowed("ab.cde"))));
    let mut v = TestUnquotedValidator::new();
    let out = quote_if_needed::<TestSpec, _>("abcdefg", &mut v).unwrap();
    assert_eq!(out, Cow::<str>::Owned("\"abcdefg\"".into()));
    assert_eq!(out, Cow::<str>::Owned(quote::<TestSpec>("abcdefg").unwrap()));
}

#[test]
fn parse_of_quoted_samples_matches_everything() {
    for s in SAMPLES {
        let q = quote::<TestSpec>(s).unwrap();
        let parsed = parse::<TestSpec>(&q).unwrap();
        assert_eq!(parsed.quoted_string, q.as_str());
        assert_eq!(parsed.tail, "");
        assert!(validate::<TestSpec>(&q));
    }
}

#[test]
fn validate_agrees_with_parse() {
    for x in ["\"a\"", "\"a\"b", "a", "\"a", "\"\\\"\"", "\"a\0\""] {
        let by_parse = match parse::<TestSpec>(x) {
            Ok(p) => p.tail.is_empty(),
            Err(_) => false,
        };
        assert_eq!(validate::<TestSpec>(x), by_parse);
    }
}

#[test]
fn content_chars_of_quoted_samples_compare_equal() {
    for s in SAMPLES {
        let q = quote::<TestSpec>(s).unwrap();
        let cc = ContentChars::<TestSpec>::from_str_unchecked(&q).unwrap();
        assert!(cc.eq_str(s));
        assert!(cc.eq_ignore_ascii_case(s.to_ascii_uppercase().as_str()));
    }
    let q = quote::<TestSpec>("Mixed Case").unwrap();
    let cc = ContentChars::<TestSpec>::from_str_unchecked(&q).unwrap();
    assert!(!cc.eq_str("mixed case"));
    assert!(cc.eq_ignore_ascii_case("mIXED cASE"));
    assert!(!cc.eq_ignore_ascii_case("mixed-case"));
}

#[test]
fn automaton_accepts_quoted_string() {
    let mut a = ScanAutomaton::<TestSpec>::new();
    assert!(!a.did_end());
    assert_eq!(a.end(), Err(CoreError::DoesNotEndWithDQuotes));
    let mut emitted = Vec::new();
    for c in "\"a\\\"b\nc\"".chars() {
        emitted.push(a.advance(pcp(c)).unwrap());
    }
    assert_eq!(emitted, vec![false, true, false, true, true, false, true, false]);
    assert!(a.did_end());
    assert_eq!(a.end(), Ok(()));
}

#[test]
fn automaton_end_is_absorbing() {
    let mut a = ScanAutomaton::<TestSpec>::new();
    assert_eq!(a.advance(pcp('"')), Ok(false));
    assert_eq!(a.advance(pcp('"')), Ok(false));
    assert_eq!(a.advance(pcp('a')), Err(CoreError::QuotedStringAlreadyEnded));
    assert_eq!(a.advance(pcp('"')), Err(CoreError::AdvancedFailedAutomaton));
    assert_eq!(a.advance(pcp('a')), Err(CoreError::AdvancedFailedAutomaton));
    assert!(!a.did_end());
}

#[test]
fn automaton_failed_is_absorbing() {
    let mut a = ScanAutomaton::<TestSpec>::new();
    assert_eq!(a.advance(pcp('a')), Err(CoreError::DoesNotStartWithDQuotes));
    assert_eq!(a.advance(pcp('"')), Err(CoreError::AdvancedFailedAutomaton));
    assert_eq!(a.advance(pcp('"')), Err(CoreError::AdvancedFailedAutomaton));
}

#[test]
fn automaton_rejects_bad_characters() {
    let mut a = ScanAutomaton::<TestSpec>::new();
    a.advance(pcp('"')).unwrap();
    assert_eq!(a.advance(pcp('\u{2192}')), Err(CoreError::InvalidChar));
    let mut a = ScanAutomaton::<TestSpec>::new();
    a.advance(pcp('"')).unwrap();
    a.advance(pcp('\\')).unwrap();
    assert_eq!(a.advance(pcp('\n')), Err(CoreError::UnquoteableCharQuoted));
}

#[test]
fn core_error_descriptions() {
    assert_eq!(
        CoreError::AdvancedFailedAutomaton.description(),
        "advanced automaton after it entered the failed state"
    );
    assert_eq!(CoreError::DoesNotStartWithDQuotes.description(), "quoted string did not start with \"");
    assert_eq!(CoreError::DoesNotEndWithDQuotes.description(), "quoted string did not end with \"");
    assert_eq!(
        CoreError::InvalidChar.description(),
        "char can not be represented in a quoted string (without encoding)"
    );
}

#[test]
fn partial_code_points() {
    assert_eq!(PartialCodePoint::from_code_point(0x41).as_u8(), 0x41);
    assert_eq!(PartialCodePoint::from_code_point(0x7F).as_u8(), 0x7F);
    assert_eq!(PartialCodePoint::from_code_point(0x80).as_u8(), 0xFF);
    assert_eq!(PartialCodePoint::from_code_point(0x2192).as_u8(), 0xFF);
    assert_eq!(PartialCodePoint::from_utf8_byte(b'a').as_u8(), b'a');
}

#[test]
fn quote_plain_sentence() {
    assert_eq!(quote::<TestSpec>("this is simple").unwrap(), "\"this is simple\"");
}

#[test]
fn trailing_escape_is_rejected_by_strict_grammar() {
    assert_eq!(to_content::<TestSpec>("\"ab\\\""), Err(TestError::TailingEscape));
}
