//! An example grammar: printable US-ASCII as plain text, space and tab as
//! semantic whitespace, `\n` as whitespace that is dropped, and `\`, `"` and
//! NUL written as quoted-pairs. A trailing `\` is an error under `TestSpec`
//! and a literal `\` under `LenientTestSpec`.
use vstd::prelude::*;

use crate::automaton::{ParsingImpl, State};
use crate::error::CoreError;
use crate::grammar::{
    is_kept, pcp_of, GeneralQSSpec, PartialCodePoint, QuotedValidator, QuotingClass,
    QuotingClassifier, ValidationResult, WithoutQuotingValidator, NON_ASCII,
};

verus! {

/// Error used by TestSpec
#[derive(Clone, Debug, Eq, PartialEq, Hash)]
pub enum TestError {
    /// character was not quotable
    Unquoteable,
    /// the `'"'` normally surrounding a quoted string are missing
    QuotesMissing,
    /// a character which needs to be escaped with a quoted-pair wasn't
    EscapeMissing,
    /// a quoted-string ended in a `'\\'` without a character it escapes
    TailingEscape,
}

/// a grammar implementation, used for testing and as an example
#[derive(Copy, Clone, Debug, PartialEq, Eq)]
pub struct TestSpec;

/// `TestSpec`, except that a trailing `\` in the content stands for itself
#[derive(Copy, Clone, Debug, PartialEq, Eq)]
pub struct LenientTestSpec;

/// The quoted validator of `TestSpec`
///
/// - it treats '\0' and '"' as non-qtext, non-ws quotable
/// - qtext are all printable us-ascii chars ('!'...'~')
/// - semantic ws are ' ' and '\t'
/// - '\n' is a non-semantic ws
#[derive(Copy, Clone, Debug)]
pub struct TestQuotedValidator;

/// An unquoted validator for `TestSpec`
///
/// it expects a 6 character sequence of upper and lower case us-ascii letters
/// which can also contain dots but not multiple dots in a row. As `new` starts
/// it with `last_was_dot == true`, it also can not start with a dot.
#[derive(Clone, Debug)]
pub struct TestUnquotedValidator {
    /// number of characters fed to `next`
    pub count: usize,
    /// if the last char was `'.'`
    pub last_was_dot: bool,
}

/// printable US-ASCII, without space
pub open spec fn is_vchar(x: u32) -> bool {
    0x21 <= x <= 0x7E
}

/// space or tab
pub open spec fn is_wsp(x: u32) -> bool {
    x == 0x20 || x == 0x09
}

/// What the quoted validator of `TestSpec` says of a character code.
pub open spec fn test_outcome(x: u32) -> ValidationResult {
    if x == 0x5C {
        ValidationResult::Escape
    } else if x == 0x22 || x == 0 {
        ValidationResult::Quotable
    } else if is_vchar(x) {
        ValidationResult::QText
    } else if is_wsp(x) {
        ValidationResult::SemanticWs
    } else if x == 0x0A {
        ValidationResult::NotSemanticWs
    } else {
        ValidationResult::Invalid
    }
}

/// Whether a character code may follow a `\` under `TestSpec`.
pub open spec fn test_escapable(x: u32) -> bool {
    is_vchar(x) || is_wsp(x) || x == 0
}

/// How `TestSpec` quotes a code point with byte `b`.
pub open spec fn test_quoting_class(b: u8) -> QuotingClass {
    if b == 0x22 || b == 0x5C || b == 0 {
        QuotingClass::NeedsQuoting
    } else if is_vchar(b as u32) || is_wsp(b as u32) {
        QuotingClass::QText
    } else {
        QuotingClass::Invalid
    }
}

proof fn lemma_pcp_of_value(c: char)
    ensures
        (c as u32) <= 0x7F ==> pcp_of(c).value() == c as u32,
        (c as u32) > 0x7F ==> pcp_of(c).value() == NON_ASCII,
{
    PartialCodePoint::lemma_from_byte(NON_ASCII);
    PartialCodePoint::lemma_from_byte(c as u32 as u8);
}

impl QuotedValidator for TestQuotedValidator {
    open spec fn outcome(&self, ch: char) -> ValidationResult {
        test_outcome(ch as u32)
    }

    open spec fn after(&self, ch: char) -> Self {
        *self
    }

    open spec fn accepts_escaped(&self, ch: char) -> bool {
        test_escapable(ch as u32)
    }

    open spec fn after_escaped(&self, ch: char) -> Self {
        *self
    }

    fn validate_next_char(&mut self, ch: char) -> (r: ValidationResult) {
        let x = ch as u32;
        if x == 0x5C {
            ValidationResult::Escape
        } else if x == 0x22 || x == 0 {
            ValidationResult::Quotable
        } else if 0x21 <= x && x <= 0x7E {
            ValidationResult::QText
        } else if x == 0x20 || x == 0x09 {
            ValidationResult::SemanticWs
        } else if x == 0x0A {
            ValidationResult::NotSemanticWs
        } else {
            ValidationResult::Invalid
        }
    }

    fn validate_is_quotable(&mut self, ch: char) -> (r: bool) {
        let x = ch as u32;
        (0x21 <= x && x <= 0x7E) || x == 0x20 || x == 0x09 || x == 0
    }
}

impl TestUnquotedValidator {
    /// a validator for a fresh string: nothing seen, and no leading dot allowed
    pub fn new() -> (r: Self)
        ensures
            r.count == 0,
            r.last_was_dot,
    {
        TestUnquotedValidator { count: 0, last_was_dot: true }
    }
}

/// an ASCII letter
pub open spec fn is_alpha(b: u8) -> bool {
    (0x41 <= b <= 0x5A) || (0x61 <= b <= 0x7A)
}

/// the byte of `.`
pub const DOT: u8 = 0x2E;

impl WithoutQuotingValidator for TestUnquotedValidator {
    open spec fn accepts(&self, pcp: PartialCodePoint) -> bool {
        if self.last_was_dot && pcp.value() == DOT {
            false
        } else {
            pcp.value() == DOT || is_alpha(pcp.value())
        }
    }

    open spec fn after(&self, pcp: PartialCodePoint) -> Self {
        TestUnquotedValidator {
            count: if self.count < usize::MAX {
                (self.count + 1) as usize
            } else {
                self.count
            },
            last_was_dot: pcp.value() == DOT,
        }
    }

    open spec fn accepts_end(&self) -> bool {
        self.count == 6
    }

    fn next(&mut self, pcp: PartialCodePoint) -> (r: bool) {
        if self.count < usize::MAX {
            self.count = self.count + 1;
        }
        let b = pcp.as_u8();
        if self.last_was_dot {
            if b == DOT {
                return false;
            }
            self.last_was_dot = false;
        }
        if b == DOT {
            self.last_was_dot = true;
            true
        } else {
            (0x41 <= b && b <= 0x5A) || (0x61 <= b && b <= 0x7A)
        }
    }

    fn end(&self) -> (r: bool) {
        self.count == 6
    }
}

/// What `TestUnquotedValidator` accepts, `TestSpec` quotes as plain text.
pub proof fn lemma_unquoted_is_qtext(w: TestUnquotedValidator, p: PartialCodePoint)
    requires
        w.accepts(p),
    ensures
        TestSpec::quoting_class(p) == QuotingClass::QText,
{
}

impl QuotingClassifier for TestSpec {
    open spec fn quoting_class(pcp: PartialCodePoint) -> QuotingClass {
        test_quoting_class(pcp.value())
    }

    fn classify_for_quoting(pcp: PartialCodePoint) -> (r: QuotingClass) {
        let b = pcp.as_u8();
        if b == 0x22 || b == 0x5C || b == 0 {
            QuotingClass::NeedsQuoting
        } else if (0x21 <= b && b <= 0x7E) || b == 0x20 || b == 0x09 {
            QuotingClass::QText
        } else {
            QuotingClass::Invalid
        }
    }
}

impl ParsingImpl for TestSpec {
    open spec fn spec_can_be_quoted(pcp: PartialCodePoint) -> bool {
        test_escapable(pcp.value() as u32)
    }

    open spec fn spec_handle_normal_state(pcp: PartialCodePoint) -> Result<
        (State<Self>, bool),
        CoreError,
    > {
        let x = pcp.value() as u32;
        if x != 0x22 && x != 0x5C && (is_vchar(x) || is_wsp(x)) {
            Ok((State::Normal, true))
        } else if x == 0x0A {
            Ok((State::Normal, false))
        } else {
            Err(CoreError::InvalidChar)
        }
    }

    /// This grammar never enters a substate of its own.
    open spec fn spec_advance(&self, pcp: PartialCodePoint) -> Result<(State<Self>, bool), CoreError> {
        Err(CoreError::InvalidChar)
    }

    fn can_be_quoted(pcp: PartialCodePoint) -> (r: bool) {
        let b = pcp.as_u8();
        (0x21 <= b && b <= 0x7E) || b == 0x20 || b == 0x09 || b == 0
    }

    fn handle_normal_state(pcp: PartialCodePoint) -> (r: Result<(State<Self>, bool), CoreError>) {
        let b = pcp.as_u8();
        if b != 0x22 && b != 0x5C && ((0x21 <= b && b <= 0x7E) || b == 0x20 || b == 0x09) {
            Ok((State::Normal, true))
        } else if b == 0x0A {
            Ok((State::Normal, false))
        } else {
            Err(CoreError::InvalidChar)
        }
    }

    fn advance(&self, pcp: PartialCodePoint) -> (r: Result<(State<Self>, bool), CoreError>) {
        Err(CoreError::InvalidChar)
    }
}

impl GeneralQSSpec for TestSpec {
    type Err = TestError;

    type Quoting = TestSpec;

    type Parsing = TestSpec;

    type QuotedValidator = TestQuotedValidator;

    open spec fn initial_quoted_validator() -> TestQuotedValidator {
        TestQuotedValidator
    }

    open spec fn spec_unquoteable_char(ch: char) -> TestError {
        TestError::Unquoteable
    }

    open spec fn spec_unquoted_quotable_char(ch: char) -> TestError {
        TestError::EscapeMissing
    }

    open spec fn spec_missing_quotes() -> TestError {
        TestError::QuotesMissing
    }

    open spec fn spec_tailing_escape() -> Result<(), TestError> {
        Err(TestError::TailingEscape)
    }

    fn new_quoted_validator() -> (r: TestQuotedValidator) {
        TestQuotedValidator
    }

    fn unquoteable_char(ch: char) -> (r: TestError) {
        TestError::Unquoteable
    }

    fn unquoted_quotable_char(ch: char) -> (r: TestError) {
        TestError::EscapeMissing
    }

    fn quoted_string_missing_quotes() -> (r: TestError) {
        TestError::QuotesMissing
    }

    fn error_for_tailing_escape() -> (r: Result<(), TestError>) {
        Err(TestError::TailingEscape)
    }

    proof fn lemma_qtext_is_kept(v: TestQuotedValidator, c: char) {
        lemma_pcp_of_value(c);
        assert(is_kept(v.outcome(c)));
    }

    proof fn lemma_needs_quoting_is_escapable(v: TestQuotedValidator, c: char) {
        lemma_pcp_of_value(c);
    }

    proof fn lemma_backslash_escapes(v: TestQuotedValidator) {
    }

    proof fn lemma_escape_is_backslash(v: TestQuotedValidator, c: char) {
        vstd::utf8::char_u32_cast(c, c as u32);
    }
}

impl GeneralQSSpec for LenientTestSpec {
    type Err = TestError;

    type Quoting = TestSpec;

    type Parsing = TestSpec;

    type QuotedValidator = TestQuotedValidator;

    open spec fn initial_quoted_validator() -> TestQuotedValidator {
        TestQuotedValidator
    }

    open spec fn spec_unquoteable_char(ch: char) -> TestError {
        TestError::Unquoteable
    }

    open spec fn spec_unquoted_quotable_char(ch: char) -> TestError {
        TestError::EscapeMissing
    }

    open spec fn spec_missing_quotes() -> TestError {
        TestError::QuotesMissing
    }

    open spec fn spec_tailing_escape() -> Result<(), TestError> {
        Ok(())
    }

    fn new_quoted_validator() -> (r: TestQuotedValidator) {
        TestQuotedValidator
    }

    fn unquoteable_char(ch: char) -> (r: TestError) {
        TestError::Unquoteable
    }

    fn unquoted_quotable_char(ch: char) -> (r: TestError) {
        TestError::EscapeMissing
    }

    fn quoted_string_missing_quotes() -> (r: TestError) {
        TestError::QuotesMissing
    }

    fn error_for_tailing_escape() -> (r: Result<(), TestError>) {
        Ok(())
    }

    proof fn lemma_qtext_is_kept(v: TestQuotedValidator, c: char) {
        lemma_pcp_of_value(c);
        assert(is_kept(v.outcome(c)));
    }

    proof fn lemma_needs_quoting_is_escapable(v: TestQuotedValidator, c: char) {
        lemma_pcp_of_value(c);
    }

    proof fn lemma_backslash_escapes(v: TestQuotedValidator) {
    }

    proof fn lemma_escape_is_backslash(v: TestQuotedValidator, c: char) {
        vstd::utf8::char_u32_cast(c, c as u32);
    }
}

} // verus!
