//! The pluggable grammar of a quoted-string dialect: how single characters are
//! classified when quoting, and the stateful validators used when scanning
//! text that is already quoted (or that might stay unquoted).
use vstd::prelude::*;

use crate::automaton::ParsingImpl;

verus! {

/// A character reduced to the ASCII range, or to the sentinel `0xFF` for every
/// character outside of it.
#[derive(Copy, Clone, Ord, PartialOrd, Eq, PartialEq, Structural, Hash, Debug)]
pub struct PartialCodePoint(u8);

/// The sentinel byte that stands for any character above `0x7F`.
pub const NON_ASCII: u8 = 0xFF;

/// The byte of `"`.
pub const DQUOTE: u8 = 0x22;

/// The byte of `\`.
pub const BACKSLASH: u8 = 0x5C;

impl PartialCodePoint {
    /// The byte this code point carries.
    pub closed spec fn value(self) -> u8 {
        self.0
    }

    /// A value is either ASCII or the non-ASCII sentinel.
    pub closed spec fn wf(self) -> bool {
        self.0 <= 0x7F || self.0 == NON_ASCII
    }

    pub open spec fn spec_from_code_point(code_point: u32) -> PartialCodePoint {
        if code_point > 0x7F {
            Self::spec_from_byte(NON_ASCII)
        } else {
            Self::spec_from_byte(code_point as u8)
        }
    }

    pub closed spec fn spec_from_byte(b: u8) -> PartialCodePoint {
        PartialCodePoint(b)
    }

    pub proof fn lemma_from_byte(b: u8)
        ensures
            Self::spec_from_byte(b).value() == b,
            (b <= 0x7F || b == NON_ASCII) ==> Self::spec_from_byte(b).wf(),
    {
    }

    pub fn as_u8(self) -> (r: u8)
        ensures
            r == self.value(),
    {
        self.0
    }

    /// Wraps one byte of UTF-8 text; `0xFF` never occurs in UTF-8.
    pub fn from_utf8_byte(u8b: u8) -> (r: PartialCodePoint)
        requires
            u8b != NON_ASCII,
        ensures
            r.value() == u8b,
            r == Self::spec_from_byte(u8b),
    {
        PartialCodePoint(u8b)
    }

    pub fn from_code_point(code_point: u32) -> (r: PartialCodePoint)
        ensures
            r == Self::spec_from_code_point(code_point),
            r.wf(),
            code_point <= 0x7F ==> r.value() == code_point,
            code_point > 0x7F ==> r.value() == NON_ASCII,
    {
        if code_point > 0x7F {
            PartialCodePoint(NON_ASCII)
        } else {
            PartialCodePoint(code_point as u8)
        }
    }
}

/// The partial code point of a character.
pub open spec fn pcp_of(c: char) -> PartialCodePoint {
    PartialCodePoint::spec_from_code_point(c as u32)
}

/// How a character is written when quoting.
#[derive(Copy, Debug, Eq, PartialEq, Structural, Hash, Clone)]
pub enum QuotingClass {
    /// written as is
    QText,
    /// written as a quoted-pair, preceded by `\`
    NeedsQuoting,
    /// cannot be written in a quoted string at all
    Invalid,
}

/// What a quoted validator says of one character inside a quoted string.
#[derive(Copy, Debug, Eq, PartialEq, Structural, Hash, Clone)]
pub enum ValidationResult {
    /// plain text, kept
    QText,
    /// semantic whitespace, kept
    SemanticWs,
    /// whitespace of the wire form only, dropped from the content
    NotSemanticWs,
    /// the `\` that starts a quoted-pair
    Escape,
    /// a character that needs a preceding `\` but has none
    Quotable,
    /// a character that cannot appear in a quoted string
    Invalid,
}

/// Characters that stand for themselves in the content.
pub open spec fn is_kept(r: ValidationResult) -> bool {
    r == ValidationResult::QText || r == ValidationResult::SemanticWs
}

/// Classification of characters for quoting.
pub trait QuotingClassifier {
    spec fn quoting_class(pcp: PartialCodePoint) -> QuotingClass;

    fn classify_for_quoting(pcp: PartialCodePoint) -> (r: QuotingClass)
        ensures
            r == Self::quoting_class(pcp),
    ;
}

/// Decides whether a string can be written without any quoting at all.
///
/// A validator is fed the characters of a string one by one through `next`
/// and asked once, at the end, through `end`.
pub trait WithoutQuotingValidator: Sized {
    /// whether `next` accepts `pcp` in this state
    spec fn accepts(&self, pcp: PartialCodePoint) -> bool;

    /// the state after `next(pcp)`, whatever it returned
    spec fn after(&self, pcp: PartialCodePoint) -> Self;

    /// whether the input seen so far is complete as an unquoted string
    spec fn accepts_end(&self) -> bool;

    fn next(&mut self, pcp: PartialCodePoint) -> (r: bool)
        ensures
            r == old(self).accepts(pcp),
            *final(self) == old(self).after(pcp),
    ;

    fn end(&self) -> (r: bool)
        ensures
            r == self.accepts_end(),
    ;
}

/// Classifies the characters of an already quoted string, in order.
pub trait QuotedValidator: Sized + Copy {
    /// the outcome of `validate_next_char(ch)` in this state
    spec fn outcome(&self, ch: char) -> ValidationResult;

    /// the state after `validate_next_char(ch)`
    spec fn after(&self, ch: char) -> Self;

    /// whether `ch` may follow a `\` in this state
    spec fn accepts_escaped(&self, ch: char) -> bool;

    /// the state after `validate_is_quotable(ch)`
    spec fn after_escaped(&self, ch: char) -> Self;

    fn validate_next_char(&mut self, ch: char) -> (r: ValidationResult)
        ensures
            r == old(self).outcome(ch),
            *final(self) == old(self).after(ch),
    ;

    fn validate_is_quotable(&mut self, ch: char) -> (r: bool)
        ensures
            r == old(self).accepts_escaped(ch),
            *final(self) == old(self).after_escaped(ch),
    ;
}

/// A quoted-string dialect.
///
/// Besides its tables, a grammar proves that quoting and scanning agree: what
/// quoting writes as is, scanning keeps as is; what quoting escapes, scanning
/// accepts after a `\`; and `\`, and only `\`, starts a quoted-pair.
pub trait GeneralQSSpec: Sized {
    type Err;

    type Quoting: QuotingClassifier;

    type Parsing: ParsingImpl;

    type QuotedValidator: QuotedValidator;

    /// the state a fresh quoted validator starts in
    spec fn initial_quoted_validator() -> Self::QuotedValidator;

    spec fn spec_unquoteable_char(ch: char) -> Self::Err;

    spec fn spec_unquoted_quotable_char(ch: char) -> Self::Err;

    spec fn spec_missing_quotes() -> Self::Err;

    /// `Ok` where a trailing `\` is read as a literal `\`.
    spec fn spec_tailing_escape() -> Result<(), Self::Err>;

    fn new_quoted_validator() -> (r: Self::QuotedValidator)
        ensures
            r == Self::initial_quoted_validator(),
    ;

    /// the error for a character that cannot be represented, or not after `\`
    fn unquoteable_char(ch: char) -> (r: Self::Err)
        ensures
            r == Self::spec_unquoteable_char(ch),
    ;

    /// the error for a character that needed a `\` and had none
    fn unquoted_quotable_char(ch: char) -> (r: Self::Err)
        ensures
            r == Self::spec_unquoted_quotable_char(ch),
    ;

    /// the error for a quoted string that lacks its surrounding `"`
    fn quoted_string_missing_quotes() -> (r: Self::Err)
        ensures
            r == Self::spec_missing_quotes(),
    ;

    /// the policy on a `\` that is the last character of the content
    fn error_for_tailing_escape() -> (r: Result<(), Self::Err>)
        ensures
            r == Self::spec_tailing_escape(),
    ;

    /// What quoting writes as is, scanning keeps, and it is neither `"` nor `\`.
    proof fn lemma_qtext_is_kept(v: Self::QuotedValidator, c: char)
        requires
            Self::Quoting::quoting_class(pcp_of(c)) == QuotingClass::QText,
        ensures
            c != '"',
            c != '\\',
            is_kept(v.outcome(c)),
    ;

    /// What quoting escapes, scanning accepts after a `\`.
    proof fn lemma_needs_quoting_is_escapable(v: Self::QuotedValidator, c: char)
        requires
            Self::Quoting::quoting_class(pcp_of(c)) == QuotingClass::NeedsQuoting,
        ensures
            v.accepts_escaped(c),
    ;

    /// A `\` always starts a quoted-pair.
    proof fn lemma_backslash_escapes(v: Self::QuotedValidator)
        ensures
            v.outcome('\\') == ValidationResult::Escape,
    ;

    /// Only a `\` starts a quoted-pair.
    proof fn lemma_escape_is_backslash(v: Self::QuotedValidator, c: char)
        requires
            v.outcome(c) == ValidationResult::Escape,
        ensures
            c == '\\',
    ;
}

} // verus!
