//! Validating, parsing, quoting and unquoting of the quoted-string tokens of
//! mail and web header grammars (RFC 5322 and its relatives), for any grammar
//! that implements [`GeneralQSSpec`].
//!
//! ```no-rust
//! quoted-string   = DQUOTE *( *WSP qcontent) *WSP DQUOTE
//! qcontent        = qtext / quoted-pair
//! quoted-pair     = "\" (VCHAR / WSP)
//! ```
//!
//! Soft line breaks and the obsolete parts of the syntax are not supported.
pub mod automaton;
pub mod error;
pub mod grammar;
pub mod iter;
pub mod laws;
pub mod parse;
pub mod quote;
pub mod test_utils;
pub mod unquote;
pub mod utils;

pub use automaton::{ParsingImpl, ScanAutomaton, State};
pub use error::CoreError;
pub use grammar::{
    GeneralQSSpec, PartialCodePoint, QuotedValidator, QuotingClass, QuotingClassifier,
    ValidationResult, WithoutQuotingValidator,
};
pub use iter::{AsciiCaseInsensitiveEq, ContentChars};
pub use parse::{parse, validate, Parsed};
pub use quote::{quote, quote_if_needed};
pub use unquote::to_content;
pub use utils::strip_quotes;
