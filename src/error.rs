//! Errors of the scan automaton.
use vstd::prelude::*;

verus! {

/// Why the scan automaton refused a character.
#[derive(Copy, Clone, Eq, PartialEq, Structural, Hash, Debug)]
pub enum CoreError {
    AdvancedFailedAutomaton,
    QuotedStringAlreadyEnded,
    UnquoteableCharQuoted,
    DoesNotStartWithDQuotes,
    DoesNotEndWithDQuotes,
    InvalidChar,
}

impl CoreError {
    /// A sentence that describes the error.
    pub fn description(&self) -> (r: &'static str)
        ensures
            *self == CoreError::AdvancedFailedAutomaton ==> r@
                == "advanced automaton after it entered the failed state"@,
            *self == CoreError::QuotedStringAlreadyEnded ==> r@
                == "continued to use the automaton after the end of the quoted string was found"@,
            *self == CoreError::UnquoteableCharQuoted ==> r@
                == "a char was escaped with a quoted-pair which can not be represented with a quoted-pair"@,
            *self == CoreError::DoesNotStartWithDQuotes ==> r@
                == "quoted string did not start with \""@,
            *self == CoreError::DoesNotEndWithDQuotes ==> r@ == "quoted string did not end with \""@,
            *self == CoreError::InvalidChar ==> r@
                == "char can not be represented in a quoted string (without encoding)"@,
    {
        match *self {
            CoreError::AdvancedFailedAutomaton => "advanced automaton after it entered the failed state",
            CoreError::QuotedStringAlreadyEnded =>
                "continued to use the automaton after the end of the quoted string was found",
            CoreError::UnquoteableCharQuoted =>
                "a char was escaped with a quoted-pair which can not be represented with a quoted-pair",
            CoreError::DoesNotStartWithDQuotes => "quoted string did not start with \"",
            CoreError::DoesNotEndWithDQuotes => "quoted string did not end with \"",
            CoreError::InvalidChar => "char can not be represented in a quoted string (without encoding)",
        }
    }
}

} // verus!
