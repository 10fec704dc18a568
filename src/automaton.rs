//! An explicit finite automaton for the quoted-string grammar.
use vstd::prelude::*;

use crate::error::CoreError;
use crate::grammar::{PartialCodePoint, BACKSLASH, DQUOTE};

verus! {

/// The states of the scan automaton; `Custom` holds a substate of the grammar.
#[derive(Copy, Clone, Eq, PartialEq, Debug, Hash)]
pub enum State<T> {
    Start,
    Normal,
    Failed,
    QPStart,
    Custom(T),
    End,
}

/// The grammar-specific transitions of the scan automaton.
///
/// A transition yields the next state and whether the character it consumed
/// belongs to the content.
pub trait ParsingImpl: Sized + Copy {
    spec fn spec_can_be_quoted(pcp: PartialCodePoint) -> bool;

    spec fn spec_handle_normal_state(pcp: PartialCodePoint) -> Result<(State<Self>, bool), CoreError>;

    spec fn spec_advance(&self, pcp: PartialCodePoint) -> Result<(State<Self>, bool), CoreError>;

    /// whether `pcp` may follow a `\`
    fn can_be_quoted(pcp: PartialCodePoint) -> (r: bool)
        ensures
            r == Self::spec_can_be_quoted(pcp),
    ;

    /// the transition from `Normal` on anything but `"` and `\`
    fn handle_normal_state(pcp: PartialCodePoint) -> (r: Result<(State<Self>, bool), CoreError>)
        ensures
            r == Self::spec_handle_normal_state(pcp),
    ;

    /// the transition from the substate `self`
    fn advance(&self, pcp: PartialCodePoint) -> (r: Result<(State<Self>, bool), CoreError>)
        ensures
            r == self.spec_advance(pcp),
    ;
}

/// One transition of the automaton.
pub open spec fn transition<Impl: ParsingImpl>(state: State<Impl>, pcp: PartialCodePoint) -> Result<
    (State<Impl>, bool),
    CoreError,
> {
    match state {
        State::Start => if pcp.value() == DQUOTE {
            Ok((State::Normal, false))
        } else {
            Err(CoreError::DoesNotStartWithDQuotes)
        },
        State::Normal => if pcp.value() == DQUOTE {
            Ok((State::End, false))
        } else if pcp.value() == BACKSLASH {
            Ok((State::QPStart, false))
        } else {
            Impl::spec_handle_normal_state(pcp)
        },
        State::QPStart => if Impl::spec_can_be_quoted(pcp) {
            Ok((State::Normal, true))
        } else {
            Err(CoreError::UnquoteableCharQuoted)
        },
        State::Custom(inner) => inner.spec_advance(pcp),
        State::End => Err(CoreError::QuotedStringAlreadyEnded),
        State::Failed => Err(CoreError::AdvancedFailedAutomaton),
    }
}

/// The automaton, with the state it is in and whether its last transition
/// emitted a character.
#[derive(Debug, Eq, PartialEq, Hash, Clone)]
pub struct ScanAutomaton<T: ParsingImpl> {
    state: State<T>,
    last_was_emit: bool,
}

impl<Impl> ScanAutomaton<Impl> where Impl: ParsingImpl {
    pub closed spec fn state(&self) -> State<Impl> {
        self.state
    }

    pub closed spec fn last_was_emit(&self) -> bool {
        self.last_was_emit
    }

    pub fn new() -> (r: Self)
        ensures
            r.state() == State::<Impl>::Start,
            !r.last_was_emit(),
    {
        ScanAutomaton { state: State::Start, last_was_emit: false }
    }

    pub fn did_end(&self) -> (r: bool)
        ensures
            r == (self.state() == State::<Impl>::End),
    {
        matches!(self.state, State::End)
    }

    /// `Ok` exactly when the closing `"` has been consumed.
    pub fn end(&mut self) -> (r: Result<(), CoreError>)
        ensures
            *final(self) == *old(self),
            old(self).state() == State::<Impl>::End ==> r == Ok::<(), CoreError>(()),
            old(self).state() != State::<Impl>::End ==> r == Err::<(), CoreError>(
                CoreError::DoesNotEndWithDQuotes,
            ),
    {
        if self.did_end() {
            Ok(())
        } else {
            Err(CoreError::DoesNotEndWithDQuotes)
        }
    }

    /// Consumes one character; a refused character leaves the automaton
    /// `Failed`, from which every later call fails again.
    pub fn advance(&mut self, pcp: PartialCodePoint) -> (r: Result<bool, CoreError>)
        ensures
            match transition(old(self).state(), pcp) {
                Ok((state, emit)) => {
                    &&& r == Ok::<bool, CoreError>(emit)
                    &&& final(self).state() == state
                    &&& final(self).last_was_emit() == emit
                },
                Err(err) => {
                    &&& r == Err::<bool, CoreError>(err)
                    &&& final(self).state() == State::<Impl>::Failed
                    &&& final(self).last_was_emit() == old(self).last_was_emit()
                },
            },
    {
        match _advance_scan_automaton(self.state, pcp) {
            Ok((state, emit)) => {
                self.state = state;
                self.last_was_emit = emit;
                Ok(emit)
            },
            Err(err) => {
                self.state = State::Failed;
                Err(err)
            },
        }
    }
}

fn _advance_scan_automaton<Impl: ParsingImpl>(state: State<Impl>, pcp: PartialCodePoint) -> (r:
    Result<(State<Impl>, bool), CoreError>)
    ensures
        r == transition(state, pcp),
{
    let pcp_val = pcp.as_u8();
    match state {
        State::Start => {
            if pcp_val == DQUOTE {
                Ok((State::Normal, false))
            } else {
                Err(CoreError::DoesNotStartWithDQuotes)
            }
        },
        State::Normal => {
            if pcp_val == DQUOTE {
                Ok((State::End, false))
            } else if pcp_val == BACKSLASH {
                Ok((State::QPStart, false))
            } else {
                Impl::handle_normal_state(pcp)
            }
        },
        State::QPStart => {
            if Impl::can_be_quoted(pcp) {
                Ok((State::Normal, true))
            } else {
                Err(CoreError::UnquoteableCharQuoted)
            }
        },
        State::Custom(inner) => inner.advance(pcp),
        State::End => Err(CoreError::QuotedStringAlreadyEnded),
        State::Failed => Err(CoreError::AdvancedFailedAutomaton),
    }
}

} // verus!
