//! Parsing: finding a quoted string at the start of a larger input.
use vstd::prelude::*;

use vstd::string::*;

use crate::grammar::{GeneralQSSpec, QuotedValidator, ValidationResult};
use crate::utils::{lemma_utf8_len_concat, lemma_utf8_len_is_encoded_len, utf8_len, utf8_width};

verus! {

/// Scans the characters of `s` from index `i` on, inside a quoted string,
/// with the validator in state `v`; `escaped` when `s[i - 1]` was a `\` that
/// starts a quoted-pair.
///
/// The result is the number of characters up to and including the closing
/// `"`, or the character index and the error where scanning failed.
pub open spec fn scan_quoted<Spec: GeneralQSSpec>(
    v: Spec::QuotedValidator,
    s: Seq<char>,
    i: int,
    escaped: bool,
) -> Result<nat, (nat, Spec::Err)>
    decreases s.len() - i,
{
    if i < 0 || i >= s.len() {
        Err((s.len(), Spec::spec_missing_quotes()))
    } else {
        let c = s[i];
        if escaped {
            if v.accepts_escaped(c) {
                scan_quoted::<Spec>(v.after_escaped(c), s, i + 1, false)
            } else {
                Err((i as nat, Spec::spec_unquoteable_char(c)))
            }
        } else if c == '"' {
            Ok((i + 1) as nat)
        } else {
            match v.outcome(c) {
                ValidationResult::QText
                | ValidationResult::SemanticWs
                | ValidationResult::NotSemanticWs => scan_quoted::<Spec>(v.after(c), s, i + 1, false),
                ValidationResult::Escape => scan_quoted::<Spec>(v.after(c), s, i + 1, true),
                ValidationResult::Quotable => Err((i as nat, Spec::spec_unquoted_quotable_char(c))),
                ValidationResult::Invalid => Err((i as nat, Spec::spec_unquoteable_char(c))),
            }
        }
    }
}

/// The number of characters of the quoted string at the start of `s`, or the
/// character index and the error where `s` stops being one.
pub open spec fn parse_spec<Spec: GeneralQSSpec>(s: Seq<char>) -> Result<nat, (nat, Spec::Err)> {
    if s.len() == 0 || s[0] != '"' {
        Err((0, Spec::spec_missing_quotes()))
    } else {
        scan_quoted::<Spec>(Spec::initial_quoted_validator(), s, 1, false)
    }
}

proof fn lemma_scan_quoted_bound<Spec: GeneralQSSpec>(
    v: Spec::QuotedValidator,
    s: Seq<char>,
    i: int,
    escaped: bool,
)
    ensures
        scan_quoted::<Spec>(v, s, i, escaped) is Ok ==> scan_quoted::<Spec>(v, s, i, escaped)->Ok_0
            <= s.len(),
    decreases s.len() - i,
{
    if 0 <= i < s.len() {
        let c = s[i];
        lemma_scan_quoted_bound::<Spec>(v.after_escaped(c), s, i + 1, false);
        lemma_scan_quoted_bound::<Spec>(v.after(c), s, i + 1, false);
        lemma_scan_quoted_bound::<Spec>(v.after(c), s, i + 1, true);
    }
}

/// A match never reaches past the end of the input.
pub proof fn lemma_parse_spec_bound<Spec: GeneralQSSpec>(s: Seq<char>)
    ensures
        parse_spec::<Spec>(s) is Ok ==> parse_spec::<Spec>(s)->Ok_0 <= s.len(),
{
    lemma_scan_quoted_bound::<Spec>(Spec::initial_quoted_validator(), s, 1, false);
}

/// Whether all of `s` is one quoted string.
pub open spec fn is_quoted_string<Spec: GeneralQSSpec>(s: Seq<char>) -> bool {
    match parse_spec::<Spec>(s) {
        Ok(n) => n == s.len(),
        Err(_) => false,
    }
}

/// the result of successfully parsing a quoted string
#[derive(Debug, Clone, Eq, PartialEq, Hash)]
pub struct Parsed<'a> {
    /// the parsed quoted string
    pub quoted_string: &'a str,
    /// the rest of the input string, not parsed
    pub tail: &'a str,
}

/// validates if input is a valid quoted-string
///
/// in difference to parse it requires the whole input to be one quoted-string
pub fn validate<Spec: GeneralQSSpec>(input: &str) -> (r: bool)
    ensures
        r == is_quoted_string::<Spec>(input@),
{
    proof {
        lemma_parse_spec_bound::<Spec>(input@);
    }
    match parse::<Spec>(input) {
        Ok(res) => res.tail.is_empty(),
        Err(_) => false,
    }
}

/// parse a quoted string starting at the begin of `input` but possible ending earlier
///
/// To check if the whole string is a quoted-string (an nothing more) you have to
/// additional check if `parsed.tail` is empty.
///
/// # Error
///
/// the error and the byte offset where it was found are returned if the input
/// does not start with a valid quoted-string.
#[verifier::loop_isolation(false)]
pub fn parse<Spec: GeneralQSSpec>(input: &str) -> (r: Result<Parsed, (usize, Spec::Err)>)
    ensures
        match parse_spec::<Spec>(input@) {
            Ok(n) => r is Ok && r->Ok_0.quoted_string@ == input@.take(n as int)
                && r->Ok_0.tail@ == input@.skip(n as int),
            Err((k, e)) => r is Err && r->Err_0.0 == utf8_len(input@.take(k as int))
                && r->Err_0.1 == e,
        },
{
    let ghost s = input@;
    let mut q_validator = Spec::new_quoted_validator();
    let ghost v0 = q_validator;
    let total = input.as_bytes().len();
    let n = input.unicode_len();
    proof {
        lemma_utf8_len_is_encoded_len(s);
        assert(s.take(0) =~= Seq::<char>::empty());
        assert(utf8_len(s.take(0)) == 0);
    }
    if n == 0 || input.get_char(0) != '"' {
        return Err((0, Spec::quoted_string_missing_quotes()));
    }
    let mut last_was_escape = false;
    let mut k: usize = 0;
    let mut idx: usize = 0;
    for ch in it: input.chars()
        invariant
            it.seq() == s,
            k == it.index(),
            total == utf8_len(s),
            idx == utf8_len(s.take(k as int)),
            k == 0 ==> !last_was_escape && q_validator == v0,
            k > 0 ==> scan_quoted::<Spec>(v0, s, 1, false) == scan_quoted::<Spec>(
                q_validator,
                s,
                k as int,
                last_was_escape,
            ),
    {
        proof {
            assert(ch == s[k as int]);
            assert(s.take(k + 1) =~= s.take(k as int) + seq![ch]);
            lemma_utf8_len_concat(s.take(k as int), seq![ch]);
            assert(seq![ch].drop_first() =~= Seq::<char>::empty());
            assert(s =~= s.take(k + 1) + s.skip(k + 1));
            lemma_utf8_len_concat(s.take(k + 1), s.skip(k + 1));
        }
        let width = utf8_width(ch);
        if k > 0 {
            if last_was_escape {
                last_was_escape = false;
                if !q_validator.validate_is_quotable(ch) {
                    return Err((idx, Spec::unquoteable_char(ch)));
                }
            } else if ch == '"' {
                let next_char_idx = k + 1;
                return Ok(
                    Parsed {
                        quoted_string: input.substring_char(0, next_char_idx),
                        tail: input.substring_char(next_char_idx, n),
                    },
                );
            } else {
                match q_validator.validate_next_char(ch) {
                    ValidationResult::QText
                    | ValidationResult::SemanticWs
                    | ValidationResult::NotSemanticWs => {},
                    ValidationResult::Escape => {
                        last_was_escape = true;
                    },
                    ValidationResult::Quotable => {
                        return Err((idx, Spec::unquoted_quotable_char(ch)));
                    },
                    ValidationResult::Invalid => {
                        return Err((idx, Spec::unquoteable_char(ch)));
                    },
                }
            }
        }
        k = k + 1;
        idx = idx + width;
    }
    proof {
        assert(s.take(k as int) =~= s);
    }
    Err((total, Spec::quoted_string_missing_quotes()))
}

} // verus!
