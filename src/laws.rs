//! Properties that hold across the functions of the library, for every grammar.
use vstd::prelude::*;

use crate::automaton::{transition, ParsingImpl, State};
use crate::error::CoreError;
use crate::grammar::{
    pcp_of, GeneralQSSpec, PartialCodePoint, QuotedValidator, QuotingClass, QuotingClassifier,
    ValidationResult, WithoutQuotingValidator,
};
use crate::iter::{content_matches, decode, seq_matches};
use crate::parse::{is_quoted_string, lemma_parse_spec_bound, parse_spec, scan_quoted};
use crate::quote::{
    escape_char, first_rejected, lemma_quoted_body_concat, quote_if_needed_spec, quote_spec,
    quoted_body, unquoted_ok,
};
use crate::unquote::content_spec;
use crate::utils::spec_strip_quotes;

verus! {

/// Decoding the quoted form of `s`, from any validator state, gives `s` back.
proof fn lemma_decode_quoted_body<Spec: GeneralQSSpec>(v: Spec::QuotedValidator, s: Seq<char>)
    requires
        quoted_body::<Spec>(s) is Ok,
    ensures
        decode::<Spec>(v, quoted_body::<Spec>(s)->Ok_0) == Ok::<Seq<char>, Spec::Err>(s),
    decreases s.len(),
{
    if s.len() == 0 {
        assert(quoted_body::<Spec>(s)->Ok_0 =~= Seq::<char>::empty());
        assert(s =~= Seq::<char>::empty());
    } else {
        let c = s[0];
        let rest = s.drop_first();
        let b = quoted_body::<Spec>(rest)->Ok_0;
        let body = quoted_body::<Spec>(s)->Ok_0;
        assert(body == escape_char::<Spec>(c) + b);
        assert(s =~= seq![c] + rest);
        if Spec::Quoting::quoting_class(pcp_of(c)) == QuotingClass::NeedsQuoting {
            Spec::lemma_backslash_escapes(v);
            assert(body[0] == '\\');
            assert(body.drop_first()[0] == c);
            assert(body.drop_first().drop_first() =~= b);
            lemma_decode_quoted_body::<Spec>(v.after('\\'), rest);
        } else {
            Spec::lemma_qtext_is_kept(v, c);
            assert(body[0] == c);
            assert(body.drop_first() =~= b);
            lemma_decode_quoted_body::<Spec>(v.after(c), rest);
        }
    }
}

/// Round trip: the content of the quoted form of `s` is `s`, for every `s`
/// that the grammar can quote.
pub proof fn lemma_round_trip<Spec: GeneralQSSpec>(s: Seq<char>)
    requires
        quote_spec::<Spec>(s) is Ok,
    ensures
        content_spec::<Spec>(quote_spec::<Spec>(s)->Ok_0) == Ok::<Seq<char>, Spec::Err>(s),
{
    let b = quoted_body::<Spec>(s)->Ok_0;
    let q = quote_spec::<Spec>(s)->Ok_0;
    assert(q.subrange(1, q.len() - 1) =~= b);
    assert(spec_strip_quotes(q) == Some(b));
    lemma_decode_quoted_body::<Spec>(Spec::initial_quoted_validator(), s);
}

/// Shape: a quoted string that `quote` produces starts and ends with `"`.
pub proof fn lemma_quote_shape<Spec: GeneralQSSpec>(s: Seq<char>)
    requires
        quote_spec::<Spec>(s) is Ok,
    ensures
        quote_spec::<Spec>(s)->Ok_0.len() >= 2,
        quote_spec::<Spec>(s)->Ok_0[0] == '"',
        quote_spec::<Spec>(s)->Ok_0.last() == '"',
{
}

/// Scanning `pre + body + "` from the end of `pre` reaches the closing `"`.
proof fn lemma_scan_quoted_body<Spec: GeneralQSSpec>(
    v: Spec::QuotedValidator,
    pre: Seq<char>,
    s: Seq<char>,
)
    requires
        quoted_body::<Spec>(s) is Ok,
    ensures
        ({
            let q = pre + quoted_body::<Spec>(s)->Ok_0 + seq!['"'];
            scan_quoted::<Spec>(v, q, pre.len() as int, false) == Ok::<nat, (nat, Spec::Err)>(
                q.len(),
            )
        }),
    decreases s.len(),
{
    let body = quoted_body::<Spec>(s)->Ok_0;
    let q = pre + body + seq!['"'];
    let i = pre.len() as int;
    if s.len() == 0 {
        assert(body =~= Seq::<char>::empty());
        assert(q[i] == '"');
    } else {
        let c = s[0];
        let rest = s.drop_first();
        let b = quoted_body::<Spec>(rest)->Ok_0;
        assert(body == escape_char::<Spec>(c) + b);
        if Spec::Quoting::quoting_class(pcp_of(c)) == QuotingClass::NeedsQuoting {
            let pre2 = pre + seq!['\\', c];
            assert(q =~= pre2 + b + seq!['"']);
            assert(q[i] == '\\');
            assert(q[i + 1] == c);
            Spec::lemma_backslash_escapes(v);
            Spec::lemma_needs_quoting_is_escapable(v.after('\\'), c);
            lemma_scan_quoted_body::<Spec>(v.after('\\').after_escaped(c), pre2, rest);
            assert(scan_quoted::<Spec>(v.after('\\'), q, i + 1, true) == scan_quoted::<Spec>(
                v.after('\\').after_escaped(c),
                q,
                i + 2,
                false,
            ));
            assert(scan_quoted::<Spec>(v, q, i, false) == scan_quoted::<Spec>(
                v.after('\\'),
                q,
                i + 1,
                true,
            ));
        } else {
            let pre2 = pre + seq![c];
            assert(q =~= pre2 + b + seq!['"']);
            assert(q[i] == c);
            Spec::lemma_qtext_is_kept(v, c);
            lemma_scan_quoted_body::<Spec>(v.after(c), pre2, rest);
            assert(scan_quoted::<Spec>(v, q, i, false) == scan_quoted::<Spec>(
                v.after(c),
                q,
                i + 1,
                false,
            ));
        }
    }
}

/// Parser consistency: parsing the quoted form of `s` matches all of it and
/// leaves no tail.
pub proof fn lemma_parse_quote<Spec: GeneralQSSpec>(s: Seq<char>)
    requires
        quote_spec::<Spec>(s) is Ok,
    ensures
        parse_spec::<Spec>(quote_spec::<Spec>(s)->Ok_0) == Ok::<nat, (nat, Spec::Err)>(
            quote_spec::<Spec>(s)->Ok_0.len(),
        ),
        is_quoted_string::<Spec>(quote_spec::<Spec>(s)->Ok_0),
{
    let q = quote_spec::<Spec>(s)->Ok_0;
    assert(q[0] == '"');
    lemma_scan_quoted_body::<Spec>(Spec::initial_quoted_validator(), seq!['"'], s);
}

proof fn lemma_scan_quoted_ends_at_quote<Spec: GeneralQSSpec>(
    v: Spec::QuotedValidator,
    s: Seq<char>,
    i: int,
    escaped: bool,
)
    requires
        1 <= i,
        escaped ==> i <= s.len() && s[i - 1] == '\\',
    ensures
        scan_quoted::<Spec>(v, s, i, escaped) is Ok ==> {
            let n = scan_quoted::<Spec>(v, s, i, escaped)->Ok_0 as int;
            &&& i < n <= s.len()
            &&& s[n - 1] == '"'
            &&& forall|j: int| i <= j < n - 1 && #[trigger] s[j] == '"' ==> s[j - 1] == '\\'
        },
    decreases s.len() - i,
{
    if i < s.len() {
        let c = s[i];
        if escaped {
            lemma_scan_quoted_ends_at_quote::<Spec>(v.after_escaped(c), s, i + 1, false);
        } else if c != '"' {
            match v.outcome(c) {
                ValidationResult::Escape => {
                    Spec::lemma_escape_is_backslash(v, c);
                    lemma_scan_quoted_ends_at_quote::<Spec>(v.after(c), s, i + 1, true);
                },
                _ => {
                    lemma_scan_quoted_ends_at_quote::<Spec>(v.after(c), s, i + 1, false);
                },
            }
        }
    }
}

/// Where a parse ends: a match is at least `""`, ends with `"`, and every `"`
/// inside it directly follows the `\` of a quoted-pair.
pub proof fn lemma_parse_ends_at_closing_quote<Spec: GeneralQSSpec>(s: Seq<char>)
    ensures
        parse_spec::<Spec>(s) is Ok ==> {
            let n = parse_spec::<Spec>(s)->Ok_0 as int;
            &&& 2 <= n <= s.len()
            &&& s[0] == '"'
            &&& s[n - 1] == '"'
            &&& forall|j: int| 1 <= j < n - 1 && #[trigger] s[j] == '"' ==> s[j - 1] == '\\'
        },
{
    if s.len() > 0 && s[0] == '"' {
        lemma_scan_quoted_ends_at_quote::<Spec>(Spec::initial_quoted_validator(), s, 1, false);
    }
}

/// Validate equivalence: `validate` accepts exactly the inputs that `parse`
/// matches with an empty tail.
pub proof fn lemma_validate_equivalence<Spec: GeneralQSSpec>(x: Seq<char>)
    ensures
        is_quoted_string::<Spec>(x) <==> (parse_spec::<Spec>(x) is Ok && x.skip(
            parse_spec::<Spec>(x)->Ok_0 as int,
        ).len() == 0),
{
    lemma_parse_spec_bound::<Spec>(x);
}

/// Absorbing states: once the automaton has ended or failed, every further
/// character is an error, and the automaton is left failed.
pub proof fn lemma_absorbing<Impl: ParsingImpl>(state: State<Impl>, pcp: PartialCodePoint)
    requires
        state == State::<Impl>::End || state == State::<Impl>::Failed,
    ensures
        transition(state, pcp) is Err,
        state == State::<Impl>::End ==> transition(state, pcp) == Err::<(State<Impl>, bool), CoreError>(
            CoreError::QuotedStringAlreadyEnded,
        ),
        transition(State::<Impl>::Failed, pcp) == Err::<(State<Impl>, bool), CoreError>(
            CoreError::AdvancedFailedAutomaton,
        ),
{
}

/// The state of the automaton after `advance` was called with each of `pcps`
/// in turn, starting in `state`.
pub open spec fn run<Impl: ParsingImpl>(state: State<Impl>, pcps: Seq<PartialCodePoint>) -> State<
    Impl,
>
    decreases pcps.len(),
{
    if pcps.len() == 0 {
        state
    } else {
        let next = match transition(state, pcps[0]) {
            Ok((s, _)) => s,
            Err(_) => State::Failed,
        };
        run(next, pcps.drop_first())
    }
}

/// Absorbing states, over any run: from `End` or `Failed`, every call of
/// `advance` fails, and the automaton ends up failed.
pub proof fn lemma_absorbing_run<Impl: ParsingImpl>(
    state: State<Impl>,
    pcps: Seq<PartialCodePoint>,
)
    requires
        state == State::<Impl>::End || state == State::<Impl>::Failed,
    ensures
        pcps.len() > 0 ==> run(state, pcps) == State::<Impl>::Failed,
        forall|i: int| 0 <= i < pcps.len() ==> #[trigger] transition(run(state, pcps.take(i)), pcps[i]) is Err,
    decreases pcps.len(),
{
    if pcps.len() > 0 {
        lemma_absorbing_run(State::<Impl>::Failed, pcps.drop_first());
        assert forall|i: int| 0 <= i < pcps.len() implies #[trigger] transition(
            run(state, pcps.take(i)),
            pcps[i],
        ) is Err by {
            if i == 0 {
                assert(run(state, pcps.take(0)) == state);
            } else {
                let rest = pcps.drop_first();
                assert(pcps.take(i).drop_first() =~= rest.take(i - 1));
                assert(pcps.take(i)[0] == pcps[0]);
                assert(rest[i - 1] == pcps[i]);
                assert(run(state, pcps.take(i)) == run(State::<Impl>::Failed, rest.take(i - 1)));
                assert(transition(run(State::<Impl>::Failed, rest.take(i - 1)), rest[i - 1]) is Err);
            }
        }
    }
}

/// Lazy equality: the content of the quoted form of `s` compares equal to
/// `s`, and equal to `t` up to ASCII case exactly when `s` and `t` are equal
/// up to ASCII case.
pub proof fn lemma_lazy_equality<Spec: GeneralQSSpec>(s: Seq<char>, t: Seq<char>)
    requires
        quote_spec::<Spec>(s) is Ok,
    ensures
        content_matches(content_spec::<Spec>(quote_spec::<Spec>(s)->Ok_0), Ok(s), false),
        content_matches(content_spec::<Spec>(quote_spec::<Spec>(s)->Ok_0), Ok(t), true)
            <==> seq_matches(s, t, true),
        content_matches(content_spec::<Spec>(quote_spec::<Spec>(s)->Ok_0), Ok(t), false)
            <==> s == t,
{
    lemma_round_trip::<Spec>(s);
    if seq_matches(s, t, false) {
        assert(s =~= t);
    }
}

/// Under the obligation that every character an unquoted validator accepts
/// is plain text for quoting, what the validator accepted quotes as itself.
proof fn lemma_accepted_is_plain<Spec: GeneralQSSpec, V: WithoutQuotingValidator>(
    v: V,
    s: Seq<char>,
)
    requires
        forall|w: V, p: PartialCodePoint| #[trigger] w.accepts(p)
            ==> Spec::Quoting::quoting_class(p) == QuotingClass::QText,
        first_rejected(v, s) is None,
    ensures
        quoted_body::<Spec>(s) == Ok::<Seq<char>, Spec::Err>(s),
    decreases s.len(),
{
    if s.len() > 0 {
        let c = s[0];
        assert(v.accepts(pcp_of(c)));
        lemma_accepted_is_plain::<Spec, V>(v.after(pcp_of(c)), s.drop_first());
        assert(escape_char::<Spec>(c) == seq![c]);
        assert(seq![c] + s.drop_first() =~= s);
    } else {
        assert(s =~= Seq::<char>::empty());
    }
}

proof fn lemma_first_rejected_prefix<V: WithoutQuotingValidator>(v: V, s: Seq<char>)
    requires
        first_rejected(v, s) is Some,
    ensures
        first_rejected(v, s)->0 < s.len(),
        first_rejected(v, s.take(first_rejected(v, s)->0 as int)) is None,
    decreases s.len(),
{
    let k = first_rejected(v, s)->0;
    if k == 0 {
        assert(s.take(0) =~= Seq::<char>::empty());
    } else {
        let c = s[0];
        lemma_first_rejected_prefix(v.after(pcp_of(c)), s.drop_first());
        assert(s.take(k as int).drop_first() =~= s.drop_first().take(k - 1));
    }
}

/// Minimal quoting agrees with quoting: where every character that `V`
/// accepts unquoted is plain text for the grammar, a string that cannot stand
/// unquoted comes out of `quote_if_needed` exactly as out of `quote`.
pub proof fn lemma_quote_if_needed_agrees_with_quote<Spec: GeneralQSSpec, V: WithoutQuotingValidator>(
    v: V,
    s: Seq<char>,
)
    requires
        forall|w: V, p: PartialCodePoint| #[trigger] w.accepts(p)
            ==> Spec::Quoting::quoting_class(p) == QuotingClass::QText,
        !unquoted_ok(v, s),
    ensures
        quote_if_needed_spec::<Spec, V>(v, s) == quote_spec::<Spec>(s),
{
    match first_rejected(v, s) {
        None => {
            lemma_accepted_is_plain::<Spec, V>(v, s);
        },
        Some(k) => {
            lemma_first_rejected_prefix(v, s);
            lemma_accepted_is_plain::<Spec, V>(v, s.take(k as int));
            assert(s =~= s.take(k as int) + s.skip(k as int));
            lemma_quoted_body_concat::<Spec>(s.take(k as int), s.skip(k as int));
            if let Ok(b) = quoted_body::<Spec>(s.skip(k as int)) {
                assert(seq!['"'] + s.take(k as int) + b + seq!['"'] =~= seq!['"'] + (s.take(
                    k as int,
                ) + b) + seq!['"']);
            }
        },
    }
}

} // verus!
