//! Quoting: from content to a quoted string.
use vstd::prelude::*;

use std::borrow::Cow;
use vstd::string::*;

use crate::grammar::{
    pcp_of, GeneralQSSpec, PartialCodePoint, QuotingClass, QuotingClassifier,
    WithoutQuotingValidator,
};
use crate::utils::{is_borrowed, viewed};

verus! {

/// How quoting writes one character that it can represent.
pub open spec fn escape_char<Spec: GeneralQSSpec>(c: char) -> Seq<char> {
    if Spec::Quoting::quoting_class(pcp_of(c)) == QuotingClass::NeedsQuoting {
        seq!['\\', c]
    } else {
        seq![c]
    }
}

/// The inside of the quoted form of `s`, or the error for its first character
/// that cannot be represented.
pub open spec fn quoted_body<Spec: GeneralQSSpec>(s: Seq<char>) -> Result<Seq<char>, Spec::Err>
    decreases s.len(),
{
    if s.len() == 0 {
        Ok(Seq::empty())
    } else if Spec::Quoting::quoting_class(pcp_of(s[0])) == QuotingClass::Invalid {
        Err(Spec::spec_unquoteable_char(s[0]))
    } else {
        match quoted_body::<Spec>(s.drop_first()) {
            Ok(b) => Ok(escape_char::<Spec>(s[0]) + b),
            Err(e) => Err(e),
        }
    }
}

/// The quoted form of `s`.
pub open spec fn quote_spec<Spec: GeneralQSSpec>(s: Seq<char>) -> Result<Seq<char>, Spec::Err> {
    match quoted_body::<Spec>(s) {
        Ok(b) => Ok(seq!['"'] + b + seq!['"']),
        Err(e) => Err(e),
    }
}

pub proof fn lemma_quoted_body_concat<Spec: GeneralQSSpec>(a: Seq<char>, b: Seq<char>)
    ensures
        quoted_body::<Spec>(a + b) == match quoted_body::<Spec>(a) {
            Ok(x) => match quoted_body::<Spec>(b) {
                Ok(y) => Ok(x + y),
                Err(e) => Err(e),
            },
            Err(e) => Err(e),
        },
    decreases a.len(),
{
    if a.len() == 0 {
        assert(a + b =~= b);
        assert forall|x: Seq<char>| Seq::<char>::empty() + x == x by {
            assert(Seq::<char>::empty() + x =~= x);
        }
    } else {
        assert((a + b).drop_first() =~= a.drop_first() + b);
        assert((a + b)[0] == a[0]);
        lemma_quoted_body_concat::<Spec>(a.drop_first(), b);
        assert forall|p: Seq<char>, x: Seq<char>, y: Seq<char>| (p + x) + y == p + (x + y) by {
            assert((p + x) + y =~= p + (x + y));
        }
    }
}

proof fn lemma_quoted_body_one<Spec: GeneralQSSpec>(c: char)
    ensures
        quoted_body::<Spec>(seq![c]) == if Spec::Quoting::quoting_class(pcp_of(c))
            == QuotingClass::Invalid {
            Err(Spec::spec_unquoteable_char(c))
        } else {
            Ok(escape_char::<Spec>(c))
        },
{
    assert(seq![c].drop_first() =~= Seq::<char>::empty());
    assert(quoted_body::<Spec>(Seq::<char>::empty()) == Ok::<Seq<char>, Spec::Err>(Seq::empty()));
    assert(escape_char::<Spec>(c) + Seq::<char>::empty() =~= escape_char::<Spec>(c));
}

/// The index of the first character of `s` that `v`, fed the characters
/// before it, refuses.
pub open spec fn first_rejected<V: WithoutQuotingValidator>(v: V, s: Seq<char>) -> Option<nat>
    decreases s.len(),
{
    if s.len() == 0 {
        None
    } else if !v.accepts(pcp_of(s[0])) {
        Some(0)
    } else {
        match first_rejected(v.after(pcp_of(s[0])), s.drop_first()) {
            Some(k) => Some(k + 1),
            None => None,
        }
    }
}

/// The state of `v` after it was fed every character of `s`.
pub open spec fn fed<V: WithoutQuotingValidator>(v: V, s: Seq<char>) -> V
    decreases s.len(),
{
    if s.len() == 0 {
        v
    } else {
        fed(v.after(pcp_of(s[0])), s.drop_first())
    }
}

/// Whether `s` may stand without quotes, as `v` judges it.
pub open spec fn unquoted_ok<V: WithoutQuotingValidator>(v: V, s: Seq<char>) -> bool {
    first_rejected(v, s) is None && fed(v, s).accepts_end()
}

/// What `quote_if_needed` returns for `s`, with the validator starting in
/// state `v`: `s` itself where it may stand unquoted; else `"`, the
/// characters before the first one that `v` refused, the quoted form of the
/// rest, and `"`.
pub open spec fn quote_if_needed_spec<Spec: GeneralQSSpec, V: WithoutQuotingValidator>(
    v: V,
    s: Seq<char>,
) -> Result<Seq<char>, Spec::Err> {
    match first_rejected(v, s) {
        None => if fed(v, s).accepts_end() {
            Ok(s)
        } else {
            Ok(seq!['"'] + s + seq!['"'])
        },
        Some(k) => match quoted_body::<Spec>(s.skip(k as int)) {
            Ok(b) => Ok(seq!['"'] + s.take(k as int) + b + seq!['"']),
            Err(e) => Err(e),
        },
    }
}

pub proof fn lemma_fed_concat<V: WithoutQuotingValidator>(v: V, a: Seq<char>, b: Seq<char>)
    ensures
        fed(v, a + b) == fed(fed(v, a), b),
        first_rejected(v, a) is None ==> first_rejected(v, a + b) == match first_rejected(
            fed(v, a),
            b,
        ) {
            Some(k) => Some(k + a.len()),
            None => None::<nat>,
        },
    decreases a.len(),
{
    if a.len() == 0 {
        assert(a + b =~= b);
    } else {
        assert((a + b).drop_first() =~= a.drop_first() + b);
        assert((a + b)[0] == a[0]);
        lemma_fed_concat(v.after(pcp_of(a[0])), a.drop_first(), b);
    }
}

proof fn lemma_fed_one<V: WithoutQuotingValidator>(v: V, c: char)
    ensures
        fed(v, seq![c]) == v.after(pcp_of(c)),
        first_rejected(v, seq![c]) == if v.accepts(pcp_of(c)) {
            None::<nat>
        } else {
            Some(0nat)
        },
{
    assert(seq![c].drop_first() =~= Seq::<char>::empty());
    assert(fed(v.after(pcp_of(c)), Seq::<char>::empty()) == v.after(pcp_of(c)));
    assert(first_rejected(v.after(pcp_of(c)), Seq::<char>::empty()) is None);
}

/// Appends `c` to `s`.
///
/// Relies on `String::push`, which appends one character.
#[verifier::external_body]
pub(crate) fn push_char(s: &mut String, c: char)
    ensures
        final(s)@ == old(s)@.push(c),
{
    s.push(c)
}

/// quotes the input string returning the quoted string
pub fn quote<Spec: GeneralQSSpec>(input: &str) -> (r: Result<String, Spec::Err>)
    ensures
        viewed(r) == quote_spec::<Spec>(input@),
{
    let mut out = String::new();
    push_char(&mut out, '"');
    quote_inner::<Spec>(input, &mut out)?;
    push_char(&mut out, '"');
    proof {
        assert(out@ =~= seq!['"'] + quoted_body::<Spec>(input@)->Ok_0 + seq!['"']);
    }
    Ok(out)
}

/// quotes a input writing it into the output buffer, does not add surrounding '"'
fn quote_inner<Spec: GeneralQSSpec>(input: &str, out: &mut String) -> (r: Result<(), Spec::Err>)
    ensures
        match quoted_body::<Spec>(input@) {
            Ok(b) => r is Ok && final(out)@ == old(out)@ + b,
            Err(e) => {
                &&& r == Err::<(), Spec::Err>(e)
                &&& old(out)@.is_prefix_of(final(out)@)
                &&& exists|k: int|
                    0 <= k < input@.len() && Spec::Quoting::quoting_class(pcp_of(input@[k]))
                        == QuotingClass::Invalid && #[trigger] quoted_body::<Spec>(
                        input@.take(k),
                    ) is Ok && final(out)@ == old(out)@ + quoted_body::<Spec>(
                        input@.take(k),
                    )->Ok_0
            },
        },
{
    let ghost s = input@;
    let ghost start = out@;
    let n = input.unicode_len();
    let mut k: usize = 0;
    proof {
        assert(s.take(0) =~= Seq::<char>::empty());
        assert(start + Seq::<char>::empty() =~= start);
    }
    for ch in it: input.chars()
        invariant
            it.seq() == s,
            input@ == s,
            start == old(out)@,
            k == it.index(),
            n == s.len(),
            quoted_body::<Spec>(s.take(k as int)) is Ok,
            out@ == start + quoted_body::<Spec>(s.take(k as int))->Ok_0,
    {
        proof {
            assert(ch == s[k as int]);
            assert(s.take(k + 1) =~= s.take(k as int) + seq![ch]);
            lemma_quoted_body_concat::<Spec>(s.take(k as int), seq![ch]);
            lemma_quoted_body_one::<Spec>(ch);
        }
        match Spec::Quoting::classify_for_quoting(PartialCodePoint::from_code_point(ch as u32)) {
            QuotingClass::QText => {
                push_char(out, ch);
                proof {
                    assert(out@ =~= start + quoted_body::<Spec>(s.take(k + 1))->Ok_0);
                }
            },
            QuotingClass::NeedsQuoting => {
                push_char(out, '\\');
                push_char(out, ch);
                proof {
                    assert(out@ =~= start + quoted_body::<Spec>(s.take(k + 1))->Ok_0);
                }
            },
            QuotingClass::Invalid => {
                proof {
                    assert(s =~= s.take(k as int) + s.skip(k as int));
                    lemma_quoted_body_concat::<Spec>(s.take(k as int), s.skip(k as int));
                    assert(s.skip(k as int)[0] == ch);
                    assert(out@.subrange(0, start.len() as int) =~= start);
                    assert(start.is_prefix_of(out@));
                    assert(quoted_body::<Spec>(s.take(k as int)) is Ok);
                    assert(quoted_body::<Spec>(s.skip(k as int)) == Err::<Seq<char>, Spec::Err>(
                        Spec::spec_unquoteable_char(ch),
                    ));
                }
                return Err(Spec::unquoteable_char(ch));
            },
        }
        k = k + 1;
    }
    proof {
        assert(s.take(k as int) =~= s);
    }
    Ok(())
}

} // verus!

verus! {

/// Writes `"`, then `verbatim`, then the quoted form of `rest`, then `"`.
fn quote_from<'a, Spec: GeneralQSSpec>(verbatim: &str, rest: &str) -> (r: Result<
    Cow<'a, str>,
    Spec::Err,
>)
    ensures
        viewed(r) == match quoted_body::<Spec>(rest@) {
            Ok(b) => Ok(seq!['"'] + verbatim@ + b + seq!['"']),
            Err(e) => Err(e),
        },
        !is_borrowed(r),
{
    let mut out = String::new();
    push_char(&mut out, '"');
    out.append(verbatim);
    quote_inner::<Spec>(rest, &mut out)?;
    push_char(&mut out, '"');
    proof {
        assert(out@ =~= seq!['"'] + verbatim@ + quoted_body::<Spec>(rest@)->Ok_0 + seq!['"']);
    }
    Ok(Cow::Owned(out))
}

/// quotes the input string if needed
///
/// The input comes back unchanged, borrowed, when `validator` accepts every
/// character and then the end. Otherwise the characters before the first one
/// it refused are copied as they are, and the rest is quoted.
pub fn quote_if_needed<'a, Spec, WQImpl>(input: &'a str, validator: &mut WQImpl) -> (r: Result<
    Cow<'a, str>,
    Spec::Err,
>) where Spec: GeneralQSSpec, WQImpl: WithoutQuotingValidator
    ensures
        viewed(r) == quote_if_needed_spec::<Spec, WQImpl>(*old(validator), input@),
        is_borrowed(r) <==> unquoted_ok(*old(validator), input@),
        unquoted_ok(*old(validator), input@) ==> r == Ok::<Cow<'a, str>, Spec::Err>(
            Cow::Borrowed(input),
        ),
        *final(validator) == match first_rejected(*old(validator), input@) {
            None => fed(*old(validator), input@),
            Some(k) => fed(*old(validator), input@.take((k + 1) as int)),
        },
{
    let ghost s = input@;
    let ghost v0 = *validator;
    let n = input.unicode_len();
    let mut k: usize = 0;
    proof {
        assert(s.take(0) =~= Seq::<char>::empty());
    }
    for ch in it: input.chars()
        invariant
            it.seq() == s,
            input@ == s,
            k == it.index(),
            n == s.len(),
            v0 == *old(validator),
            first_rejected(v0, s.take(k as int)) is None,
            *validator == fed(v0, s.take(k as int)),
    {
        proof {
            assert(ch == s[k as int]);
            assert(s.take(k + 1) =~= s.take(k as int) + seq![ch]);
            lemma_fed_concat(v0, s.take(k as int), seq![ch]);
            lemma_fed_one(*validator, ch);
        }
        let pcp = PartialCodePoint::from_code_point(ch as u32);
        if !validator.next(pcp) {
            proof {
                assert(s =~= s.take(k as int) + s.skip(k as int));
                lemma_fed_concat(v0, s.take(k as int), s.skip(k as int));
                assert(s.skip(k as int)[0] == ch);
                assert(first_rejected(fed(v0, s.take(k as int)), s.skip(k as int)) == Some(0nat));
                assert(first_rejected(v0, s) == Some(k as nat));
            }
            return quote_from::<Spec>(input.substring_char(0, k), input.substring_char(k, n));
        }
        k = k + 1;
    }
    proof {
        assert(s.take(k as int) =~= s);
    }
    if validator.end() {
        Ok(Cow::Borrowed(input))
    } else {
        proof {
            reveal_strlit("");
            assert(quoted_body::<Spec>(""@) == Ok::<Seq<char>, Spec::Err>(Seq::empty()));
            assert(seq!['"'] + s + Seq::<char>::empty() + seq!['"'] =~= seq!['"'] + s + seq!['"']);
        }
        quote_from::<Spec>(input, "")
    }
}

} // verus!
