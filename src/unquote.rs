//! Unquoting: from a quoted string to its content.
use vstd::prelude::*;

use std::borrow::Cow;
use vstd::string::*;

use crate::grammar::{is_kept, GeneralQSSpec, QuotedValidator, ValidationResult};
use crate::iter::{decode, lemma_decode_next, ContentChars};
use crate::quote::push_char;
use crate::utils::{is_borrowed, spec_strip_quotes, strip_quotes, viewed};

verus! {

/// `p` in front of a decoded sequence.
pub open spec fn append<E>(p: Seq<char>, r: Result<Seq<char>, E>) -> Result<Seq<char>, E> {
    match r {
        Ok(t) => Ok(p + t),
        Err(e) => Err(e),
    }
}

/// The content of the quoted string `s`: its inside, decoded.
pub open spec fn content_spec<Spec: GeneralQSSpec>(s: Seq<char>) -> Result<Seq<char>, Spec::Err> {
    match spec_strip_quotes(s) {
        Some(inner) => decode::<Spec>(Spec::initial_quoted_validator(), inner),
        None => Err(Spec::spec_missing_quotes()),
    }
}

/// The index of the first character of `s` that does not stand for itself,
/// for a validator that starts in state `v`.
pub open spec fn first_split<V: QuotedValidator>(v: V, s: Seq<char>) -> Option<nat>
    decreases s.len(),
{
    if s.len() == 0 {
        None
    } else if !is_kept(v.outcome(s[0])) {
        Some(0)
    } else {
        match first_split(v.after(s[0]), s.drop_first()) {
            Some(k) => Some(k + 1),
            None => None,
        }
    }
}

/// The state of a quoted validator after it was fed every character of `s`.
pub open spec fn fed_quoted<V: QuotedValidator>(v: V, s: Seq<char>) -> V
    decreases s.len(),
{
    if s.len() == 0 {
        v
    } else {
        fed_quoted(v.after(s[0]), s.drop_first())
    }
}

proof fn lemma_fed_quoted_concat<V: QuotedValidator>(v: V, a: Seq<char>, b: Seq<char>)
    ensures
        fed_quoted(v, a + b) == fed_quoted(fed_quoted(v, a), b),
        first_split(v, a) is None ==> first_split(v, a + b) == match first_split(
            fed_quoted(v, a),
            b,
        ) {
            Some(k) => Some(k + a.len()),
            None => None::<nat>,
        },
    decreases a.len(),
{
    if a.len() == 0 {
        assert(a + b =~= b);
    } else {
        assert((a + b).drop_first() =~= a.drop_first() + b);
        assert((a + b)[0] == a[0]);
        lemma_fed_quoted_concat(v.after(a[0]), a.drop_first(), b);
    }
}

proof fn lemma_fed_quoted_one<V: QuotedValidator>(v: V, c: char)
    ensures
        fed_quoted(v, seq![c]) == v.after(c),
        first_split(v, seq![c]) == if is_kept(v.outcome(c)) {
            None::<nat>
        } else {
            Some(0nat)
        },
{
    assert(seq![c].drop_first() =~= Seq::<char>::empty());
    assert(fed_quoted(v.after(c), Seq::<char>::empty()) == v.after(c));
    assert(first_split(v.after(c), Seq::<char>::empty()) is None);
}

/// Characters that stand for themselves decode to themselves.
proof fn lemma_decode_kept_prefix<Spec: GeneralQSSpec>(
    v: Spec::QuotedValidator,
    s: Seq<char>,
    k: int,
)
    requires
        0 <= k <= s.len(),
        first_split(v, s.take(k)) is None,
    ensures
        decode::<Spec>(v, s) == append(
            s.take(k),
            decode::<Spec>(fed_quoted(v, s.take(k)), s.skip(k)),
        ),
    decreases k,
{
    if k == 0 {
        assert(s.skip(0) =~= s);
        assert(fed_quoted(v, s.take(0)) == v);
        assert forall|t: Seq<char>| s.take(0) + t == t by {
            assert(s.take(0) + t =~= t);
        }
    } else {
        let c = s[0];
        let rest = s.drop_first();
        assert(s.take(k)[0] == c);
        assert(s.take(k).drop_first() =~= rest.take(k - 1));
        assert(s.skip(k) =~= rest.skip(k - 1));
        lemma_decode_kept_prefix::<Spec>(v.after(c), rest, k - 1);
        assert forall|t: Seq<char>| seq![c] + (rest.take(k - 1) + t) == s.take(k) + t by {
            assert(seq![c] + (rest.take(k - 1) + t) =~= s.take(k) + t);
        }
    }
}

/// What made the scan stop before the end.
enum LastWas {
    Escape,
    NotSemanticWs,
}

/// Where the scan of the content stopped.
enum ScanResult {
    ValidUnchanged,
    ValidUpTo { split_idx: usize, last_was: LastWas, last_ch: char },
}

/// Scans `input` up to its first character that does not stand for itself.
fn scan_unchanged<Spec: GeneralQSSpec>(
    input: &str,
    q_validator: &mut Spec::QuotedValidator,
) -> (r: Result<ScanResult, Spec::Err>)
    ensures
        match first_split(*old(q_validator), input@) {
            None => {
                &&& r == Ok::<ScanResult, Spec::Err>(ScanResult::ValidUnchanged)
                &&& *final(q_validator) == fed_quoted(*old(q_validator), input@)
            },
            Some(k) => {
                let vk = fed_quoted(*old(q_validator), input@.take(k as int));
                let c = input@[k as int];
                &&& k < input@.len()
                &&& first_split(*old(q_validator), input@.take(k as int)) is None
                &&& !is_kept(vk.outcome(c))
                &&& *final(q_validator) == vk.after(c)
                &&& vk.outcome(c) == ValidationResult::Escape ==> c == '\\'
                &&& match vk.outcome(c) {
                    ValidationResult::Escape => r == Ok::<ScanResult, Spec::Err>(
                        (ScanResult::ValidUpTo {
                            split_idx: k as usize,
                            last_was: LastWas::Escape,
                            last_ch: c,
                        }),
                    ),
                    ValidationResult::NotSemanticWs => r == Ok::<ScanResult, Spec::Err>(
                        (ScanResult::ValidUpTo {
                            split_idx: k as usize,
                            last_was: LastWas::NotSemanticWs,
                            last_ch: c,
                        }),
                    ),
                    ValidationResult::Quotable => r == Err::<ScanResult, Spec::Err>(
                        Spec::spec_unquoted_quotable_char(c),
                    ),
                    _ => r == Err::<ScanResult, Spec::Err>(Spec::spec_unquoteable_char(c)),
                }
            },
        },
{
    let ghost s = input@;
    let ghost v0 = *q_validator;
    let n = input.unicode_len();
    let mut k: usize = 0;
    proof {
        assert(s.take(0) =~= Seq::<char>::empty());
    }
    for ch in it: input.chars()
        invariant
            it.seq() == s,
            input@ == s,
            k == it.index(),
            n == s.len(),
            v0 == *old(q_validator),
            first_split(v0, s.take(k as int)) is None,
            *q_validator == fed_quoted(v0, s.take(k as int)),
    {
        proof {
            assert(ch == s[k as int]);
            assert(s.take(k + 1) =~= s.take(k as int) + seq![ch]);
            lemma_fed_quoted_concat(v0, s.take(k as int), seq![ch]);
            lemma_fed_quoted_one(*q_validator, ch);
            assert(s =~= s.take(k as int) + s.skip(k as int));
            lemma_fed_quoted_concat(v0, s.take(k as int), s.skip(k as int));
            assert(s.skip(k as int)[0] == ch);
        }
        match q_validator.validate_next_char(ch) {
            ValidationResult::QText | ValidationResult::SemanticWs => {},
            ValidationResult::Escape => {
                proof {
                    Spec::lemma_escape_is_backslash(fed_quoted(v0, s.take(k as int)), ch);
                }
                return Ok(ScanResult::ValidUpTo { split_idx: k, last_was: LastWas::Escape, last_ch: ch });
            },
            ValidationResult::NotSemanticWs => {
                return Ok(
                    ScanResult::ValidUpTo {
                        split_idx: k,
                        last_was: LastWas::NotSemanticWs,
                        last_ch: ch,
                    },
                );
            },
            ValidationResult::Quotable => {
                return Err(Spec::unquoted_quotable_char(ch));
            },
            ValidationResult::Invalid => {
                return Err(Spec::unquoteable_char(ch));
            },
        }
        k = k + 1;
    }
    proof {
        assert(s.take(k as int) =~= s);
    }
    Ok(ScanResult::ValidUnchanged)
}

/// converts a quoted string into its content
///
/// Strips the surrounding `"`, resolves quoted-pairs and drops whitespace that
/// is not part of the content. Where nothing needs to be resolved or dropped,
/// the inside of the input comes back borrowed.
#[verifier::loop_isolation(false)]
pub fn to_content<'a, Spec: GeneralQSSpec>(quoted_string: &'a str) -> (r: Result<
    Cow<'a, str>,
    Spec::Err,
>)
    ensures
        viewed(r) == content_spec::<Spec>(quoted_string@),
        is_borrowed(r) <==> match spec_strip_quotes(quoted_string@) {
            Some(inner) => first_split(Spec::initial_quoted_validator(), inner) is None,
            None => false,
        },
{
    let quoted_string_content = match strip_quotes(quoted_string) {
        Some(content) => content,
        None => return Err(Spec::quoted_string_missing_quotes()),
    };
    let ghost s = quoted_string_content@;
    let ghost v0 = Spec::initial_quoted_validator();
    let n = quoted_string_content.unicode_len();
    let mut q_validator = Spec::new_quoted_validator();
    let unchanged = scan_unchanged::<Spec>(quoted_string_content, &mut q_validator);
    let unchanged = match unchanged {
        Ok(unchanged) => unchanged,
        Err(e) => {
            proof {
                assert(first_split(v0, s) is Some);
                let k = first_split(v0, s)->0 as int;
                lemma_decode_kept_prefix::<Spec>(v0, s, k);
                assert(s.skip(k)[0] == s[k]);
                assert(decode::<Spec>(fed_quoted(v0, s.take(k)), s.skip(k)) == Err::<
                    Seq<char>,
                    Spec::Err,
                >(e));
            }
            return Err(e);
        },
    };
    let (split_idx, last_was) = match unchanged {
        ScanResult::ValidUnchanged => {
            proof {
                assert(s.take(s.len() as int) =~= s);
                lemma_decode_kept_prefix::<Spec>(v0, s, s.len() as int);
                assert(s.skip(s.len() as int) =~= Seq::<char>::empty());
                assert(s + Seq::<char>::empty() =~= s);
            }
            return Ok(Cow::Borrowed(quoted_string_content));
        },
        ScanResult::ValidUpTo { split_idx, last_was, last_ch: _ } => (split_idx, last_was),
    };
    let ghost k = split_idx as int;
    let ghost vk = fed_quoted(v0, s.take(k));
    proof {
        assert(first_split(v0, s) is Some);
        assert(first_split(v0, s)->0 == k);
        lemma_decode_kept_prefix::<Spec>(v0, s, k);
        assert(s.skip(k)[0] == s[k]);
        assert(s.skip(k).drop_first() =~= s.skip(k + 1));
    }
    let mut buffer = quoted_string_content.substring_char(0, split_idx).to_owned();
    let tail_start: usize;
    match last_was {
        LastWas::Escape => {
            if split_idx + 1 < n {
                let ch = quoted_string_content.get_char(split_idx + 1);
                push_char(&mut buffer, ch);
                tail_start = split_idx + 2;
                proof {
                    assert(s.skip(k + 1)[0] == ch);
                    assert(s.skip(k + 1).drop_first() =~= s.skip(k + 2));
                    assert forall|t: Seq<char>| s.take(k) + (seq![ch] + t) == buffer@ + t by {
                        assert(s.take(k) + (seq![ch] + t) =~= buffer@ + t);
                    }
                }
            } else {
                Spec::error_for_tailing_escape()?;
                push_char(&mut buffer, '\\');
                tail_start = split_idx + 1;
                proof {
                    assert(s.skip(k + 1) =~= Seq::<char>::empty());
                    assert(buffer@ + Seq::<char>::empty() =~= s.take(k) + seq!['\\']);
                }
            }
        },
        LastWas::NotSemanticWs => {
            tail_start = split_idx + 1;
        },
    }
    let mut iter = ContentChars::<Spec>::from_parts_unchecked(
        quoted_string_content.substring_char(tail_start, n),
        q_validator,
    );
    loop
        invariant
            decode::<Spec>(v0, s) == append(buffer@, iter.content()),
        decreases iter.remaining().len(),
    {
        proof {
            lemma_decode_next::<Spec>(iter.validator(), iter.remaining());
        }
        match iter.next() {
            None => {
                assert(buffer@ + Seq::<char>::empty() =~= buffer@);
                return Ok(Cow::Owned(buffer));
            },
            Some(Ok(ch)) => {
                proof {
                    assert forall|t: Seq<char>| buffer@ + (seq![ch] + t) == buffer@.push(ch) + t by {
                        assert(buffer@ + (seq![ch] + t) =~= buffer@.push(ch) + t);
                    }
                }
                push_char(&mut buffer, ch);
            },
            Some(Err(e)) => {
                return Err(e);
            },
        }
    }
}

} // verus!
