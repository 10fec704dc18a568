//! Lazy decoding of the content of a quoted string.
use vstd::prelude::*;

use std::marker::PhantomData;
use vstd::string::*;

use crate::grammar::{GeneralQSSpec, QuotedValidator, ValidationResult};
use crate::utils::{spec_strip_quotes, split_first_char, strip_quotes, viewed};

verus! {

/// `c` in front of a decoded sequence.
pub open spec fn prepend<E>(c: char, r: Result<Seq<char>, E>) -> Result<Seq<char>, E> {
    match r {
        Ok(t) => Ok(seq![c] + t),
        Err(e) => Err(e),
    }
}

/// The content that the characters `s` of a quoted string stand for, read
/// by a quoted validator in state `v`, or the first error found.
pub open spec fn decode<Spec: GeneralQSSpec>(v: Spec::QuotedValidator, s: Seq<char>) -> Result<
    Seq<char>,
    Spec::Err,
>
    decreases s.len(),
{
    if s.len() == 0 {
        Ok(Seq::empty())
    } else {
        let c = s[0];
        let rest = s.drop_first();
        let v2 = v.after(c);
        match v.outcome(c) {
            ValidationResult::QText | ValidationResult::SemanticWs => prepend(
                c,
                decode::<Spec>(v2, rest),
            ),
            ValidationResult::NotSemanticWs => decode::<Spec>(v2, rest),
            ValidationResult::Escape => if rest.len() == 0 {
                match Spec::spec_tailing_escape() {
                    Ok(_) => Ok(seq!['\\']),
                    Err(e) => Err(e),
                }
            } else {
                prepend(rest[0], decode::<Spec>(v2, rest.drop_first()))
            },
            ValidationResult::Quotable => Err(Spec::spec_unquoted_quotable_char(c)),
            ValidationResult::Invalid => Err(Spec::spec_unquoteable_char(c)),
        }
    }
}

/// What one call of `ContentChars::next` yields from the characters `s` with
/// the validator in state `v`, and the validator and characters after it.
pub open spec fn next_item<Spec: GeneralQSSpec>(v: Spec::QuotedValidator, s: Seq<char>) -> (
    Option<Result<char, Spec::Err>>,
    Spec::QuotedValidator,
    Seq<char>,
)
    decreases s.len(),
{
    if s.len() == 0 {
        (None, v, s)
    } else {
        let c = s[0];
        let rest = s.drop_first();
        let v2 = v.after(c);
        match v.outcome(c) {
            ValidationResult::QText | ValidationResult::SemanticWs => (Some(Ok(c)), v2, rest),
            ValidationResult::NotSemanticWs => next_item::<Spec>(v2, rest),
            ValidationResult::Escape => if rest.len() == 0 {
                (
                    Some(
                        match Spec::spec_tailing_escape() {
                            Ok(_) => Ok('\\'),
                            Err(e) => Err(e),
                        },
                    ),
                    v2,
                    rest,
                )
            } else {
                (Some(Ok(rest[0])), v2, rest.drop_first())
            },
            ValidationResult::Quotable => (
                Some(Err(Spec::spec_unquoted_quotable_char(c))),
                v2,
                rest,
            ),
            ValidationResult::Invalid => (Some(Err(Spec::spec_unquoteable_char(c))), v2, rest),
        }
    }
}

/// Decoding is `next_item`, repeated.
pub proof fn lemma_decode_next<Spec: GeneralQSSpec>(v: Spec::QuotedValidator, s: Seq<char>)
    ensures
        next_item::<Spec>(v, s).2.len() <= s.len(),
        next_item::<Spec>(v, s).0 is Some ==> next_item::<Spec>(v, s).2.len() < s.len(),
        decode::<Spec>(v, s) == match next_item::<Spec>(v, s) {
            (None, _, _) => Ok(Seq::empty()),
            (Some(Err(e)), _, _) => Err(e),
            (Some(Ok(c)), v2, rest) => prepend(c, decode::<Spec>(v2, rest)),
        },
    decreases s.len(),
{
    if s.len() > 0 {
        let c = s[0];
        let rest = s.drop_first();
        match v.outcome(c) {
            ValidationResult::NotSemanticWs => {
                lemma_decode_next::<Spec>(v.after(c), rest);
            },
            ValidationResult::Escape => {
                if rest.len() == 0 {
                    assert(decode::<Spec>(v.after(c), rest) == Ok::<Seq<char>, Spec::Err>(
                        Seq::empty(),
                    ));
                    assert(seq!['\\'] + Seq::<char>::empty() =~= seq!['\\']);
                }
            },
            _ => {},
        }
    }
}

/// The characters of `c` in ASCII lower case, as a code.
pub open spec fn folded(c: char) -> u32 {
    if 'A' <= c && c <= 'Z' {
        (c as u32 + 32) as u32
    } else {
        c as u32
    }
}

/// Two characters compare equal, exactly or up to ASCII case.
pub open spec fn char_matches(a: char, b: char, ignore_case: bool) -> bool {
    if ignore_case {
        folded(a) == folded(b)
    } else {
        a == b
    }
}

/// Two sequences compare equal character by character.
pub open spec fn seq_matches(a: Seq<char>, b: Seq<char>, ignore_case: bool) -> bool {
    a.len() == b.len() && forall|i: int| 0 <= i < a.len() ==> char_matches(a[i], b[i], ignore_case)
}

/// Two decodings compare equal: both succeed, with matching characters.
pub open spec fn content_matches<E>(
    a: Result<Seq<char>, E>,
    b: Result<Seq<char>, E>,
    ignore_case: bool,
) -> bool {
    match (a, b) {
        (Ok(x), Ok(y)) => seq_matches(x, y, ignore_case),
        _ => false,
    }
}

proof fn lemma_matches_prepend<E>(
    x: char,
    a: Result<Seq<char>, E>,
    y: char,
    b: Result<Seq<char>, E>,
    ignore_case: bool,
)
    ensures
        content_matches(prepend(x, a), prepend(y, b), ignore_case) == (char_matches(
            x,
            y,
            ignore_case,
        ) && content_matches(a, b, ignore_case)),
{
    if let (Ok(p), Ok(q)) = (a, b) {
        let xp = seq![x] + p;
        let yq = seq![y] + q;
        if seq_matches(xp, yq, ignore_case) {
            assert(xp[0] == x && yq[0] == y);
            assert forall|i: int| 0 <= i < p.len() implies char_matches(p[i], q[i], ignore_case) by {
                assert(xp[i + 1] == p[i] && yq[i + 1] == q[i]);
            }
        }
        if char_matches(x, y, ignore_case) && seq_matches(p, q, ignore_case) {
            assert forall|i: int| 0 <= i < xp.len() implies char_matches(
                xp[i],
                yq[i],
                ignore_case,
            ) by {
                if i > 0 {
                    assert(xp[i] == p[i - 1] && yq[i] == q[i - 1]);
                }
            }
        }
    }
}

/// Compares two characters, exactly or up to ASCII case.
fn chars_match(a: char, b: char, ignore_case: bool) -> (r: bool)
    ensures
        r == char_matches(a, b, ignore_case),
{
    if ignore_case {
        let x = a as u32;
        let y = b as u32;
        let fx = if 'A' <= a && a <= 'Z' {
            x + 32
        } else {
            x
        };
        let fy = if 'A' <= b && b <= 'Z' {
            y + 32
        } else {
            y
        };
        fx == fy
    } else {
        a == b
    }
}

/// Analogous to PartialEq, but with _ascii_ case insensitive equality
pub trait AsciiCaseInsensitiveEq<Rhs: ?Sized> {
    spec fn spec_eq_ignore_ascii_case(&self, other: &Rhs) -> bool;

    /// compares this instance with other with a ascii case insensitive comparison algorithm
    fn eq_ignore_ascii_case(&self, other: &Rhs) -> (r: bool)
        ensures
            r == self.spec_eq_ignore_ascii_case(other),
    ;
}

/// An iterator over the characters of the content that (part of) a quoted
/// string stands for, decoded one at a time with no buffer.
pub struct ContentChars<'a, Spec: GeneralQSSpec> {
    inner: &'a str,
    q_validator: Spec::QuotedValidator,
    marker: PhantomData<Spec>,
}

impl<'s, Spec> ContentChars<'s, Spec> where Spec: GeneralQSSpec {
    /// the characters not read yet
    pub closed spec fn remaining(&self) -> Seq<char> {
        self.inner@
    }

    /// the state of the quoted validator
    pub closed spec fn validator(&self) -> Spec::QuotedValidator {
        self.q_validator
    }

    /// the content that the characters not read yet stand for
    pub open spec fn content(&self) -> Result<Seq<char>, Spec::Err> {
        decode::<Spec>(self.validator(), self.remaining())
    }

    /// creates a char iterator over the content of a quoted string
    ///
    /// the quoted string is _assumed_ to be valid and not checked here; the
    /// surrounding `"` are stripped, and their absence is an error
    pub fn from_str_unchecked(quoted: &'s str) -> (r: Result<Self, Spec::Err>)
        ensures
            match spec_strip_quotes(quoted@) {
                Some(inner) => r is Ok && r->Ok_0.remaining() == inner
                    && r->Ok_0.validator() == Spec::initial_quoted_validator(),
                None => r == Err::<Self, Spec::Err>(Spec::spec_missing_quotes()),
            },
    {
        let content = match strip_quotes(quoted) {
            Some(content) => content,
            None => return Err(Spec::quoted_string_missing_quotes()),
        };
        let q_validator = Spec::new_quoted_validator();
        Ok(Self::from_parts_unchecked(content, q_validator))
    }

    /// creates a ContentChars iterator from a str and a QuotedValidator
    ///
    /// `partial_quoted_content` is the rest of the content of a quoted string,
    /// and `q_validator` the validator in the state its earlier characters
    /// left it in.
    pub fn from_parts_unchecked(
        partial_quoted_content: &'s str,
        q_validator: Spec::QuotedValidator,
    ) -> (r: Self)
        ensures
            r.remaining() == partial_quoted_content@,
            r.validator() == q_validator,
    {
        ContentChars { inner: partial_quoted_content, q_validator, marker: PhantomData }
    }

    /// The next decoded character, or the error for the next character that
    /// cannot be decoded; `None` at the end.
    pub fn next(&mut self) -> (r: Option<Result<char, Spec::Err>>)
        ensures
            (r, final(self).validator(), final(self).remaining()) == next_item::<Spec>(
                old(self).validator(),
                old(self).remaining(),
            ),
    {
        loop
            invariant
                next_item::<Spec>(self.validator(), self.remaining()) == next_item::<Spec>(
                    old(self).validator(),
                    old(self).remaining(),
                ),
            decreases self.remaining().len(),
        {
            if self.inner.is_empty() {
                return None;
            }
            let (ch, rest) = split_first_char(self.inner);
            self.inner = rest;
            match self.q_validator.validate_next_char(ch) {
                ValidationResult::QText | ValidationResult::SemanticWs => {
                    return Some(Ok(ch));
                },
                ValidationResult::NotSemanticWs => {},
                ValidationResult::Escape => {
                    if self.inner.is_empty() {
                        return Some(
                            match Spec::error_for_tailing_escape() {
                                Ok(()) => Ok('\\'),
                                Err(e) => Err(e),
                            },
                        );
                    }
                    let (escaped, rest) = split_first_char(self.inner);
                    self.inner = rest;
                    return Some(Ok(escaped));
                },
                ValidationResult::Quotable => {
                    return Some(Err(Spec::unquoted_quotable_char(ch)));
                },
                ValidationResult::Invalid => {
                    return Some(Err(Spec::unquoteable_char(ch)));
                },
            }
        }
    }

    /// Decodes all of the remaining content into a `Vec`.
    #[verifier::loop_isolation(false)]
    pub fn collect_chars(self) -> (r: Result<Vec<char>, Spec::Err>)
        ensures
            viewed(r) == self.content(),
    {
        let ghost target = self.content();
        let mut iter = self;
        let mut out: Vec<char> = Vec::new();
        loop
            invariant
                target == match iter.content() {
                    Ok(t) => Ok(out@ + t),
                    Err(e) => Err(e),
                },
            decreases iter.remaining().len(),
        {
            proof {
                lemma_decode_next::<Spec>(iter.validator(), iter.remaining());
            }
            match iter.next() {
                None => {
                    assert(out@ + Seq::<char>::empty() =~= out@);
                    return Ok(out);
                },
                Some(Ok(c)) => {
                    proof {
                        assert forall|t: Seq<char>| out@ + (seq![c] + t) == out@.push(c) + t by {
                            assert(out@ + (seq![c] + t) =~= out@.push(c) + t);
                        }
                    }
                    out.push(c);
                },
                Some(Err(e)) => {
                    return Err(e);
                },
            }
        }
    }

    /// A copy of this iterator, at the same position.
    fn duplicate(&self) -> (r: Self)
        ensures
            r == *self,
    {
        ContentChars { inner: self.inner, q_validator: self.q_validator, marker: PhantomData }
    }

    /// Whether the content equals `other`.
    pub fn eq_str(&self, other: &str) -> (r: bool)
        ensures
            r == content_matches(self.content(), Ok(other@), false),
    {
        iter_eq_str(self.duplicate(), other, false)
    }

    /// Whether the contents of both iterators are equal.
    pub fn eq_chars<'b>(&self, other: &ContentChars<'b, Spec>) -> (r: bool)
        ensures
            r == content_matches(self.content(), other.content(), false),
    {
        iter_eq(self.duplicate(), other.duplicate(), false)
    }
}

/// Compares the contents of two iterators, character by character.
#[verifier::loop_isolation(false)]
fn iter_eq<'a, 'b, Spec: GeneralQSSpec>(
    left: ContentChars<'a, Spec>,
    right: ContentChars<'b, Spec>,
    ignore_case: bool,
) -> (r: bool)
    ensures
        r == content_matches(left.content(), right.content(), ignore_case),
{
    let ghost goal = content_matches(left.content(), right.content(), ignore_case);
    let mut left = left;
    let mut right = right;
    loop
        invariant
            goal == content_matches(left.content(), right.content(), ignore_case),
        decreases left.remaining().len(),
    {
        proof {
            lemma_decode_next::<Spec>(left.validator(), left.remaining());
            lemma_decode_next::<Spec>(right.validator(), right.remaining());
        }
        let l = left.next();
        let rn = right.next();
        match (l, rn) {
            (None, None) => {
                return true;
            },
            (Some(Ok(x)), Some(Ok(y))) => {
                proof {
                    lemma_matches_prepend(x, left.content(), y, right.content(), ignore_case);
                }
                if !chars_match(x, y, ignore_case) {
                    return false;
                }
            },
            (None, Some(Ok(y))) => {
                proof {
                    if let Ok(t) = right.content() {
                        assert((seq![y] + t).len() > 0);
                    }
                }
                return false;
            },
            (Some(Ok(x)), None) => {
                proof {
                    if let Ok(t) = left.content() {
                        assert((seq![x] + t).len() > 0);
                    }
                }
                return false;
            },
            _ => {
                return false;
            },
        }
    }
}

/// Compares the content of an iterator with plain text, character by character.
#[verifier::loop_isolation(false)]
fn iter_eq_str<'a, Spec: GeneralQSSpec>(
    left: ContentChars<'a, Spec>,
    right: &str,
    ignore_case: bool,
) -> (r: bool)
    ensures
        r == content_matches(left.content(), Ok(right@), ignore_case),
{
    let ghost goal = content_matches(left.content(), Ok::<Seq<char>, Spec::Err>(right@), ignore_case);
    let ghost s = right@;
    let mut left = left;
    let n = right.unicode_len();
    let mut k: usize = 0;
    for y in it: right.chars()
        invariant
            it.seq() == s,
            n == s.len(),
            k == it.index(),
            goal == content_matches(
                left.content(),
                Ok::<Seq<char>, Spec::Err>(s.skip(k as int)),
                ignore_case,
            ),
    {
        proof {
            assert(s[k as int] == y);
            assert(s.skip(k as int) =~= seq![y] + s.skip(k + 1));
            lemma_decode_next::<Spec>(left.validator(), left.remaining());
            lemma_matches_prepend(
                y,
                Ok::<Seq<char>, Spec::Err>(s.skip(k + 1)),
                y,
                Ok::<Seq<char>, Spec::Err>(s.skip(k + 1)),
                ignore_case,
            );
        }
        match left.next() {
            Some(Ok(x)) => {
                proof {
                    lemma_matches_prepend(
                        x,
                        left.content(),
                        y,
                        Ok::<Seq<char>, Spec::Err>(s.skip(k + 1)),
                        ignore_case,
                    );
                }
                if !chars_match(x, y, ignore_case) {
                    return false;
                }
            },
            _ => {
                return false;
            },
        }
        k = k + 1;
    }
    proof {
        assert(s.skip(k as int) =~= Seq::<char>::empty());
        lemma_decode_next::<Spec>(left.validator(), left.remaining());
    }
    match left.next() {
        None => true,
        Some(Ok(x)) => {
            proof {
                if let Ok(t) = left.content() {
                    assert((seq![x] + t).len() > 0);
                }
            }
            false
        },
        Some(Err(_)) => false,
    }
}

impl<'a, Spec> AsciiCaseInsensitiveEq<str> for ContentChars<'a, Spec> where Spec: GeneralQSSpec {
    open spec fn spec_eq_ignore_ascii_case(&self, other: &str) -> bool {
        content_matches(self.content(), Ok(other@), true)
    }

    fn eq_ignore_ascii_case(&self, other: &str) -> (r: bool) {
        iter_eq_str(self.duplicate(), other, true)
    }
}

impl<'a, 'b, Spec> AsciiCaseInsensitiveEq<ContentChars<'b, Spec>> for ContentChars<
    'a,
    Spec,
> where Spec: GeneralQSSpec {
    open spec fn spec_eq_ignore_ascii_case(&self, other: &ContentChars<'b, Spec>) -> bool {
        content_matches(self.content(), other.content(), true)
    }

    fn eq_ignore_ascii_case(&self, other: &ContentChars<'b, Spec>) -> (r: bool) {
        iter_eq(self.duplicate(), other.duplicate(), true)
    }
}

impl<'a, 'b, Spec> AsciiCaseInsensitiveEq<&'b str> for ContentChars<'a, Spec> where
    Spec: GeneralQSSpec,
 {
    open spec fn spec_eq_ignore_ascii_case(&self, other: &&'b str) -> bool {
        content_matches(self.content(), Ok((*other)@), true)
    }

    fn eq_ignore_ascii_case(&self, other: &&'b str) -> (r: bool) {
        iter_eq_str(self.duplicate(), *other, true)
    }
}

impl<'a, 'b, Spec> AsciiCaseInsensitiveEq<ContentChars<'b, Spec>> for &'a str where
    Spec: GeneralQSSpec,
 {
    open spec fn spec_eq_ignore_ascii_case(&self, other: &ContentChars<'b, Spec>) -> bool {
        content_matches(other.content(), Ok((*self)@), true)
    }

    fn eq_ignore_ascii_case(&self, other: &ContentChars<'b, Spec>) -> (r: bool) {
        iter_eq_str(other.duplicate(), *self, true)
    }
}

} // verus!
