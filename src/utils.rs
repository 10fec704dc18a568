//! Helpers shared by the quoting, unquoting and parsing code.
use vstd::prelude::*;

use std::borrow::Cow;
use vstd::string::*;

verus! {

/// A result with its `Ok` value seen through its view.
pub open spec fn viewed<T: View, E>(r: Result<T, E>) -> Result<T::V, E> {
    match r {
        Ok(v) => Ok(v@),
        Err(e) => Err(e),
    }
}

/// Whether `r` is `Ok` and holds a borrowed string.
pub open spec fn is_borrowed<'a, E>(r: Result<Cow<'a, str>, E>) -> bool {
    match r {
        Ok(Cow::Borrowed(_)) => true,
        _ => false,
    }
}

/// The inside of `s` where it starts and ends with `"` (two distinct ones).
pub open spec fn spec_strip_quotes(s: Seq<char>) -> Option<Seq<char>> {
    if s.len() >= 2 && s[0] == '"' && s[s.len() - 1] == '"' {
        Some(s.subrange(1, s.len() - 1))
    } else {
        None
    }
}

/// The number of bytes of `c` in UTF-8.
pub open spec fn char_width(c: char) -> nat {
    if (c as u32) <= 0x7F {
        1
    } else if (c as u32) <= 0x7FF {
        2
    } else if (c as u32) <= 0xFFFF {
        3
    } else {
        4
    }
}

/// The number of bytes of `s` in UTF-8.
pub open spec fn utf8_len(s: Seq<char>) -> nat
    decreases s.len(),
{
    if s.len() == 0 {
        0
    } else {
        char_width(s[0]) + utf8_len(s.drop_first())
    }
}

pub proof fn lemma_utf8_len_concat(a: Seq<char>, b: Seq<char>)
    ensures
        utf8_len(a + b) == utf8_len(a) + utf8_len(b),
    decreases a.len(),
{
    if a.len() > 0 {
        assert((a + b).drop_first() =~= a.drop_first() + b);
        lemma_utf8_len_concat(a.drop_first(), b);
    } else {
        assert(a + b =~= b);
    }
}

/// The UTF-8 length counted here is the byte length of the encoding.
pub proof fn lemma_utf8_len_is_encoded_len(s: Seq<char>)
    ensures
        utf8_len(s) == vstd::utf8::encode_utf8(s).len(),
    decreases s.len(),
{
    if s.len() > 0 {
        vstd::utf8::char_is_scalar(s[0]);
        lemma_utf8_len_is_encoded_len(s.drop_first());
    }
}

/// The width of `c` in UTF-8.
pub fn utf8_width(c: char) -> (r: usize)
    ensures
        r == char_width(c),
{
    let v = c as u32;
    if v <= 0x7F {
        1
    } else if v <= 0x7FF {
        2
    } else if v <= 0xFFFF {
        3
    } else {
        4
    }
}

/// Splits a non-empty string into its first character and the rest, without
/// walking the rest.
pub fn split_first_char(s: &str) -> (r: (char, &str))
    requires
        s@.len() > 0,
    ensures
        r.0 == s@[0],
        r.1@ == s@.drop_first(),
{
    let c = s.get_char(0);
    let w = utf8_width(c);
    proof {
        let bytes = s.spec_bytes();
        vstd::utf8::char_is_scalar(c);
        vstd::utf8::encode_utf8_first_scalar(s@);
        vstd::utf8::encode_utf8_valid_utf8(s@);
        vstd::utf8::encode_utf8_valid_utf8(s@.drop_first());
        assert(bytes == vstd::utf8::encode_scalar(c as u32) + vstd::utf8::encode_utf8(s@.drop_first()));
        assert(vstd::utf8::pop_first_scalar(bytes) =~= vstd::utf8::encode_utf8(s@.drop_first()));
        assert(vstd::utf8::is_char_boundary(vstd::utf8::pop_first_scalar(bytes), 0));
        assert(vstd::utf8::is_char_boundary(bytes, w as int));
    }
    let (_, rest) = s.split_at(w);
    proof {
        let bytes = s.spec_bytes();
        assert(rest.spec_bytes() =~= vstd::utf8::encode_utf8(s@.drop_first()));
        vstd::utf8::encode_utf8_decode_utf8(rest@);
        vstd::utf8::encode_utf8_decode_utf8(s@.drop_first());
    }
    (c, rest)
}

/// strips quotes if they exist
///
/// returns None unless the input starts with `"` and ends with another `"`
pub fn strip_quotes(quoted_string: &str) -> (r: Option<&str>)
    ensures
        match spec_strip_quotes(quoted_string@) {
            Some(inner) => r is Some && r->0@ == inner,
            None => r is None,
        },
{
    let len = quoted_string.unicode_len();
    if len >= 2 && quoted_string.get_char(0) == '"' && quoted_string.get_char(len - 1) == '"' {
        Some(quoted_string.substring_char(1, len - 1))
    } else {
        None
    }
}

} // verus!
