//! Keys that place sheets among each other: between any two keys another
//! one can be made, so that a sheet is moved without renumbering the rest.

use crate::order::text_le;
use vstd::prelude::*;

verus! {

/// What the key generator yields for a key between `a` and `b`, `None`
/// standing for the open end on that side: the key, or the reason why it made
/// none.
pub uninterp spec fn fractional_key_between(a: Option<Seq<char>>, b: Option<Seq<char>>) -> Result<
    Seq<char>,
    Seq<char>,
>;

/// One of the sixty-two characters that keys are written with.
pub open spec fn is_base62(c: char) -> bool {
    ('0' <= c <= '9') || ('A' <= c <= 'Z') || ('a' <= c <= 'z')
}

/// A text of at least one character, all of them digits or ASCII letters.
pub open spec fn is_base62_text(s: Seq<char>) -> bool {
    s.len() > 0 && forall|i: int| 0 <= i < s.len() ==> is_base62(#[trigger] s[i])
}

/// The view of an optional text.
pub open spec fn opt_view(s: Option<String>) -> Option<Seq<char>> {
    match s {
        Some(t) => Some(t@),
        None => None,
    }
}

/// A key, or the reason why none was made.
pub type KeyResult = Result<String, String>;

/// The views of both sides of a result.
pub open spec fn result_view(r: KeyResult) -> Result<Seq<char>, Seq<char>> {
    match r {
        Ok(k) => Ok(k@),
        Err(e) => Err(e@),
    }
}

/// The key that is made where there is no other key yet.
pub open spec fn first_key() -> Result<Seq<char>, Seq<char>> {
    Ok("a0"@)
}

/// `a` sorts strictly before `b`.
pub open spec fn text_lt(a: Seq<char>, b: Seq<char>) -> bool {
    text_le(a, b) && a != b
}

/// `lexicon_fractional_index::key_between`. Keys of other characters than
/// digits and ASCII letters, and the empty key, are left out, since the crate
/// slices and looks up characters without testing for them. The contract
/// names the outcome, and states what the crate documents of a key that it
/// returns: it sorts after `a` and before `b`, and with both ends open it is
/// the key `a0`.
#[verifier::external_body]
pub(crate) fn key_between(a: &Option<String>, b: &Option<String>) -> (r: KeyResult)
    requires
        a matches Some(k) ==> is_base62_text(k@),
        b matches Some(k) ==> is_base62_text(k@),
    ensures
        result_view(r) == fractional_key_between(opt_view(*a), opt_view(*b)),
        r matches Ok(k) ==> (a matches Some(x) ==> text_lt(x@, k@)) && (b matches Some(y)
            ==> text_lt(k@, y@)),
        a is None && b is None ==> result_view(r) == first_key(),
{
    lexicon_fractional_index::key_between(a, b)
}

/// Whether `s` is made of digits and ASCII letters and is not empty.
pub fn is_order_key_text(s: &str) -> (r: bool)
    ensures
        r == is_base62_text(s@),
{
    let mut any = false;
    for c in it: s.chars()
        invariant
            it.seq() == s@,
            any == (it.index() > 0),
            forall|i: int| 0 <= i < it.index() ==> is_base62(#[trigger] s@[i]),
    {
        if !(('0' <= c && c <= '9') || ('A' <= c && c <= 'Z') || ('a' <= c && c <= 'z')) {
            return false;
        }
        any = true;
    }
    any
}

} // verus!
