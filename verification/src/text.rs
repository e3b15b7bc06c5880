//! Operations on text that the standard library and Unicode tables provide.

use vstd::prelude::*;
use vstd::utf8::is_scalar;

verus! {

/// The lowercase form of a text.
pub uninterp spec fn lowercase_text(s: Seq<char>) -> Seq<char>;

/// The uppercase form of a text.
pub uninterp spec fn uppercase_text(s: Seq<char>) -> Seq<char>;

/// Whether a character is alphabetic in Unicode.
pub uninterp spec fn alphabetic(c: char) -> bool;

/// The three code points of the titlecase form of a character, unused places
/// zero; all zero where the character is its own titlecase form.
pub uninterp spec fn titlecase_mapping(c: char) -> Seq<u32>;

/// A text between double quotes, with the characters escaped that a quoted
/// literal cannot hold as they are.
pub uninterp spec fn quoted_text(s: Seq<char>) -> Seq<char>;

/// `String::push`: appends one character.
#[verifier::external_body]
pub(crate) fn push_char(s: &mut String, c: char)
    ensures
        final(s)@ == old(s)@.push(c),
{
    s.push(c)
}

/// `str::to_lowercase`. The contract names the result and claims nothing of
/// its characters.
#[verifier::external_body]
pub(crate) fn to_lowercase(s: &str) -> (r: String)
    ensures
        r@ == lowercase_text(s@),
{
    s.to_lowercase()
}

/// `str::to_uppercase`. The contract names the result and claims nothing of
/// its characters.
#[verifier::external_body]
pub(crate) fn to_uppercase(s: &str) -> (r: String)
    ensures
        r@ == uppercase_text(s@),
{
    s.to_uppercase()
}

/// `char::is_alphabetic`. The contract names the result.
#[verifier::external_body]
pub(crate) fn is_alphabetic(c: char) -> (b: bool)
    ensures
        b == alphabetic(c),
{
    c.is_alphabetic()
}

/// `char::from_u32`: the character with code point `v`, where `v` is a
/// Unicode scalar value, and `None` for surrogates and values past the last
/// code point.
#[verifier::external_body]
pub(crate) fn char_from_u32(v: u32) -> (r: Option<char>)
    ensures
        is_scalar(v) ==> r == Some(v as char),
        !is_scalar(v) ==> r is None,
{
    char::from_u32(v)
}

/// `unicode_case_mapping::to_titlecase`: the titlecase form of `c` as up to
/// three code points. The contract names the result and states its length.
#[verifier::external_body]
pub(crate) fn to_titlecase(c: char) -> (r: (u32, u32, u32))
    ensures
        titlecase_mapping(c) == seq![r.0, r.1, r.2],
{
    let m = unicode_case_mapping::to_titlecase(c);
    (m[0], m[1], m[2])
}

/// The `Debug` form of a `str`, as `format!("{:?}", s)` gives it. The
/// contract names the result.
#[verifier::external_body]
pub(crate) fn quote(s: &str) -> (r: String)
    ensures
        r@ == quoted_text(s@),
{
    format!("{:?}", s)
}

} // verus!
