//! Functions on text.

use crate::text::{
    alphabetic, char_from_u32, is_alphabetic, lowercase_text, push_char, titlecase_mapping,
    to_lowercase, to_titlecase, to_uppercase, uppercase_text,
};
use crate::values::array::Array;
use crate::values::repr::joined;
use crate::values::{CodeResult, RunError, RunErrorMsg, Span, Spanned};
use vstd::prelude::*;
use vstd::string::{StrSliceExecFns, StringExecFns, StringSliceAdditionalSpecFns};
use vstd::utf8::{encode_utf8, is_char_boundary, is_scalar};

verus! {

/// The error for an argument that a function cannot take.
pub open spec fn invalid_argument(span: Span) -> RunError {
    RunErrorMsg::InvalidArgument.spec_with_span(span)
}

/// The count that an optional argument asks for: one where it is left out,
/// none where it is negative or too large to count with.
pub open spec fn spec_count(arg: Option<Spanned<i64>>) -> Option<nat> {
    match arg {
        None => Some(1nat),
        Some(n) => if 0 <= n.inner <= usize::MAX {
            Some(n.inner as nat)
        } else {
            None
        },
    }
}

/// The first code point of a text.
pub fn unicode(span: Span, s: &str) -> (r: CodeResult<u32>)
    ensures
        s@.len() > 0 ==> r == Ok::<u32, RunError>(s@[0] as u32),
        s@.len() == 0 ==> r == Err::<u32, RunError>(invalid_argument(span)),
{
    if s.unicode_len() > 0 {
        Ok(s.get_char(0) as u32)
    } else {
        Err(RunErrorMsg::InvalidArgument.with_span(span))
    }
}

/// The character with the given code point. Zero, surrogates and values past
/// the last code point are refused.
pub fn unichar(span: Span, code_point: u32) -> (r: CodeResult<char>)
    ensures
        is_scalar(code_point) && code_point != 0 ==> r == Ok::<char, RunError>(code_point as char),
        !(is_scalar(code_point) && code_point != 0) ==> r == Err::<char, RunError>(
            invalid_argument(span),
        ),
{
    match char_from_u32(code_point) {
        Some(c) => {
            if code_point != 0 {
                Ok(c)
            } else {
                Err(RunErrorMsg::InvalidArgument.with_span(span))
            }
        },
        None => Err(RunErrorMsg::InvalidArgument.with_span(span)),
    }
}

/// A count from a number: the number itself, refused where it is negative or
/// does not fit.
pub fn clamp_i64_to_usize(value: Spanned<i64>) -> (r: CodeResult<usize>)
    ensures
        0 <= value.inner <= usize::MAX ==> r == Ok::<usize, RunError>(value.inner as usize),
        !(0 <= value.inner <= usize::MAX) ==> r == Err::<usize, RunError>(
            invalid_argument(value.span),
        ),
{
    if value.inner < 0 || value.inner as u64 > usize::MAX as u64 {
        Err(RunErrorMsg::InvalidArgument.with_span(value.span))
    } else {
        Ok(value.inner as usize)
    }
}

/// A zero-based index from a one-based number: the number less one, refused
/// where that is negative or does not fit.
pub fn clamp_i64_minus_1_to_usize(value: Spanned<i64>) -> (r: CodeResult<usize>)
    ensures
        1 <= value.inner && value.inner - 1 <= usize::MAX ==> r == Ok::<usize, RunError>(
            (value.inner - 1) as usize,
        ),
        !(1 <= value.inner && value.inner - 1 <= usize::MAX) ==> r == Err::<usize, RunError>(
            invalid_argument(value.span),
        ),
{
    let less = if value.inner == i64::MIN {
        i64::MIN
    } else {
        value.inner - 1
    };
    clamp_i64_to_usize(Spanned { span: value.span, inner: less })
}

/// The count that an optional argument asks for.
pub fn count_argument(arg: Option<Spanned<i64>>) -> (r: CodeResult<usize>)
    ensures
        spec_count(arg) matches Some(n) ==> r == Ok::<usize, RunError>(n as usize),
        spec_count(arg) is None ==> (arg matches Some(a) && r == Err::<usize, RunError>(
            invalid_argument(a.span),
        )),
{
    match arg {
        None => Ok(1),
        Some(n) => clamp_i64_to_usize(n),
    }
}

/// The last character boundary at or before `index`; the length of the text
/// where `index` is beyond it.
pub open spec fn spec_floor_boundary(bytes: Seq<u8>, index: int) -> int
    decreases index,
{
    if index >= bytes.len() {
        bytes.len() as int
    } else if index <= 0 || is_char_boundary(bytes, index) {
        index
    } else {
        spec_floor_boundary(bytes, index - 1)
    }
}

/// The first character boundary at or after `index`; the length of the text
/// where `index` is beyond it.
pub open spec fn spec_ceil_boundary(bytes: Seq<u8>, index: int) -> int
    decreases bytes.len() - index,
{
    if index >= bytes.len() {
        bytes.len() as int
    } else if is_char_boundary(bytes, index) {
        index
    } else {
        spec_ceil_boundary(bytes, index + 1)
    }
}

/// The floor boundary is a boundary at or before `index`, and no boundary
/// lies between the two.
pub proof fn lemma_floor_boundary(bytes: Seq<u8>, index: int)
    requires
        vstd::utf8::valid_utf8(bytes),
        0 <= index,
    ensures
        is_char_boundary(bytes, spec_floor_boundary(bytes, index)),
        0 <= spec_floor_boundary(bytes, index) <= bytes.len(),
        index < bytes.len() ==> spec_floor_boundary(bytes, index) <= index,
        forall|k: int|
            spec_floor_boundary(bytes, index) < k <= index && k < bytes.len()
                ==> !is_char_boundary(bytes, k),
    decreases index,
{
    vstd::utf8::is_char_boundary_start_end_of_seq(bytes);
    if index >= bytes.len() {
    } else if index <= 0 || is_char_boundary(bytes, index) {
    } else {
        lemma_floor_boundary(bytes, index - 1);
    }
}

/// The ceiling boundary is a boundary at or after `index`, and no boundary
/// lies between the two.
pub proof fn lemma_ceil_boundary(bytes: Seq<u8>, index: int)
    requires
        vstd::utf8::valid_utf8(bytes),
        0 <= index,
    ensures
        is_char_boundary(bytes, spec_ceil_boundary(bytes, index)),
        0 <= spec_ceil_boundary(bytes, index) <= bytes.len(),
        index <= bytes.len() ==> index <= spec_ceil_boundary(bytes, index),
        forall|k: int| index <= k < spec_ceil_boundary(bytes, index) ==> !is_char_boundary(bytes, k),
    decreases bytes.len() - index,
{
    vstd::utf8::is_char_boundary_start_end_of_seq(bytes);
    if index >= bytes.len() {
    } else if is_char_boundary(bytes, index) {
    } else {
        lemma_ceil_boundary(bytes, index + 1);
    }
}

/// The last character boundary of `s` at or before `byte_index`.
pub fn floor_char_boundary(s: &str, byte_index: usize) -> (r: usize)
    ensures
        r == spec_floor_boundary(s.spec_bytes(), byte_index as int),
        r <= s.spec_bytes().len(),
        is_char_boundary(s.spec_bytes(), r as int),
{
    proof {
        vstd::utf8::encode_utf8_valid_utf8(s@);
        lemma_floor_boundary(s.spec_bytes(), byte_index as int);
    }
    let n = s.as_bytes().len();
    if byte_index >= n {
        n
    } else {
        let mut i = byte_index;
        while i > 0 && !s.is_char_boundary(i)
            invariant
                i <= byte_index < s.spec_bytes().len(),
                spec_floor_boundary(s.spec_bytes(), i as int) == spec_floor_boundary(
                    s.spec_bytes(),
                    byte_index as int,
                ),
            decreases i,
        {
            i -= 1;
        }
        i
    }
}

/// The first character boundary of `s` at or after `byte_index`.
pub fn ceil_char_boundary(s: &str, byte_index: usize) -> (r: usize)
    ensures
        r == spec_ceil_boundary(s.spec_bytes(), byte_index as int),
        r <= s.spec_bytes().len(),
        is_char_boundary(s.spec_bytes(), r as int),
{
    proof {
        vstd::utf8::encode_utf8_valid_utf8(s@);
        lemma_ceil_boundary(s.spec_bytes(), byte_index as int);
    }
    let n = s.as_bytes().len();
    if byte_index >= n {
        n
    } else {
        let mut i = byte_index;
        while i < n && !s.is_char_boundary(i)
            invariant
                byte_index <= i <= n,
                n == s.spec_bytes().len(),
                spec_ceil_boundary(s.spec_bytes(), i as int) == spec_ceil_boundary(
                    s.spec_bytes(),
                    byte_index as int,
                ),
            decreases n - i,
        {
            i += 1;
        }
        i
    }
}

/// Whether `CLEAN` keeps the character: everything from the space upward.
pub open spec fn printable(c: char) -> bool {
    c as u32 >= 0x20
}

/// The text without its control characters below the space.
pub open spec fn spec_clean(s: Seq<char>) -> Seq<char> {
    s.filter(|c: char| printable(c))
}

/// Removes the control characters below the space: tabs and newlines go,
/// spaces stay.
pub fn clean(s: &str) -> (r: String)
    ensures
        r@ == spec_clean(s@),
{
    let mut out = String::new();
    for c in it: s.chars()
        invariant
            it.seq() == s@,
            out@ == spec_clean(s@.take(it.index())),
    {
        proof {
            let k = it.index();
            assert(s@.take(k + 1).drop_last() == s@.take(k));
            reveal(Seq::filter);
        }
        if c as u32 >= 0x20 {
            push_char(&mut out, c);
        }
    }
    assert(s@.take(s@.len() as int) == s@);
    out
}

/// The lesser of a count and a length.
pub open spec fn at_most(n: nat, len: nat) -> int {
    if n <= len {
        n as int
    } else {
        len as int
    }
}

/// The first `n` characters, or all of them where there are fewer.
pub open spec fn spec_left(s: Seq<char>, n: nat) -> Seq<char> {
    s.take(at_most(n, s.len()))
}

/// The last `n` characters, or all of them where there are fewer.
pub open spec fn spec_right(s: Seq<char>, n: nat) -> Seq<char> {
    s.skip(s.len() - at_most(n, s.len()))
}

/// The bytes of the longest whole-character prefix of at most `n` bytes.
pub open spec fn spec_leftb(bytes: Seq<u8>, n: nat) -> Seq<u8> {
    bytes.take(spec_floor_boundary(bytes, n as int))
}

/// The bytes of the longest whole-character suffix of at most `n` bytes.
pub open spec fn spec_rightb(bytes: Seq<u8>, n: nat) -> Seq<u8> {
    bytes.skip(spec_ceil_boundary(bytes, bytes.len() - at_most(n, bytes.len())))
}

/// `LEFT`: the first `char_count` characters of `s`, one where the count is
/// left out, all of `s` where it has fewer. A negative count is refused.
pub fn left(s: &str, char_count: Option<Spanned<i64>>) -> (r: CodeResult<String>)
    ensures
        spec_count(char_count) matches Some(n) ==> (r matches Ok(t) && t@ == spec_left(s@, n)),
        spec_count(char_count) is None ==> (char_count matches Some(a) && r == Err::<
            String,
            RunError,
        >(invalid_argument(a.span))),
{
    let n = count_argument(char_count)?;
    let len = s.unicode_len();
    let end = if n <= len {
        n
    } else {
        len
    };
    Ok(s.substring_char(0, end).to_owned())
}

/// `RIGHT`: the last `char_count` characters of `s`, one where the count is
/// left out, all of `s` where it has fewer. A negative count is refused.
pub fn right(s: &str, char_count: Option<Spanned<i64>>) -> (r: CodeResult<String>)
    ensures
        spec_count(char_count) matches Some(n) ==> (r matches Ok(t) && t@ == spec_right(s@, n)),
        spec_count(char_count) is None ==> (char_count matches Some(a) && r == Err::<
            String,
            RunError,
        >(invalid_argument(a.span))),
{
    let n = count_argument(char_count)?;
    let len = s.unicode_len();
    let start = if n <= len {
        len - n
    } else {
        0
    };
    Ok(s.substring_char(start, len).to_owned())
}

/// `LEFTB`: the longest prefix of `s` that takes at most `byte_count` bytes
/// in UTF-8 and ends between two characters. The count is one where it is
/// left out; a negative count is refused.
pub fn leftb(s: &str, byte_count: Option<Spanned<i64>>) -> (r: CodeResult<String>)
    ensures
        spec_count(byte_count) matches Some(n) ==> (r matches Ok(t) && encode_utf8(t@)
            == spec_leftb(encode_utf8(s@), n)),
        spec_count(byte_count) is None ==> (byte_count matches Some(a) && r == Err::<
            String,
            RunError,
        >(invalid_argument(a.span))),
{
    let n = count_argument(byte_count)?;
    let k = floor_char_boundary(s, n);
    let (head, _) = s.split_at(k);
    Ok(head.to_owned())
}

/// `RIGHTB`: the longest suffix of `s` that takes at most `byte_count` bytes
/// in UTF-8 and starts between two characters. The count is one where it is
/// left out; a negative count is refused.
pub fn rightb(s: &str, byte_count: Option<Spanned<i64>>) -> (r: CodeResult<String>)
    ensures
        spec_count(byte_count) matches Some(n) ==> (r matches Ok(t) && encode_utf8(t@)
            == spec_rightb(encode_utf8(s@), n)),
        spec_count(byte_count) is None ==> (byte_count matches Some(a) && r == Err::<
            String,
            RunError,
        >(invalid_argument(a.span))),
{
    let n = count_argument(byte_count)?;
    let len = s.as_bytes().len();
    let byte_index = if n <= len {
        len - n
    } else {
        0
    };
    let k = ceil_char_boundary(s, byte_index);
    let (_, tail) = s.split_at(k);
    Ok(tail.to_owned())
}

/// `LEN`: the number of characters (Unicode code points) of `s`.
pub fn len(s: &str) -> (n: usize)
    ensures
        n == s@.len(),
{
    s.unicode_len()
}

/// `LENB`: the number of bytes of `s` in UTF-8.
pub fn lenb(s: &str) -> (n: usize)
    ensures
        n == encode_utf8(s@).len(),
{
    s.as_bytes().len()
}

/// `LOWER`: the lowercase form of `s`.
pub fn lower(s: &str) -> (r: String)
    ensures
        r@ == lowercase_text(s@),
{
    to_lowercase(s)
}

/// `UPPER`: the uppercase form of `s`.
pub fn upper(s: &str) -> (r: String)
    ensures
        r@ == uppercase_text(s@),
{
    to_uppercase(s)
}

/// `EXACT`: whether two texts are the same, character for character.
pub fn exact(s1: &str, s2: &str) -> (b: bool)
    ensures
        b == (s1@ == s2@),
{
    let a = s1.to_owned();
    let b = s2.to_owned();
    a == b
}

/// All the texts one after the other.
pub open spec fn spec_concat(parts: Seq<String>) -> Seq<char>
    decreases parts.len(),
{
    if parts.len() == 0 {
        Seq::empty()
    } else {
        spec_concat(parts.drop_last()) + parts.last()@
    }
}

/// `CONCAT` and `CONCATENATE`: all the texts one after the other.
pub fn concatenate(strings: &Vec<String>) -> (r: String)
    ensures
        r@ == spec_concat(strings@),
{
    let mut out = String::new();
    let mut i: usize = 0;
    while i < strings.len()
        invariant
            i <= strings@.len(),
            out@ == spec_concat(strings@.take(i as int)),
        decreases strings.len() - i,
    {
        out.append(strings[i].as_str());
        i += 1;
        assert(strings@.take(i as int).drop_last() == strings@.take(i - 1));
    }
    assert(strings@.take(strings@.len() as int) == strings@);
    out
}

/// The character with code point `v` as a text; nothing where `v` is zero or
/// no code point.
pub open spec fn code_point_text(v: u32) -> Seq<char> {
    if v != 0 && is_scalar(v) {
        seq![v as char]
    } else {
        Seq::empty()
    }
}

/// The characters that a titlecase mapping of three places stands for.
pub open spec fn mapped_chars(mapping: Seq<u32>) -> Seq<char> {
    code_point_text(mapping[0]) + code_point_text(mapping[1]) + code_point_text(mapping[2])
}

/// The titlecase form of one character.
pub open spec fn titled(c: char) -> Seq<char> {
    if titlecase_mapping(c) == seq![0u32, 0u32, 0u32] {
        seq![c]
    } else {
        mapped_chars(titlecase_mapping(c))
    }
}

/// The text with every character in titlecase that does not follow a letter;
/// `prev` is the character before the text.
pub open spec fn spec_proper_after(s: Seq<char>, prev: char) -> Seq<char>
    decreases s.len(),
{
    if s.len() == 0 {
        Seq::empty()
    } else {
        let before = if s.len() == 1 {
            prev
        } else {
            s[s.len() - 2]
        };
        let head = spec_proper_after(s.drop_last(), prev);
        if alphabetic(before) {
            head.push(s.last())
        } else {
            head + titled(s.last())
        }
    }
}

/// `PROPER` in terms of the case tables: the lowercase form of `s`, with
/// every character in titlecase that does not follow a letter.
pub open spec fn spec_proper(s: Seq<char>) -> Seq<char> {
    spec_proper_after(lowercase_text(s), '\0')
}

/// Appends the titlecase form of `c` to `out`.
fn push_titled(out: &mut String, c: char)
    ensures
        final(out)@ == old(out)@ + titled(c),
{
    let m = to_titlecase(c);
    if m.0 == 0 && m.1 == 0 && m.2 == 0 {
        push_char(out, c);
        assert(old(out)@.push(c) == old(out)@ + seq![c]);
    } else {
        let ghost start = out@;
        push_code_point(out, m.0);
        push_code_point(out, m.1);
        push_code_point(out, m.2);
        assert(out@ == start + mapped_chars(seq![m.0, m.1, m.2]));
    }
}

/// Appends the character with code point `v`, where there is one and it is
/// not zero.
fn push_code_point(out: &mut String, v: u32)
    ensures
        final(out)@ == old(out)@ + code_point_text(v),
{
    if v != 0 {
        match char_from_u32(v) {
            Some(c) => {
                push_char(out, c);
            },
            None => {},
        }
    }
}

/// `PROPER`: capitalizes the letters that do not follow another letter, and
/// lowercases the rest.
pub fn proper(s: &str) -> (r: String)
    ensures
        r@ == spec_proper(s@),
{
    let lowered = to_lowercase(s);
    let mut last_char = '\0';
    let mut out = String::new();
    let text = lowered.as_str();
    for c in it: text.chars()
        invariant
            it.seq() == text@,
            out@ == spec_proper_after(text@.take(it.index()), '\0'),
            it.index() == 0 ==> last_char == '\0',
            it.index() > 0 ==> last_char == text@[it.index() - 1],
    {
        proof {
            let k = it.index();
            assert(text@.take(k + 1).drop_last() == text@.take(k));
        }
        if is_alphabetic(last_char) {
            push_char(&mut out, c);
        } else {
            push_titled(&mut out, c);
        }
        last_char = c;
    }
    assert(text@.take(text@.len() as int) == text@);
    out
}

/// What `ARRAYTOTEXT` makes of an array, given the text it has for reading
/// and its spelling in a formula: the first where `format` is left out or 0,
/// the second where it is 1, nothing for any other `format`.
pub open spec fn spec_array_to_text(
    shown: Seq<char>,
    spelled: Seq<char>,
    format: Option<Spanned<i64>>,
) -> Option<Seq<char>> {
    match format {
        None => Some(shown),
        Some(f) => if f.inner == 0 {
            Some(shown)
        } else if f.inner == 1 {
            Some(spelled)
        } else {
            None
        },
    }
}

/// `ARRAYTOTEXT`: the array as one text. With `format` left out or 0 it is
/// the texts that the cells show, parted by commas; with `format` 1 it is
/// the array as a formula would spell it. Any other `format` is refused.
pub fn array_to_text(array: &Array, format: Option<Spanned<i64>>) -> (r: CodeResult<String>)
    requires
        array.wf(),
    ensures
        match spec_array_to_text(joined(array.shown(), ", "@), array.spec_repr(), format) {
            Some(text) => (r matches Ok(t) && t@ == text),
            None => (format matches Some(f) && r == Err::<String, RunError>(
                invalid_argument(f.span),
            )),
        },
{
    match format {
        None => Ok(array.to_display()),
        Some(f) => if f.inner == 0 {
            Ok(array.to_display())
        } else if f.inner == 1 {
            Ok(array.repr())
        } else {
            Err(RunErrorMsg::InvalidArgument.with_span(f.span))
        },
    }
}


/// The functions on text that a formula can call.
#[derive(Clone, Copy, Debug, PartialEq, Eq, Hash, Structural)]
pub enum StringFunction {
    /// `ARRAYTOTEXT`: an array as one text, for reading or in the spelling of a formula.
    ArrayToText,
    /// `CONCATENATE`: the same as `CONCAT`.
    Concatenate,
    /// `CONCAT`: all the texts one after the other.
    Concat,
    /// `LEFT`: the first characters of a text.
    Left,
    /// `LEFTB`: the first bytes of a text, cut between two characters.
    Leftb,
    /// `RIGHT`: the last characters of a text.
    Right,
    /// `RIGHTB`: the last bytes of a text, cut between two characters.
    Rightb,
    /// `LEN`: the number of characters of a text.
    Len,
    /// `LENB`: the number of bytes of a text in UTF-8.
    Lenb,
    /// `UNICODE`: the code point of the first character of a text.
    Unicode,
    /// `CODE`: the same as `UNICODE`.
    Code,
    /// `UNICHAR`: the character with a given code point.
    Unichar,
    /// `CHAR`: the same as `UNICHAR`.
    Char,
    /// `CLEAN`: a text without its control characters.
    Clean,
    /// `LOWER`: a text in lower case.
    Lower,
    /// `UPPER`: a text in upper case.
    Upper,
    /// `PROPER`: a text with every word capitalized.
    Proper,
    /// `EXACT`: whether two texts are the same, letter for letter.
    Exact,
}

impl StringFunction {
    /// The name by which a formula calls the function.
    pub open spec fn spec_name(self) -> Seq<char> {
        match self {
            StringFunction::ArrayToText => "ARRAYTOTEXT"@,
            StringFunction::Concatenate => "CONCATENATE"@,
            StringFunction::Concat => "CONCAT"@,
            StringFunction::Left => "LEFT"@,
            StringFunction::Leftb => "LEFTB"@,
            StringFunction::Right => "RIGHT"@,
            StringFunction::Rightb => "RIGHTB"@,
            StringFunction::Len => "LEN"@,
            StringFunction::Lenb => "LENB"@,
            StringFunction::Unicode => "UNICODE"@,
            StringFunction::Code => "CODE"@,
            StringFunction::Unichar => "UNICHAR"@,
            StringFunction::Char => "CHAR"@,
            StringFunction::Clean => "CLEAN"@,
            StringFunction::Lower => "LOWER"@,
            StringFunction::Upper => "UPPER"@,
            StringFunction::Proper => "PROPER"@,
            StringFunction::Exact => "EXACT"@,
        }
    }

    /// The least number of arguments that the function takes.
    pub open spec fn spec_min_args(self) -> nat {
        match self {
            StringFunction::Concatenate | StringFunction::Concat => 0,
            StringFunction::Exact => 2,
            _ => 1,
        }
    }

    /// The greatest number of arguments that the function takes, if there is
    /// one.
    pub open spec fn spec_max_args(self) -> Option<nat> {
        match self {
            StringFunction::Concatenate | StringFunction::Concat => None,
            StringFunction::ArrayToText
            | StringFunction::Left
            | StringFunction::Leftb
            | StringFunction::Right
            | StringFunction::Rightb
            | StringFunction::Exact => Some(2nat),
            _ => Some(1nat),
        }
    }

    /// Whether the function can be called with `n` arguments.
    pub open spec fn takes(self, n: nat) -> bool {
        self.spec_min_args() <= n && (self.spec_max_args() matches Some(most) ==> n <= most)
    }

    /// Whether the function works on single cells, and is applied cell by
    /// cell where an argument is an array.
    pub open spec fn cell_by_cell(self) -> bool {
        !(self is ArrayToText || self is Concatenate || self is Concat)
    }

    /// The name by which a formula calls the function.
    pub fn name(self) -> (r: &'static str)
        ensures
            r@ == self.spec_name(),
    {
        match self {
            StringFunction::ArrayToText => "ARRAYTOTEXT",
            StringFunction::Concatenate => "CONCATENATE",
            StringFunction::Concat => "CONCAT",
            StringFunction::Left => "LEFT",
            StringFunction::Leftb => "LEFTB",
            StringFunction::Right => "RIGHT",
            StringFunction::Rightb => "RIGHTB",
            StringFunction::Len => "LEN",
            StringFunction::Lenb => "LENB",
            StringFunction::Unicode => "UNICODE",
            StringFunction::Code => "CODE",
            StringFunction::Unichar => "UNICHAR",
            StringFunction::Char => "CHAR",
            StringFunction::Clean => "CLEAN",
            StringFunction::Lower => "LOWER",
            StringFunction::Upper => "UPPER",
            StringFunction::Proper => "PROPER",
            StringFunction::Exact => "EXACT",
        }
    }

    /// The least number of arguments that the function takes.
    pub fn min_args(self) -> (n: usize)
        ensures
            n == self.spec_min_args(),
    {
        match self {
            StringFunction::Concatenate | StringFunction::Concat => 0,
            StringFunction::Exact => 2,
            _ => 1,
        }
    }

    /// The greatest number of arguments that the function takes, if there is
    /// one.
    pub fn max_args(self) -> (r: Option<usize>)
        ensures
            r is Some == self.spec_max_args() is Some,
            r matches Some(n) ==> self.spec_max_args() == Some(n as nat),
    {
        match self {
            StringFunction::Concatenate | StringFunction::Concat => None,
            StringFunction::ArrayToText
            | StringFunction::Left
            | StringFunction::Leftb
            | StringFunction::Right
            | StringFunction::Rightb
            | StringFunction::Exact => Some(2),
            _ => Some(1),
        }
    }

    /// Whether the function can be called with `n` arguments.
    pub fn accepts(self, n: usize) -> (b: bool)
        ensures
            b == self.takes(n as nat),
    {
        n >= self.min_args() && match self.max_args() {
            Some(most) => n <= most,
            None => true,
        }
    }

    /// Whether the function is applied cell by cell.
    pub fn is_cell_by_cell(self) -> (b: bool)
        ensures
            b == self.cell_by_cell(),
    {
        match self {
            StringFunction::ArrayToText | StringFunction::Concatenate | StringFunction::Concat => false,
            _ => true,
        }
    }
}

/// The functions on text, in the order in which they are documented.
pub open spec fn all_functions() -> Seq<StringFunction> {
    seq![
        StringFunction::ArrayToText,
        StringFunction::Concatenate,
        StringFunction::Concat,
        StringFunction::Left,
        StringFunction::Leftb,
        StringFunction::Right,
        StringFunction::Rightb,
        StringFunction::Len,
        StringFunction::Lenb,
        StringFunction::Unicode,
        StringFunction::Code,
        StringFunction::Unichar,
        StringFunction::Char,
        StringFunction::Clean,
        StringFunction::Lower,
        StringFunction::Upper,
        StringFunction::Proper,
        StringFunction::Exact,
    ]
}

/// The functions on text, in the order in which they are documented.
pub fn get_functions() -> (r: Vec<StringFunction>)
    ensures
        r@ == all_functions(),
{
    let mut list: Vec<StringFunction> = Vec::new();
    list.push(StringFunction::ArrayToText);
    list.push(StringFunction::Concatenate);
    list.push(StringFunction::Concat);
    list.push(StringFunction::Left);
    list.push(StringFunction::Leftb);
    list.push(StringFunction::Right);
    list.push(StringFunction::Rightb);
    list.push(StringFunction::Len);
    list.push(StringFunction::Lenb);
    list.push(StringFunction::Unicode);
    list.push(StringFunction::Code);
    list.push(StringFunction::Unichar);
    list.push(StringFunction::Char);
    list.push(StringFunction::Clean);
    list.push(StringFunction::Lower);
    list.push(StringFunction::Upper);
    list.push(StringFunction::Proper);
    list.push(StringFunction::Exact);
    assert(list@ =~= all_functions());
    list
}

/// Every function on text is in the list.
pub proof fn lemma_all_functions(f: StringFunction)
    ensures
        all_functions().contains(f),
{
    let k: int = match f {
        StringFunction::ArrayToText => 0,
        StringFunction::Concatenate => 1,
        StringFunction::Concat => 2,
        StringFunction::Left => 3,
        StringFunction::Leftb => 4,
        StringFunction::Right => 5,
        StringFunction::Rightb => 6,
        StringFunction::Len => 7,
        StringFunction::Lenb => 8,
        StringFunction::Unicode => 9,
        StringFunction::Code => 10,
        StringFunction::Unichar => 11,
        StringFunction::Char => 12,
        StringFunction::Clean => 13,
        StringFunction::Lower => 14,
        StringFunction::Upper => 15,
        StringFunction::Proper => 16,
        StringFunction::Exact => 17,
    };
    assert(all_functions()[k] == f);
}

/// No two functions on text have one name.
pub proof fn lemma_names_differ(f: StringFunction, g: StringFunction)
    requires
        f.spec_name() == g.spec_name(),
    ensures
        f == g,
{
    reveal_strlit("ARRAYTOTEXT");
    reveal_strlit("CONCATENATE");
    reveal_strlit("CONCAT");
    reveal_strlit("LEFT");
    reveal_strlit("LEFTB");
    reveal_strlit("RIGHT");
    reveal_strlit("RIGHTB");
    reveal_strlit("LEN");
    reveal_strlit("LENB");
    reveal_strlit("UNICODE");
    reveal_strlit("CODE");
    reveal_strlit("UNICHAR");
    reveal_strlit("CHAR");
    reveal_strlit("CLEAN");
    reveal_strlit("LOWER");
    reveal_strlit("UPPER");
    reveal_strlit("PROPER");
    reveal_strlit("EXACT");
    let a = f.spec_name();
    let b = g.spec_name();
    match f {
        StringFunction::ArrayToText => {
            assert(a.len() == 11 && a[0] == 'A' && a[1] == 'R' && a[2] == 'R' && a[4] == 'Y');
        },
        StringFunction::Concatenate => {
            assert(a.len() == 11 && a[0] == 'C' && a[1] == 'O' && a[2] == 'N' && a[4] == 'A');
        },
        StringFunction::Concat => {
            assert(a.len() == 6 && a[0] == 'C' && a[1] == 'O' && a[2] == 'N' && a[4] == 'A');
        },
        StringFunction::Left => {
            assert(a.len() == 4 && a[0] == 'L' && a[1] == 'E' && a[2] == 'F');
        },
        StringFunction::Leftb => {
            assert(a.len() == 5 && a[0] == 'L' && a[1] == 'E' && a[2] == 'F' && a[4] == 'B');
        },
        StringFunction::Right => {
            assert(a.len() == 5 && a[0] == 'R' && a[1] == 'I' && a[2] == 'G' && a[4] == 'T');
        },
        StringFunction::Rightb => {
            assert(a.len() == 6 && a[0] == 'R' && a[1] == 'I' && a[2] == 'G' && a[4] == 'T');
        },
        StringFunction::Len => {
            assert(a.len() == 3 && a[0] == 'L' && a[1] == 'E' && a[2] == 'N');
        },
        StringFunction::Lenb => {
            assert(a.len() == 4 && a[0] == 'L' && a[1] == 'E' && a[2] == 'N');
        },
        StringFunction::Unicode => {
            assert(a.len() == 7 && a[0] == 'U' && a[1] == 'N' && a[2] == 'I' && a[4] == 'O');
        },
        StringFunction::Code => {
            assert(a.len() == 4 && a[0] == 'C' && a[1] == 'O' && a[2] == 'D');
        },
        StringFunction::Unichar => {
            assert(a.len() == 7 && a[0] == 'U' && a[1] == 'N' && a[2] == 'I' && a[4] == 'H');
        },
        StringFunction::Char => {
            assert(a.len() == 4 && a[0] == 'C' && a[1] == 'H' && a[2] == 'A');
        },
        StringFunction::Clean => {
            assert(a.len() == 5 && a[0] == 'C' && a[1] == 'L' && a[2] == 'E' && a[4] == 'N');
        },
        StringFunction::Lower => {
            assert(a.len() == 5 && a[0] == 'L' && a[1] == 'O' && a[2] == 'W' && a[4] == 'R');
        },
        StringFunction::Upper => {
            assert(a.len() == 5 && a[0] == 'U' && a[1] == 'P' && a[2] == 'P' && a[4] == 'R');
        },
        StringFunction::Proper => {
            assert(a.len() == 6 && a[0] == 'P' && a[1] == 'R' && a[2] == 'O' && a[4] == 'E');
        },
        StringFunction::Exact => {
            assert(a.len() == 5 && a[0] == 'E' && a[1] == 'X' && a[2] == 'A' && a[4] == 'T');
        },
    }
    match g {
        StringFunction::ArrayToText => {
            assert(b.len() == 11 && b[0] == 'A' && b[1] == 'R' && b[2] == 'R' && b[4] == 'Y');
        },
        StringFunction::Concatenate => {
            assert(b.len() == 11 && b[0] == 'C' && b[1] == 'O' && b[2] == 'N' && b[4] == 'A');
        },
        StringFunction::Concat => {
            assert(b.len() == 6 && b[0] == 'C' && b[1] == 'O' && b[2] == 'N' && b[4] == 'A');
        },
        StringFunction::Left => {
            assert(b.len() == 4 && b[0] == 'L' && b[1] == 'E' && b[2] == 'F');
        },
        StringFunction::Leftb => {
            assert(b.len() == 5 && b[0] == 'L' && b[1] == 'E' && b[2] == 'F' && b[4] == 'B');
        },
        StringFunction::Right => {
            assert(b.len() == 5 && b[0] == 'R' && b[1] == 'I' && b[2] == 'G' && b[4] == 'T');
        },
        StringFunction::Rightb => {
            assert(b.len() == 6 && b[0] == 'R' && b[1] == 'I' && b[2] == 'G' && b[4] == 'T');
        },
        StringFunction::Len => {
            assert(b.len() == 3 && b[0] == 'L' && b[1] == 'E' && b[2] == 'N');
        },
        StringFunction::Lenb => {
            assert(b.len() == 4 && b[0] == 'L' && b[1] == 'E' && b[2] == 'N');
        },
        StringFunction::Unicode => {
            assert(b.len() == 7 && b[0] == 'U' && b[1] == 'N' && b[2] == 'I' && b[4] == 'O');
        },
        StringFunction::Code => {
            assert(b.len() == 4 && b[0] == 'C' && b[1] == 'O' && b[2] == 'D');
        },
        StringFunction::Unichar => {
            assert(b.len() == 7 && b[0] == 'U' && b[1] == 'N' && b[2] == 'I' && b[4] == 'H');
        },
        StringFunction::Char => {
            assert(b.len() == 4 && b[0] == 'C' && b[1] == 'H' && b[2] == 'A');
        },
        StringFunction::Clean => {
            assert(b.len() == 5 && b[0] == 'C' && b[1] == 'L' && b[2] == 'E' && b[4] == 'N');
        },
        StringFunction::Lower => {
            assert(b.len() == 5 && b[0] == 'L' && b[1] == 'O' && b[2] == 'W' && b[4] == 'R');
        },
        StringFunction::Upper => {
            assert(b.len() == 5 && b[0] == 'U' && b[1] == 'P' && b[2] == 'P' && b[4] == 'R');
        },
        StringFunction::Proper => {
            assert(b.len() == 6 && b[0] == 'P' && b[1] == 'R' && b[2] == 'O' && b[4] == 'E');
        },
        StringFunction::Exact => {
            assert(b.len() == 5 && b[0] == 'E' && b[1] == 'X' && b[2] == 'A' && b[4] == 'T');
        },
    }
}

/// The function on text that a formula calls by `name`, if there is one.
pub fn lookup(name: &str) -> (r: Option<StringFunction>)
    ensures
        r matches Some(f) ==> f.spec_name() == name@,
        r is None ==> forall|f: StringFunction| f.spec_name() != name@,
{
    let list = get_functions();
    let mut i: usize = 0;
    while i < list.len()
        invariant
            i <= list@.len(),
            list@ == all_functions(),
            forall|j: int| 0 <= j < i ==> (#[trigger] list@[j]).spec_name() != name@,
        decreases list.len() - i,
    {
        let f = list[i];
        if exact(f.name(), name) {
            return Some(f);
        }
        i += 1;
    }
    proof {
        assert forall|f: StringFunction| f.spec_name() != name@ by {
            lemma_all_functions(f);
        }
    }
    None
}

} // verus!
