//! What a function's arguments are taken for, and what a call comes to.

use crate::formulas::functions::string::invalid_argument;
use crate::values::decimal::{int_text, parse_i64, text_i64, u128_to_string, Decimal};
use crate::values::isblank::IsBlank;
use crate::values::{CellValue, CodeResult, RunError, RunErrorMsg, Span, Spanned};
use vstd::prelude::*;
use vstd::string::StringExecFns;
use vstd::utf8::encode_utf8;

verus! {

/// What a call comes to, with every text given by its characters.
pub ghost enum Outcome {
    /// A text.
    Text(Seq<char>),
    /// A text, given by its bytes in UTF-8.
    Encoded(Seq<u8>),
    /// A whole number.
    Number(int),
    /// A truth value.
    Logical(bool),
    /// An argument that the function cannot take.
    Invalid(Span),
    /// Too few or too many arguments.
    BadCount(Span),
    /// An argument of another kind than the one expected.
    Mismatch { span: Span, expected: Seq<char>, got: Seq<char> },
    /// An error that an argument held.
    Raised(RunError),
}

impl Outcome {
    /// Whether the call fails.
    pub open spec fn fails(self) -> bool {
        self is Invalid || self is BadCount || self is Mismatch || self is Raised
    }

    /// Whether the call fails with `e`.
    pub open spec fn is_error(self, e: RunError) -> bool {
        match self {
            Outcome::Invalid(span) => e == invalid_argument(span),
            Outcome::BadCount(span) => e == RunErrorMsg::BadArgumentCount.spec_with_span(span),
            Outcome::Mismatch { span, expected, got } => e.span == Some(span) && e.msg.is_expected(
                expected,
                got,
            ),
            Outcome::Raised(raised) => e == raised,
            _ => false,
        }
    }

    /// Whether the call gives `v`.
    pub open spec fn is_value(self, v: CellValue) -> bool {
        match self {
            Outcome::Text(t) => (v matches CellValue::Text(s) && s@ == t),
            Outcome::Encoded(bytes) => (v matches CellValue::Text(s) && encode_utf8(s@) == bytes),
            Outcome::Number(n) => (v matches CellValue::Number(d) && d@ == int_text(n)),
            Outcome::Logical(b) => v == CellValue::Logical(b),
            _ => false,
        }
    }

    /// Whether `r` is what the call returns.
    pub open spec fn describes(self, r: CodeResult<CellValue>) -> bool {
        match r {
            Ok(v) => self.is_value(v),
            Err(e) => self.is_error(e),
        }
    }
}

/// The name of a value's kind in the words of an error.
pub open spec fn cell_kind(v: CellValue) -> Seq<char> {
    match v {
        CellValue::Blank => "blank"@,
        CellValue::Text(_) => "text"@,
        CellValue::Number(_) => "number"@,
        CellValue::Html(_) => "html"@,
        CellValue::Code(_) => "code"@,
        CellValue::Logical(_) => "boolean"@,
        CellValue::Instant(_) => "time instant"@,
        CellValue::Duration(_) => "duration"@,
        CellValue::Error(_) => "error"@,
    }
}

/// The name of a value's kind in the words of an error.
pub fn kind_name(v: &CellValue) -> (r: &'static str)
    ensures
        r@ == cell_kind(*v),
{
    match v {
        CellValue::Blank => "blank",
        CellValue::Text(_) => "text",
        CellValue::Number(_) => "number",
        CellValue::Html(_) => "html",
        CellValue::Code(_) => "code",
        CellValue::Logical(_) => "boolean",
        CellValue::Instant(_) => "time instant",
        CellValue::Duration(_) => "duration",
        CellValue::Error(_) => "error",
    }
}

/// The error for a value of kind `got` where one of kind `expected` was
/// asked for.
pub fn mismatch(span: Span, expected: &str, got: &str) -> (e: RunError)
    ensures
        e.span == Some(span),
        e.msg.is_expected(expected@, got@),
{
    RunError {
        span: Some(span),
        msg: RunErrorMsg::Expected {
            expected: String::from_str(expected),
            got: String::from_str(got),
        },
    }
}

/// The text that an argument is taken for: the text that the cell shows; an
/// error in the cell is the error of the call.
pub open spec fn text_arg(cell: Spanned<CellValue>) -> Result<Seq<char>, Outcome> {
    match cell.inner {
        CellValue::Error(e) => Err(Outcome::Raised(*e)),
        v => Ok(v.display_text()),
    }
}

/// The whole number that an argument is taken for: zero for a blank cell,
/// the number itself where it is whole, the number that a text spells; an
/// error in the cell is the error of the call.
pub open spec fn integer_arg(cell: Spanned<CellValue>) -> Result<i64, Outcome> {
    match cell.inner {
        CellValue::Blank => Ok(0i64),
        CellValue::Number(n) => match text_i64(n@) {
            Some(v) => Ok(v),
            None => Err(
                Outcome::Mismatch { span: cell.span, expected: "integer"@, got: "number"@ },
            ),
        },
        CellValue::Text(s) => match text_i64(s@) {
            Some(v) => Ok(v),
            None => Err(Outcome::Mismatch { span: cell.span, expected: "number"@, got: "text"@ }),
        },
        CellValue::Error(e) => Err(Outcome::Raised(*e)),
        v => Err(Outcome::Mismatch { span: cell.span, expected: "number"@, got: cell_kind(v) }),
    }
}

/// The whole number that the argument at place `i` is taken for, where it may
/// be left out: a blank cell counts as left out.
pub open spec fn optional_integer_arg(cells: Seq<Spanned<CellValue>>, i: int) -> Result<
    Option<Spanned<i64>>,
    Outcome,
> {
    if 0 <= i < cells.len() && !cells[i].inner.blank() {
        match integer_arg(cells[i]) {
            Ok(v) => Ok(Some(Spanned { span: cells[i].span, inner: v })),
            Err(o) => Err(o),
        }
    } else {
        Ok(None)
    }
}

/// Whether `r` is the text, or the failure, that `arg` stands for.
pub open spec fn is_text_of(arg: Result<Seq<char>, Outcome>, r: CodeResult<String>) -> bool {
    match arg {
        Ok(t) => (r matches Ok(s) && s@ == t),
        Err(o) => (r matches Err(e) && o.is_error(e)),
    }
}

/// Whether `r` is the value, or the failure, that `arg` stands for.
pub open spec fn is_arg_of<T>(arg: Result<T, Outcome>, r: CodeResult<T>) -> bool {
    match arg {
        Ok(v) => r == Ok::<T, RunError>(v),
        Err(o) => (r matches Err(e) && o.is_error(e)),
    }
}

/// Takes an argument for a text.
pub fn coerce_text(cell: &Spanned<CellValue>) -> (r: CodeResult<String>)
    ensures
        is_text_of(text_arg(*cell), r),
{
    match &cell.inner {
        CellValue::Error(e) => {
            let raised: RunError = (**e).clone();
            Err(raised)
        },
        v => Ok(v.to_display()),
    }
}

/// Takes an argument for a whole number.
pub fn coerce_integer(cell: &Spanned<CellValue>) -> (r: CodeResult<i64>)
    ensures
        is_arg_of(integer_arg(*cell), r),
{
    match &cell.inner {
        CellValue::Blank => Ok(0),
        CellValue::Number(n) => match parse_i64(n.text.as_str()) {
            Some(v) => Ok(v),
            None => Err(mismatch(cell.span, "integer", "number")),
        },
        CellValue::Text(s) => match parse_i64(s.as_str()) {
            Some(v) => Ok(v),
            None => Err(mismatch(cell.span, "number", "text")),
        },
        CellValue::Error(e) => {
            let raised: RunError = (**e).clone();
            Err(raised)
        },
        v => Err(mismatch(cell.span, "number", kind_name(v))),
    }
}

/// Takes the argument at place `i`, which may be left out, for a whole
/// number.
pub fn coerce_optional_integer(cells: &Vec<Spanned<CellValue>>, i: usize) -> (r: CodeResult<
    Option<Spanned<i64>>,
>)
    ensures
        is_arg_of(optional_integer_arg(cells@, i as int), r),
{
    if i < cells.len() && !cells[i].inner.is_blank() {
        let v = coerce_integer(&cells[i])?;
        Ok(Some(Spanned { span: cells[i].span, inner: v }))
    } else {
        Ok(None)
    }
}

/// The cell that holds a whole number that is not negative.
pub fn count_value(n: u128) -> (v: CellValue)
    ensures
        Outcome::Number(n as int).is_value(v),
{
    CellValue::Number(Decimal { text: u128_to_string(n) })
}

} // verus!
