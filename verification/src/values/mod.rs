//! Cell values and the errors that evaluation can end in.

pub mod array;
pub mod buffer;
pub mod decimal;
pub mod isblank;
pub mod repr;

use crate::values::decimal::Decimal;
use vstd::prelude::*;
use vstd::string::StringExecFns;

verus! {

/// A range of characters in the source of a formula.
#[derive(Clone, Copy, Debug, PartialEq, Eq, Hash, Structural)]
pub struct Span {
    pub start: u32,
    pub end: u32,
}

/// A value together with the place in the source that it came from.
#[derive(Clone, Copy, Debug, PartialEq, Eq)]
pub struct Spanned<T> {
    pub span: Span,
    pub inner: T,
}

/// One of the two axes of an array.
#[derive(Clone, Copy, Debug, PartialEq, Eq, Hash, Structural)]
pub enum Axis {
    X,
    Y,
}

/// What went wrong while a formula was evaluated.
#[derive(Debug, PartialEq, Eq)]
#[allow(inconsistent_fields)]
pub enum RunErrorMsg {
    /// The feature named is not available.
    Unimplemented(String),
    /// A value of another kind was expected.
    Expected { expected: String, got: String },
    /// The operands cannot be brought to a common length along `axis`.
    ArrayAxisMismatch { axis: Axis, expected: u32, got: u32 },
    /// The cells given do not fill the size given.
    ArraySizeMismatch,
    BadCellReference,
    BadFunctionName,
    BadArgumentCount,
    CircularReference,
    ArrayTooBig,
    IndexOutOfBounds,
    InvalidArgument,
}

/// An error with the place in the source that caused it.
#[derive(Debug, PartialEq, Eq)]
pub struct RunError {
    pub span: Option<Span>,
    pub msg: RunErrorMsg,
}

impl Clone for RunErrorMsg {
    fn clone(&self) -> (r: Self)
        ensures
            r == *self,
    {
        match self {
            RunErrorMsg::Unimplemented(what) => RunErrorMsg::Unimplemented(what.clone()),
            RunErrorMsg::Expected { expected, got } => RunErrorMsg::Expected {
                expected: expected.clone(),
                got: got.clone(),
            },
            RunErrorMsg::ArrayAxisMismatch { axis, expected, got } => {
                RunErrorMsg::ArrayAxisMismatch { axis: *axis, expected: *expected, got: *got }
            },
            RunErrorMsg::ArraySizeMismatch => RunErrorMsg::ArraySizeMismatch,
            RunErrorMsg::BadCellReference => RunErrorMsg::BadCellReference,
            RunErrorMsg::BadFunctionName => RunErrorMsg::BadFunctionName,
            RunErrorMsg::BadArgumentCount => RunErrorMsg::BadArgumentCount,
            RunErrorMsg::CircularReference => RunErrorMsg::CircularReference,
            RunErrorMsg::ArrayTooBig => RunErrorMsg::ArrayTooBig,
            RunErrorMsg::IndexOutOfBounds => RunErrorMsg::IndexOutOfBounds,
            RunErrorMsg::InvalidArgument => RunErrorMsg::InvalidArgument,
        }
    }
}

impl Clone for RunError {
    fn clone(&self) -> (r: Self)
        ensures
            r == *self,
    {
        RunError { span: self.span, msg: self.msg.clone() }
    }
}

impl RunErrorMsg {
    /// The message says that `expected` was expected where `got` was found.
    pub open spec fn is_expected(self, expected: Seq<char>, got: Seq<char>) -> bool {
        self matches RunErrorMsg::Expected { expected: e, got: g } && e@ == expected && g@
            == got
    }

    /// Whether both messages are of one kind and carry the same details.
    pub open spec fn alike(self, other: RunErrorMsg) -> bool {
        match (self, other) {
            (RunErrorMsg::Unimplemented(a), RunErrorMsg::Unimplemented(b)) => a@ == b@,
            (
                RunErrorMsg::Expected { expected: e1, got: g1 },
                RunErrorMsg::Expected { expected: e2, got: g2 },
            ) => e1@ == e2@ && g1@ == g2@,
            (
                RunErrorMsg::ArrayAxisMismatch { axis: a1, expected: e1, got: g1 },
                RunErrorMsg::ArrayAxisMismatch { axis: a2, expected: e2, got: g2 },
            ) => a1 == a2 && e1 == e2 && g1 == g2,
            (RunErrorMsg::ArraySizeMismatch, RunErrorMsg::ArraySizeMismatch) => true,
            (RunErrorMsg::BadCellReference, RunErrorMsg::BadCellReference) => true,
            (RunErrorMsg::BadFunctionName, RunErrorMsg::BadFunctionName) => true,
            (RunErrorMsg::BadArgumentCount, RunErrorMsg::BadArgumentCount) => true,
            (RunErrorMsg::CircularReference, RunErrorMsg::CircularReference) => true,
            (RunErrorMsg::ArrayTooBig, RunErrorMsg::ArrayTooBig) => true,
            (RunErrorMsg::IndexOutOfBounds, RunErrorMsg::IndexOutOfBounds) => true,
            (RunErrorMsg::InvalidArgument, RunErrorMsg::InvalidArgument) => true,
            _ => false,
        }
    }

    /// Compares kind and details.
    pub fn same(&self, other: &RunErrorMsg) -> (b: bool)
        ensures
            b == self.alike(*other),
    {
        match (self, other) {
            (RunErrorMsg::Unimplemented(a), RunErrorMsg::Unimplemented(b)) => *a == *b,
            (
                RunErrorMsg::Expected { expected: e1, got: g1 },
                RunErrorMsg::Expected { expected: e2, got: g2 },
            ) => *e1 == *e2 && *g1 == *g2,
            (
                RunErrorMsg::ArrayAxisMismatch { axis: a1, expected: e1, got: g1 },
                RunErrorMsg::ArrayAxisMismatch { axis: a2, expected: e2, got: g2 },
            ) => *a1 == *a2 && *e1 == *e2 && *g1 == *g2,
            (RunErrorMsg::ArraySizeMismatch, RunErrorMsg::ArraySizeMismatch) => true,
            (RunErrorMsg::BadCellReference, RunErrorMsg::BadCellReference) => true,
            (RunErrorMsg::BadFunctionName, RunErrorMsg::BadFunctionName) => true,
            (RunErrorMsg::BadArgumentCount, RunErrorMsg::BadArgumentCount) => true,
            (RunErrorMsg::CircularReference, RunErrorMsg::CircularReference) => true,
            (RunErrorMsg::ArrayTooBig, RunErrorMsg::ArrayTooBig) => true,
            (RunErrorMsg::IndexOutOfBounds, RunErrorMsg::IndexOutOfBounds) => true,
            (RunErrorMsg::InvalidArgument, RunErrorMsg::InvalidArgument) => true,
            _ => false,
        }
    }

    /// The error with the place that caused it.
    pub open spec fn spec_with_span(self, span: Span) -> RunError {
        RunError { span: Some(span), msg: self }
    }

    /// The error without a place.
    pub open spec fn spec_without_span(self) -> RunError {
        RunError { span: None, msg: self }
    }

    pub fn with_span(self, span: Span) -> (r: RunError)
        ensures
            r == self.spec_with_span(span),
    {
        RunError { span: Some(span), msg: self }
    }

    pub fn without_span(self) -> (r: RunError)
        ensures
            r == self.spec_without_span(),
    {
        RunError { span: None, msg: self }
    }
}

/// The languages a code cell can be written in.
#[derive(Clone, Copy, Debug, PartialEq, Eq, Hash, Structural)]
pub enum CodeCellLanguage {
    Python,
    Formula,
}

/// The source of a code cell.
#[derive(Debug, PartialEq, Eq)]
pub struct CodeCellValue {
    pub language: CodeCellLanguage,
    pub code: String,
}

impl Clone for CodeCellValue {
    fn clone(&self) -> (r: Self)
        ensures
            r == *self,
    {
        CodeCellValue { language: self.language, code: self.code.clone() }
    }
}

/// What a single cell holds.
#[derive(Debug, PartialEq, Eq)]
pub enum CellValue {
    /// Nothing.
    Blank,
    Text(String),
    Number(Decimal),
    Html(String),
    Code(CodeCellValue),
    Logical(bool),
    /// A point in time, as text.
    Instant(String),
    /// A length of time, as text.
    Duration(String),
    Error(Box<RunError>),
}

impl Clone for CellValue {
    fn clone(&self) -> (r: Self)
        ensures
            r == *self,
    {
        match self {
            CellValue::Blank => CellValue::Blank,
            CellValue::Text(s) => CellValue::Text(s.clone()),
            CellValue::Number(n) => CellValue::Number(n.clone()),
            CellValue::Html(s) => CellValue::Html(s.clone()),
            CellValue::Code(c) => CellValue::Code(c.clone()),
            CellValue::Logical(b) => CellValue::Logical(*b),
            CellValue::Instant(s) => CellValue::Instant(s.clone()),
            CellValue::Duration(s) => CellValue::Duration(s.clone()),
            CellValue::Error(e) => {
                let inner: RunError = (**e).clone();
                CellValue::Error(Box::new(inner))
            },
        }
    }
}

impl CellValue {
    /// Every number in the value prints as itself.
    pub open spec fn wf(self) -> bool {
        self matches CellValue::Number(n) ==> n.wf()
    }

    /// The text shown for the value in a cell.
    pub open spec fn display_text(self) -> Seq<char> {
        match self {
            CellValue::Blank => Seq::empty(),
            CellValue::Text(s) => s@,
            CellValue::Number(n) => n@,
            CellValue::Html(s) => s@,
            CellValue::Code(c) => c.code@,
            CellValue::Logical(b) => if b {
                "TRUE"@
            } else {
                "FALSE"@
            },
            CellValue::Instant(s) => s@,
            CellValue::Duration(s) => s@,
            CellValue::Error(_) => "[error]"@,
        }
    }

    /// Whether both values are of one kind and show the same contents.
    pub open spec fn alike(self, other: CellValue) -> bool {
        match (self, other) {
            (CellValue::Blank, CellValue::Blank) => true,
            (CellValue::Text(a), CellValue::Text(b)) => a@ == b@,
            (CellValue::Number(a), CellValue::Number(b)) => a@ == b@,
            (CellValue::Html(a), CellValue::Html(b)) => a@ == b@,
            (CellValue::Code(a), CellValue::Code(b)) => a.language == b.language && a.code@
                == b.code@,
            (CellValue::Logical(a), CellValue::Logical(b)) => a == b,
            (CellValue::Instant(a), CellValue::Instant(b)) => a@ == b@,
            (CellValue::Duration(a), CellValue::Duration(b)) => a@ == b@,
            (CellValue::Error(a), CellValue::Error(b)) => a.span == b.span && a.msg.alike(b.msg),
            _ => false,
        }
    }

    /// Whether every number in the value prints as itself.
    pub fn is_wf(&self) -> (b: bool)
        ensures
            b == self.wf(),
    {
        match self {
            CellValue::Number(n) => Decimal::from_canonical(&n.text).is_some(),
            _ => true,
        }
    }

    /// The text shown for the value in a cell.
    pub fn to_display(&self) -> (r: String)
        ensures
            r@ == self.display_text(),
    {
        match self {
            CellValue::Blank => String::new(),
            CellValue::Text(s) => s.clone(),
            CellValue::Number(n) => n.to_text(),
            CellValue::Html(s) => s.clone(),
            CellValue::Code(c) => c.code.clone(),
            CellValue::Logical(b) => if *b {
                String::from_str("TRUE")
            } else {
                String::from_str("FALSE")
            },
            CellValue::Instant(s) => s.clone(),
            CellValue::Duration(s) => s.clone(),
            CellValue::Error(_) => String::from_str("[error]"),
        }
    }

    /// Compares kind and contents.
    pub fn same(&self, other: &CellValue) -> (b: bool)
        ensures
            b == self.alike(*other),
    {
        match (self, other) {
            (CellValue::Blank, CellValue::Blank) => true,
            (CellValue::Text(a), CellValue::Text(b)) => *a == *b,
            (CellValue::Number(a), CellValue::Number(b)) => a.same(b),
            (CellValue::Html(a), CellValue::Html(b)) => *a == *b,
            (CellValue::Code(a), CellValue::Code(b)) => a.language == b.language && a.code
                == b.code,
            (CellValue::Logical(a), CellValue::Logical(b)) => *a == *b,
            (CellValue::Instant(a), CellValue::Instant(b)) => *a == *b,
            (CellValue::Duration(a), CellValue::Duration(b)) => *a == *b,
            (CellValue::Error(a), CellValue::Error(b)) => a.span == b.span && a.msg.same(&b.msg),
            _ => false,
        }
    }
}

/// The outcome of evaluating part of a formula.
pub type CodeResult<T> = Result<T, RunError>;

} // verus!
