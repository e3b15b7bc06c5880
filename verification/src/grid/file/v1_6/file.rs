//! Cell values between a grid and its file of version 1.6.

use crate::grid::file::v1_6::schema as current;
use crate::grid::file::FileError;
use crate::values::decimal::{decimal_text, Decimal};
use crate::values::{Axis, CellValue, CodeCellLanguage, CodeCellValue, RunError, RunErrorMsg, Span};
use vstd::prelude::*;

verus! {

/// An error message as it is written to a file.
pub open spec fn exported_msg(msg: RunErrorMsg) -> current::RunErrorMsg {
    match msg {
        RunErrorMsg::Unimplemented(s) => current::RunErrorMsg::Unimplemented(s),
        RunErrorMsg::Expected { expected, got } => current::RunErrorMsg::Expected { expected, got },
        RunErrorMsg::ArrayAxisMismatch { axis, expected, got } => {
            current::RunErrorMsg::ArrayAxisMismatch { axis_is_x: axis == Axis::X, expected, got }
        },
        RunErrorMsg::ArraySizeMismatch => current::RunErrorMsg::ArraySizeMismatch,
        RunErrorMsg::BadCellReference => current::RunErrorMsg::BadCellReference,
        RunErrorMsg::BadFunctionName => current::RunErrorMsg::BadFunctionName,
        RunErrorMsg::BadArgumentCount => current::RunErrorMsg::BadArgumentCount,
        RunErrorMsg::CircularReference => current::RunErrorMsg::CircularReference,
        RunErrorMsg::ArrayTooBig => current::RunErrorMsg::ArrayTooBig,
        RunErrorMsg::IndexOutOfBounds => current::RunErrorMsg::IndexOutOfBounds,
        RunErrorMsg::InvalidArgument => current::RunErrorMsg::InvalidArgument,
    }
}

/// An error message as it is read from a file.
pub open spec fn imported_msg(msg: current::RunErrorMsg) -> RunErrorMsg {
    match msg {
        current::RunErrorMsg::Unimplemented(s) => RunErrorMsg::Unimplemented(s),
        current::RunErrorMsg::Expected { expected, got } => RunErrorMsg::Expected { expected, got },
        current::RunErrorMsg::ArrayAxisMismatch { axis_is_x, expected, got } => {
            RunErrorMsg::ArrayAxisMismatch {
                axis: if axis_is_x {
                    Axis::X
                } else {
                    Axis::Y
                },
                expected,
                got,
            }
        },
        current::RunErrorMsg::ArraySizeMismatch => RunErrorMsg::ArraySizeMismatch,
        current::RunErrorMsg::BadCellReference => RunErrorMsg::BadCellReference,
        current::RunErrorMsg::BadFunctionName => RunErrorMsg::BadFunctionName,
        current::RunErrorMsg::BadArgumentCount => RunErrorMsg::BadArgumentCount,
        current::RunErrorMsg::CircularReference => RunErrorMsg::CircularReference,
        current::RunErrorMsg::ArrayTooBig => RunErrorMsg::ArrayTooBig,
        current::RunErrorMsg::IndexOutOfBounds => RunErrorMsg::IndexOutOfBounds,
        current::RunErrorMsg::InvalidArgument => RunErrorMsg::InvalidArgument,
    }
}

/// The place of an error as it is written to a file.
pub open spec fn exported_span(span: Option<Span>) -> Option<current::Span> {
    match span {
        Some(s) => Some(current::Span { start: s.start, end: s.end }),
        None => None,
    }
}

/// The place of an error as it is read from a file.
pub open spec fn imported_span(span: Option<current::Span>) -> Option<Span> {
    match span {
        Some(s) => Some(Span { start: s.start, end: s.end }),
        None => None,
    }
}

/// An error as it is written to a file.
pub open spec fn exported_error(error: RunError) -> current::RunError {
    current::RunError { span: exported_span(error.span), msg: exported_msg(error.msg) }
}

/// An error as it is read from a file.
pub open spec fn imported_error(error: current::RunError) -> RunError {
    RunError { span: imported_span(error.span), msg: imported_msg(error.msg) }
}

/// Writes an error to the file schema.
pub fn export_run_error(error: &RunError) -> (r: current::RunError)
    ensures
        r == exported_error(*error),
{
    current::RunError {
        span: match error.span {
            Some(s) => Some(current::Span { start: s.start, end: s.end }),
            None => None,
        },
        msg: match &error.msg {
            RunErrorMsg::Unimplemented(s) => current::RunErrorMsg::Unimplemented(s.clone()),
            RunErrorMsg::Expected { expected, got } => current::RunErrorMsg::Expected {
                expected: expected.clone(),
                got: got.clone(),
            },
            RunErrorMsg::ArrayAxisMismatch { axis, expected, got } => {
                current::RunErrorMsg::ArrayAxisMismatch {
                    axis_is_x: matches!(axis, Axis::X),
                    expected: *expected,
                    got: *got,
                }
            },
            RunErrorMsg::ArraySizeMismatch => current::RunErrorMsg::ArraySizeMismatch,
            RunErrorMsg::BadCellReference => current::RunErrorMsg::BadCellReference,
            RunErrorMsg::BadFunctionName => current::RunErrorMsg::BadFunctionName,
            RunErrorMsg::BadArgumentCount => current::RunErrorMsg::BadArgumentCount,
            RunErrorMsg::CircularReference => current::RunErrorMsg::CircularReference,
            RunErrorMsg::ArrayTooBig => current::RunErrorMsg::ArrayTooBig,
            RunErrorMsg::IndexOutOfBounds => current::RunErrorMsg::IndexOutOfBounds,
            RunErrorMsg::InvalidArgument => current::RunErrorMsg::InvalidArgument,
        },
    }
}

/// Reads an error from the file schema.
pub fn import_run_error(error: &current::RunError) -> (r: RunError)
    ensures
        r == imported_error(*error),
{
    RunError {
        span: match error.span {
            Some(s) => Some(Span { start: s.start, end: s.end }),
            None => None,
        },
        msg: match &error.msg {
            current::RunErrorMsg::Unimplemented(s) => RunErrorMsg::Unimplemented(s.clone()),
            current::RunErrorMsg::Expected { expected, got } => RunErrorMsg::Expected {
                expected: expected.clone(),
                got: got.clone(),
            },
            current::RunErrorMsg::ArrayAxisMismatch { axis_is_x, expected, got } => {
                RunErrorMsg::ArrayAxisMismatch {
                    axis: if *axis_is_x {
                        Axis::X
                    } else {
                        Axis::Y
                    },
                    expected: *expected,
                    got: *got,
                }
            },
            current::RunErrorMsg::ArraySizeMismatch => RunErrorMsg::ArraySizeMismatch,
            current::RunErrorMsg::BadCellReference => RunErrorMsg::BadCellReference,
            current::RunErrorMsg::BadFunctionName => RunErrorMsg::BadFunctionName,
            current::RunErrorMsg::BadArgumentCount => RunErrorMsg::BadArgumentCount,
            current::RunErrorMsg::CircularReference => RunErrorMsg::CircularReference,
            current::RunErrorMsg::ArrayTooBig => RunErrorMsg::ArrayTooBig,
            current::RunErrorMsg::IndexOutOfBounds => RunErrorMsg::IndexOutOfBounds,
            current::RunErrorMsg::InvalidArgument => RunErrorMsg::InvalidArgument,
        },
    }
}

/// An error that is written and read again is the same error.
pub proof fn lemma_error_round_trip(error: RunError)
    ensures
        imported_error(exported_error(error)) == error,
{
}

/// A language as it is written to a file.
pub open spec fn exported_language(language: CodeCellLanguage) -> current::CodeCellLanguage {
    match language {
        CodeCellLanguage::Python => current::CodeCellLanguage::Python,
        CodeCellLanguage::Formula => current::CodeCellLanguage::Formula,
    }
}

/// A language as it is read from a file.
pub open spec fn imported_language(language: current::CodeCellLanguage) -> CodeCellLanguage {
    match language {
        current::CodeCellLanguage::Python => CodeCellLanguage::Python,
        current::CodeCellLanguage::Formula => CodeCellLanguage::Formula,
    }
}

/// A cell value as it is written to a file: the same value, a number as its
/// text.
pub open spec fn exported_value(value: CellValue) -> current::CellValue {
    match value {
        CellValue::Text(text) => current::CellValue::Text(text),
        CellValue::Number(number) => current::CellValue::Number(number.text),
        CellValue::Html(html) => current::CellValue::Html(html),
        CellValue::Code(cell_code) => current::CellValue::Code(
            current::CodeCell {
                code: cell_code.code,
                language: exported_language(cell_code.language),
            },
        ),
        CellValue::Logical(logical) => current::CellValue::Logical(logical),
        CellValue::Instant(instant) => current::CellValue::Instant(instant),
        CellValue::Duration(duration) => current::CellValue::Duration(duration),
        CellValue::Error(error) => current::CellValue::Error(exported_error(*error)),
        CellValue::Blank => current::CellValue::Blank,
    }
}

/// Writes a cell value to the file schema.
pub fn export_cell_value(cell_value: &CellValue) -> (r: current::CellValue)
    ensures
        r == exported_value(*cell_value),
{
    match cell_value {
        CellValue::Text(text) => current::CellValue::Text(text.clone()),
        CellValue::Number(number) => export_cell_value_number(number),
        CellValue::Html(html) => current::CellValue::Html(html.clone()),
        CellValue::Code(cell_code) => current::CellValue::Code(
            current::CodeCell {
                code: cell_code.code.clone(),
                language: match cell_code.language {
                    CodeCellLanguage::Python => current::CodeCellLanguage::Python,
                    CodeCellLanguage::Formula => current::CodeCellLanguage::Formula,
                },
            },
        ),
        CellValue::Logical(logical) => current::CellValue::Logical(*logical),
        CellValue::Instant(instant) => current::CellValue::Instant(instant.clone()),
        CellValue::Duration(duration) => current::CellValue::Duration(duration.clone()),
        CellValue::Error(error) => current::CellValue::Error(export_run_error(error)),
        CellValue::Blank => current::CellValue::Blank,
    }
}

/// Writes a number to the file schema: as its text.
pub fn export_cell_value_number(number: &Decimal) -> (r: current::CellValue)
    ensures
        r == current::CellValue::Number(number.text),
{
    current::CellValue::Number(number.text.clone())
}

/// The text is a decimal that prints as itself.
pub open spec fn is_canonical(text: Seq<char>) -> bool {
    decimal_text(text) == Some(text)
}

/// `number` is the number that `text` stands for: the text itself where it
/// prints as itself, and else what it prints as.
pub open spec fn number_imported(text: String, number: Decimal) -> bool {
    if is_canonical(text@) {
        number.text == text
    } else {
        number.wf() && Decimal::spec_parse(text@) == Some(number@)
    }
}

/// The text stands for a number.
pub open spec fn number_importable(text: Seq<char>) -> bool {
    is_canonical(text) || Decimal::spec_parse(text) is Some
}

/// Reads a number from its text. A text that is no decimal is refused.
pub fn import_cell_value_number(number: String) -> (r: Result<CellValue, FileError>)
    ensures
        number_importable(number@) ==> (r matches Ok(CellValue::Number(n)) && number_imported(
            number,
            n,
        ) && n.wf()),
        !number_importable(number@) ==> r == Err::<CellValue, FileError>(
            FileError::BadNumber(number),
        ),
{
    match Decimal::from_canonical(&number) {
        Some(n) => Ok(CellValue::Number(n)),
        None => match Decimal::parse(number.as_str()) {
            Some(n) => Ok(CellValue::Number(n)),
            None => Err(FileError::BadNumber(number)),
        },
    }
}

/// The error of reading a cell value: it is a number whose text is no
/// decimal.
pub open spec fn import_error(value: current::CellValue) -> Option<FileError> {
    match value {
        current::CellValue::Number(text) => if number_importable(text@) {
            None
        } else {
            Some(FileError::BadNumber(text))
        },
        _ => None,
    }
}

/// `value` is what the cell value `stored` of a file stands for.
pub open spec fn value_imported(stored: current::CellValue, value: CellValue) -> bool {
    match stored {
        current::CellValue::Text(text) => value == CellValue::Text(text),
        current::CellValue::Number(text) => match value {
            CellValue::Number(n) => number_imported(text, n),
            _ => false,
        },
        current::CellValue::Html(html) => value == CellValue::Html(html),
        current::CellValue::Code(code_cell) => value == CellValue::Code(
            CodeCellValue {
                code: code_cell.code,
                language: imported_language(code_cell.language),
            },
        ),
        current::CellValue::Logical(logical) => value == CellValue::Logical(logical),
        current::CellValue::Instant(instant) => value == CellValue::Instant(instant),
        current::CellValue::Duration(duration) => value == CellValue::Duration(duration),
        current::CellValue::Error(error) => value == CellValue::Error(
            Box::new(imported_error(error)),
        ),
        current::CellValue::Blank => value == CellValue::Blank,
    }
}

/// Reads a cell value from the file schema. A number whose text is no
/// decimal is refused.
pub fn import_cell_value(value: &current::CellValue) -> (r: Result<CellValue, FileError>)
    ensures
        match import_error(*value) {
            Some(e) => r == Err::<CellValue, FileError>(e),
            None => r matches Ok(v) && value_imported(*value, v) && v.wf() && (v
                == CellValue::Blank <==> *value == current::CellValue::Blank),
        },
{
    match value {
        current::CellValue::Text(text) => Ok(CellValue::Text(text.clone())),
        current::CellValue::Number(number) => import_cell_value_number(number.clone()),
        current::CellValue::Html(html) => Ok(CellValue::Html(html.clone())),
        current::CellValue::Code(code_cell) => Ok(
            CellValue::Code(
                CodeCellValue {
                    code: code_cell.code.clone(),
                    language: match code_cell.language {
                        current::CodeCellLanguage::Python => CodeCellLanguage::Python,
                        current::CodeCellLanguage::Formula => CodeCellLanguage::Formula,
                    },
                },
            ),
        ),
        current::CellValue::Logical(logical) => Ok(CellValue::Logical(*logical)),
        current::CellValue::Instant(instant) => Ok(CellValue::Instant(instant.clone())),
        current::CellValue::Duration(duration) => Ok(CellValue::Duration(duration.clone())),
        current::CellValue::Error(error) => Ok(
            CellValue::Error(Box::new(import_run_error(error))),
        ),
        current::CellValue::Blank => Ok(CellValue::Blank),
    }
}

/// Every number in the stored value prints as itself.
pub open spec fn stored_canonical(stored: current::CellValue) -> bool {
    stored matches current::CellValue::Number(text) ==> is_canonical(text@)
}

/// A value whose numbers print as themselves is written as a value that
/// stands for itself and for nothing else.
pub proof fn lemma_value_round_trip(value: CellValue, other: CellValue)
    requires
        value.wf(),
    ensures
        stored_canonical(exported_value(value)),
        import_error(exported_value(value)) is None,
        value_imported(exported_value(value), value),
        value_imported(exported_value(value), other) ==> other == value,
        exported_value(value) == current::CellValue::Blank <==> value == CellValue::Blank,
{
    match value {
        CellValue::Error(error) => {
            lemma_error_round_trip(*error);
        },
        _ => {},
    }
}

/// What a stored value without numbers that print otherwise stands for is
/// one value only.
pub proof fn lemma_import_functional(stored: current::CellValue, a: CellValue, b: CellValue)
    requires
        stored_canonical(stored),
        value_imported(stored, a),
        value_imported(stored, b),
    ensures
        a == b,
{
}

} // verus!
