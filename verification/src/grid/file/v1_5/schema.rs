//! The schema of grid files of version 1.5.

use vstd::prelude::*;

verus! {

#[derive(Debug, PartialEq, Eq)]
pub struct GridSchema {
    pub sheets: Vec<Sheet>,
    pub version: Option<String>,
}

#[derive(Debug, PartialEq, Eq)]
pub struct Id {
    pub id: String,
}

#[derive(Clone, Copy, Debug, PartialEq, Eq, Hash, Structural)]
pub struct Pos {
    pub x: i64,
    pub y: i64,
}

#[derive(Debug, PartialEq, Eq)]
pub struct SheetRect {
    pub min: Pos,
    pub max: Pos,
    pub sheet_id: Id,
}

/// A width or height of a column or row, as the bits of a 64-bit float.
#[derive(Debug, PartialEq, Eq)]
pub struct Offsets {
    pub column_widths: Vec<(i64, u64)>,
    pub row_heights: Vec<(i64, u64)>,
}

#[derive(Debug, PartialEq, Eq)]
pub struct CellBorder {
    pub color: String,
    pub line: String,
}

/// The borders of the four sides of the cell at `(x, y)`.
#[derive(Debug, PartialEq, Eq)]
pub struct CellBorders {
    pub x: i64,
    pub y: i64,
    pub top: Option<CellBorder>,
    pub left: Option<CellBorder>,
    pub bottom: Option<CellBorder>,
    pub right: Option<CellBorder>,
}

/// The borders of a sheet, cell by cell.
#[derive(Debug, PartialEq, Eq)]
pub struct Borders {
    pub cells: Vec<CellBorders>,
}

#[derive(Clone, Copy, Debug, PartialEq, Eq, Hash, Structural)]
pub struct Span {
    pub start: u32,
    pub end: u32,
}

/// What went wrong, as it is written to a file.
#[derive(Debug, PartialEq, Eq)]
#[allow(inconsistent_fields)]
pub enum RunErrorMsg {
    Unimplemented(String),
    Expected { expected: String, got: String },
    ArrayAxisMismatch { axis_is_x: bool, expected: u32, got: u32 },
    ArraySizeMismatch,
    BadCellReference,
    BadFunctionName,
    BadArgumentCount,
    CircularReference,
    ArrayTooBig,
    IndexOutOfBounds,
    InvalidArgument,
}

#[derive(Debug, PartialEq, Eq)]
pub struct RunError {
    pub span: Option<Span>,
    pub msg: RunErrorMsg,
}

#[derive(Debug, PartialEq, Eq)]
pub struct RenderSize {
    pub w: String,
    pub h: String,
}

#[derive(Debug, PartialEq, Eq)]
pub struct Sheet {
    pub id: Id,
    pub name: String,
    pub color: Option<String>,
    pub order: String,
    pub offsets: Offsets,
    pub columns: Vec<(i64, Column)>,
    pub borders: Borders,
    pub code_runs: Vec<(Pos, CodeRun)>,
}

#[derive(Debug, PartialEq, Eq)]
pub struct CodeRun {
    pub formatted_code_string: Option<String>,
    pub std_out: Option<String>,
    pub std_err: Option<String>,
    pub cells_accessed: Vec<SheetRect>,
    pub result: CodeRunResult,
    pub return_type: Option<String>,
    pub line_number: Option<u32>,
    pub output_type: Option<String>,
    pub spill_error: bool,
    /// Milliseconds since the Unix epoch.
    pub last_modified: Option<i64>,
}

#[derive(Debug, PartialEq, Eq)]
pub enum CodeRunResult {
    Output(OutputValue),
    Failure(RunError),
}

#[derive(Debug, PartialEq, Eq)]
pub enum OutputValue {
    Single(OutputValueValue),
    Array(OutputArray),
}

#[derive(Debug, PartialEq, Eq)]
pub struct OutputArray {
    pub size: OutputSize,
    pub values: Vec<OutputValueValue>,
}

#[derive(Clone, Copy, Debug, PartialEq, Eq, Hash, Structural)]
pub struct OutputSize {
    pub w: i64,
    pub h: i64,
}

/// An output value by the name of its kind and its text.
#[derive(Debug, PartialEq, Eq)]
pub struct OutputValueValue {
    pub type_field: String,
    pub value: String,
}

/// The cells and formatting of a column. Each list is keyed by the row, or
/// the first row of a run, written as text.
#[derive(Debug, PartialEq, Eq)]
pub struct Column {
    pub values: Vec<(String, CellValue)>,
    pub align: Vec<(String, ColumnRepeat<CellAlign>)>,
    pub wrap: Vec<(String, ColumnRepeat<CellWrap>)>,
    pub numeric_format: Vec<(String, ColumnRepeat<NumericFormat>)>,
    pub numeric_decimals: Vec<(String, ColumnRepeat<i16>)>,
    pub numeric_commas: Vec<(String, ColumnRepeat<bool>)>,
    pub bold: Vec<(String, ColumnRepeat<bool>)>,
    pub italic: Vec<(String, ColumnRepeat<bool>)>,
    pub text_color: Vec<(String, ColumnRepeat<String>)>,
    pub fill_color: Vec<(String, ColumnRepeat<String>)>,
    pub render_size: Vec<(String, ColumnRepeat<RenderSize>)>,
}

#[derive(Debug, PartialEq, Eq)]
pub enum CellValue {
    Blank,
    Text(String),
    Number(String),
    Html(String),
    Code(CodeCell),
    Logical(bool),
    Instant(String),
    Duration(String),
    Error(RunError),
}

/// A value that holds for `len` rows.
#[derive(Debug, PartialEq, Eq)]
pub struct ColumnRepeat<T> {
    pub value: T,
    pub len: u64,
}

#[derive(Clone, Copy, Debug, PartialEq, Eq, Hash, Structural)]
pub enum NumericFormatKind {
    Number,
    Currency,
    Percentage,
    Exponential,
}

impl Default for NumericFormatKind {
    fn default() -> (r: Self)
        ensures
            r == NumericFormatKind::Number,
    {
        NumericFormatKind::Number
    }
}

#[derive(Debug, PartialEq, Eq)]
pub struct NumericFormat {
    pub kind: NumericFormatKind,
    pub symbol: Option<String>,
}

#[derive(Clone, Copy, Debug, PartialEq, Eq, Hash, Structural)]
pub enum CodeCellLanguage {
    Python,
    Formula,
}

#[derive(Debug, PartialEq, Eq)]
pub struct CodeCell {
    pub language: CodeCellLanguage,
    pub code: String,
}

#[derive(Clone, Copy, Debug, PartialEq, Eq, Hash, Structural)]
pub enum CellAlign {
    Left,
    Center,
    Right,
}

#[derive(Clone, Copy, Debug, PartialEq, Eq, Hash, Structural)]
pub enum CellWrap {
    Overflow,
    Wrap,
    Clip,
}

} // verus!
