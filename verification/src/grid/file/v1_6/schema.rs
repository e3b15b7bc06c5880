//! The schema of grid files of version 1.6, the latest.

use crate::grid::file::v1_5::schema as v1_5;
use vstd::prelude::*;

verus! {

#[derive(Debug, PartialEq, Eq)]
pub struct GridSchema {
    pub sheets: Vec<Sheet>,
    pub version: Option<String>,
}

#[derive(Debug, PartialEq, Eq)]
pub struct Id {
    pub id: String,
}

impl Id {
    /// A fresh random identifier: the text of a random UUID, in hyphenated
    /// form.
    pub fn new() -> (r: Id)
        ensures
            crate::grid::ids::uuid_value(r.id@) matches Some(id)
                && crate::grid::ids::is_random_uuid(id) && r.id@ == crate::grid::ids::uuid_text(
                id,
            ),
    {
        Id { id: crate::grid::ids::SheetId::new().to_string() }
    }

    /// The identifier with the given text.
    pub fn from(id: String) -> (r: Id)
        ensures
            r.id == id,
    {
        Id { id }
    }

    /// The text of the identifier.
    pub fn to_string(&self) -> (r: String)
        ensures
            r == self.id,
    {
        self.id.clone()
    }
}

#[derive(Clone, Copy, Debug, PartialEq, Eq, Hash, Structural)]
pub struct Pos {
    pub x: i64,
    pub y: i64,
}

impl Pos {
    pub fn from(pos: crate::pos::Pos) -> (r: Pos)
        ensures
            r == (Pos { x: pos.x, y: pos.y }),
    {
        Pos { x: pos.x, y: pos.y }
    }
}

pub type SheetRect = v1_5::SheetRect;

pub type Offsets = v1_5::Offsets;

pub type Borders = v1_5::Borders;

pub type RunError = v1_5::RunError;

pub type RunErrorMsg = v1_5::RunErrorMsg;

pub type Span = v1_5::Span;

pub type CellBorders = v1_5::CellBorders;

pub type RenderSize = v1_5::RenderSize;

pub type CellBorder = v1_5::CellBorder;

#[derive(Debug, PartialEq, Eq)]
pub struct Sheet {
    pub id: Id,
    pub name: String,
    pub color: Option<String>,
    pub order: String,
    pub offsets: Offsets,
    pub columns: Vec<(i64, Column)>,
    pub borders: Borders,
    pub code_runs: Vec<(Pos, CodeRun)>,
}

#[derive(Debug, PartialEq, Eq)]
pub struct CodeRun {
    pub formatted_code_string: Option<String>,
    pub std_out: Option<String>,
    pub std_err: Option<String>,
    pub cells_accessed: Vec<SheetRect>,
    pub result: CodeRunResult,
    pub return_type: Option<String>,
    pub line_number: Option<u32>,
    pub output_type: Option<String>,
    pub spill_error: bool,
    /// Milliseconds since the Unix epoch.
    pub last_modified: Option<i64>,
}

#[derive(Debug, PartialEq, Eq)]
pub enum CodeRunResult {
    Output(OutputValue),
    Failure(RunError),
}

#[derive(Debug, PartialEq, Eq)]
pub enum OutputValue {
    Single(CellValue),
    Array(OutputArray),
}

#[derive(Debug, PartialEq, Eq)]
pub struct OutputArray {
    pub size: OutputSize,
    pub values: Vec<CellValue>,
}

#[derive(Clone, Copy, Debug, PartialEq, Eq, Hash, Structural)]
pub struct OutputSize {
    pub w: i64,
    pub h: i64,
}

/// An output value by the name of its kind and its text.
#[derive(Debug, PartialEq, Eq)]
pub struct OutputValueValue {
    pub type_field: String,
    pub value: String,
}

/// The cells and formatting of a column. Each list is keyed by the row, or
/// the first row of a run, written as text.
#[derive(Debug, PartialEq, Eq)]
pub struct Column {
    pub values: Vec<(String, CellValue)>,
    pub align: Vec<(String, ColumnRepeat<CellAlign>)>,
    pub wrap: Vec<(String, ColumnRepeat<CellWrap>)>,
    pub numeric_format: Vec<(String, ColumnRepeat<NumericFormat>)>,
    pub numeric_decimals: Vec<(String, ColumnRepeat<i16>)>,
    pub numeric_commas: Vec<(String, ColumnRepeat<bool>)>,
    pub bold: Vec<(String, ColumnRepeat<bool>)>,
    pub italic: Vec<(String, ColumnRepeat<bool>)>,
    pub text_color: Vec<(String, ColumnRepeat<String>)>,
    pub fill_color: Vec<(String, ColumnRepeat<String>)>,
    pub render_size: Vec<(String, ColumnRepeat<RenderSize>)>,
}

#[derive(Debug, PartialEq, Eq)]
pub enum CellValue {
    Blank,
    Text(String),
    /// A number as the text of a decimal.
    Number(String),
    Html(String),
    Code(CodeCell),
    Logical(bool),
    Instant(String),
    Duration(String),
    Error(RunError),
}

/// A value that holds for `len` rows.
#[derive(Debug, PartialEq, Eq)]
pub struct ColumnRepeat<T> {
    pub value: T,
    pub len: u32,
}

#[derive(Clone, Copy, Debug, PartialEq, Eq, Hash, Structural)]
pub enum NumericFormatKind {
    Number,
    Currency,
    Percentage,
    Exponential,
}

impl Default for NumericFormatKind {
    fn default() -> (r: Self)
        ensures
            r == NumericFormatKind::Number,
    {
        NumericFormatKind::Number
    }
}

#[derive(Debug, PartialEq, Eq)]
pub struct NumericFormat {
    pub kind: NumericFormatKind,
    pub symbol: Option<String>,
}

#[derive(Clone, Copy, Debug, PartialEq, Eq, Hash, Structural)]
pub enum CodeCellLanguage {
    Python,
    Formula,
}

#[derive(Debug, PartialEq, Eq)]
pub struct CodeCell {
    pub language: CodeCellLanguage,
    pub code: String,
}

#[derive(Clone, Copy, Debug, PartialEq, Eq, Hash, Structural)]
pub enum CellAlign {
    Left,
    Center,
    Right,
}

#[derive(Clone, Copy, Debug, PartialEq, Eq, Hash, Structural)]
pub enum CellWrap {
    Overflow,
    Wrap,
    Clip,
}

} // verus!
