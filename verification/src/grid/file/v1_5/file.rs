//! The upgrade of a grid file of version 1.5 to version 1.6.

use crate::grid::file::v1_5::schema as v1_5;
use crate::grid::file::v1_6::schema as v1_6;
use crate::grid::file::FileError;
use crate::text::{lowercase_text, to_lowercase};
use crate::values::decimal::{bigdecimal_text, decimal_text};
use vstd::prelude::*;
use vstd::string::StringExecFns;

verus! {

/// A value of the old schema that has a counterpart in the new one.
pub trait Upgrade: Sized {
    type Out;

    /// The counterpart in the new schema.
    spec fn upgraded(self) -> Self::Out;

    /// Turns the value into its counterpart in the new schema.
    fn upgrade(self) -> (r: Self::Out)
        ensures
            r == self.upgraded(),
    ;
}

impl Upgrade for v1_5::CellAlign {
    type Out = v1_6::CellAlign;

    open spec fn upgraded(self) -> v1_6::CellAlign {
        match self {
            v1_5::CellAlign::Left => v1_6::CellAlign::Left,
            v1_5::CellAlign::Center => v1_6::CellAlign::Center,
            v1_5::CellAlign::Right => v1_6::CellAlign::Right,
        }
    }

    fn upgrade(self) -> (r: v1_6::CellAlign) {
        match self {
            v1_5::CellAlign::Left => v1_6::CellAlign::Left,
            v1_5::CellAlign::Center => v1_6::CellAlign::Center,
            v1_5::CellAlign::Right => v1_6::CellAlign::Right,
        }
    }
}

impl Upgrade for v1_5::CellWrap {
    type Out = v1_6::CellWrap;

    open spec fn upgraded(self) -> v1_6::CellWrap {
        match self {
            v1_5::CellWrap::Wrap => v1_6::CellWrap::Wrap,
            v1_5::CellWrap::Overflow => v1_6::CellWrap::Overflow,
            v1_5::CellWrap::Clip => v1_6::CellWrap::Clip,
        }
    }

    fn upgrade(self) -> (r: v1_6::CellWrap) {
        match self {
            v1_5::CellWrap::Wrap => v1_6::CellWrap::Wrap,
            v1_5::CellWrap::Overflow => v1_6::CellWrap::Overflow,
            v1_5::CellWrap::Clip => v1_6::CellWrap::Clip,
        }
    }
}

impl Upgrade for v1_5::NumericFormatKind {
    type Out = v1_6::NumericFormatKind;

    open spec fn upgraded(self) -> v1_6::NumericFormatKind {
        match self {
            v1_5::NumericFormatKind::Number => v1_6::NumericFormatKind::Number,
            v1_5::NumericFormatKind::Currency => v1_6::NumericFormatKind::Currency,
            v1_5::NumericFormatKind::Percentage => v1_6::NumericFormatKind::Percentage,
            v1_5::NumericFormatKind::Exponential => v1_6::NumericFormatKind::Exponential,
        }
    }

    fn upgrade(self) -> (r: v1_6::NumericFormatKind) {
        match self {
            v1_5::NumericFormatKind::Number => v1_6::NumericFormatKind::Number,
            v1_5::NumericFormatKind::Currency => v1_6::NumericFormatKind::Currency,
            v1_5::NumericFormatKind::Percentage => v1_6::NumericFormatKind::Percentage,
            v1_5::NumericFormatKind::Exponential => v1_6::NumericFormatKind::Exponential,
        }
    }
}

impl Upgrade for v1_5::NumericFormat {
    type Out = v1_6::NumericFormat;

    open spec fn upgraded(self) -> v1_6::NumericFormat {
        v1_6::NumericFormat { kind: self.kind.upgraded(), symbol: self.symbol }
    }

    fn upgrade(self) -> (r: v1_6::NumericFormat) {
        v1_6::NumericFormat { kind: self.kind.upgrade(), symbol: self.symbol }
    }
}

impl Upgrade for v1_5::CodeCellLanguage {
    type Out = v1_6::CodeCellLanguage;

    open spec fn upgraded(self) -> v1_6::CodeCellLanguage {
        match self {
            v1_5::CodeCellLanguage::Python => v1_6::CodeCellLanguage::Python,
            v1_5::CodeCellLanguage::Formula => v1_6::CodeCellLanguage::Formula,
        }
    }

    fn upgrade(self) -> (r: v1_6::CodeCellLanguage) {
        match self {
            v1_5::CodeCellLanguage::Python => v1_6::CodeCellLanguage::Python,
            v1_5::CodeCellLanguage::Formula => v1_6::CodeCellLanguage::Formula,
        }
    }
}

impl Upgrade for i16 {
    type Out = i16;

    open spec fn upgraded(self) -> i16 {
        self
    }

    fn upgrade(self) -> (r: i16) {
        self
    }
}

impl Upgrade for bool {
    type Out = bool;

    open spec fn upgraded(self) -> bool {
        self
    }

    fn upgrade(self) -> (r: bool) {
        self
    }
}

impl Upgrade for String {
    type Out = String;

    open spec fn upgraded(self) -> String {
        self
    }

    fn upgrade(self) -> (r: String) {
        self
    }
}

impl Upgrade for v1_5::RenderSize {
    type Out = v1_6::RenderSize;

    open spec fn upgraded(self) -> v1_6::RenderSize {
        self
    }

    fn upgrade(self) -> (r: v1_6::RenderSize) {
        self
    }
}

/// The runs of the new schema are those of the old one, each with the value
/// upgraded and its length unchanged.
pub open spec fn repeats_upgraded<T: Upgrade>(
    old_runs: Seq<(String, v1_5::ColumnRepeat<T>)>,
    new_runs: Seq<(String, v1_6::ColumnRepeat<T::Out>)>,
) -> bool {
    &&& new_runs.len() == old_runs.len()
    &&& forall|i: int|
        0 <= i < old_runs.len() ==> (#[trigger] new_runs[i]).0 == old_runs[i].0
            && new_runs[i].1.value == old_runs[i].1.value.upgraded() && new_runs[i].1.len
            == old_runs[i].1.len
}

/// The first error among the items, going from the front.
pub open spec fn first_error<T>(
    items: Seq<T>,
    error_of: spec_fn(T) -> Option<FileError>,
) -> Option<FileError>
    decreases items.len(),
{
    if items.len() == 0 {
        None
    } else {
        match error_of(items[0]) {
            Some(e) => Some(e),
            None => first_error(items.drop_first(), error_of),
        }
    }
}

/// Items without an error at the front do not change the first error.
pub proof fn lemma_first_error_skip<T>(
    items: Seq<T>,
    error_of: spec_fn(T) -> Option<FileError>,
    i: int,
)
    requires
        0 <= i <= items.len(),
        forall|j: int| 0 <= j < i ==> error_of(#[trigger] items[j]) is None,
    ensures
        first_error(items, error_of) == first_error(items.skip(i), error_of),
    decreases i,
{
    if i == 0 {
        assert(items.skip(0) == items);
    } else {
        lemma_first_error_skip(items, error_of, i - 1);
        let rest = items.skip(i - 1);
        assert(rest[0] == items[i - 1]);
        assert(rest.drop_first() == items.skip(i));
    }
}

/// The error of a list of runs: one of them is longer than the new schema
/// can say.
pub open spec fn repeats_error<T>(runs: Seq<(String, v1_5::ColumnRepeat<T>)>) -> Option<FileError> {
    if forall|i: int| 0 <= i < runs.len() ==> (#[trigger] runs[i]).1.len <= u32::MAX {
        None
    } else {
        Some(FileError::BadRunLength)
    }
}

/// Upgrades the runs of one attribute. A run longer than the new schema can
/// say is refused.
pub fn upgrade_repeats<T: Upgrade>(runs: Vec<(String, v1_5::ColumnRepeat<T>)>) -> (r: Result<
    Vec<(String, v1_6::ColumnRepeat<T::Out>)>,
    FileError,
>)
    ensures
        match repeats_error(runs@) {
            Some(e) => r == Err::<Vec<(String, v1_6::ColumnRepeat<T::Out>)>, FileError>(e),
            None => r matches Ok(new_runs) && repeats_upgraded(runs@, new_runs@),
        },
{
    let mut out: Vec<(String, v1_6::ColumnRepeat<T::Out>)> = Vec::new();
    let ghost all = runs@;
    for entry in it: runs
        invariant
            it.seq() == all,
            out@.len() == it.index(),
            forall|i: int| 0 <= i < it.index() ==> (#[trigger] all[i]).1.len <= u32::MAX,
            forall|i: int|
                0 <= i < it.index() ==> (#[trigger] out@[i]).0 == all[i].0 && out@[i].1.value
                    == all[i].1.value.upgraded() && out@[i].1.len == all[i].1.len,
    {
        let (key, run) = entry;
        if run.len > u32::MAX as u64 {
            assert(all[it.index()].1.len > u32::MAX);
            return Err(FileError::BadRunLength);
        }
        out.push((key, v1_6::ColumnRepeat { value: run.value.upgrade(), len: run.len as u32 }));
    }
    Ok(out)
}

/// The error of a number of the old schema: its text is no decimal.
pub open spec fn number_error(text: String) -> Option<FileError> {
    if decimal_text(text@) is Some {
        None
    } else {
        Some(FileError::BadNumber(text))
    }
}

/// The error of a cell value of the old schema.
pub open spec fn value_error(value: v1_5::CellValue) -> Option<FileError> {
    match value {
        v1_5::CellValue::Number(text) => number_error(text),
        _ => None,
    }
}

/// `new` is the cell value `old` in the new schema: the same value, a number
/// being printed anew from what its text stands for.
pub open spec fn value_upgraded(old: v1_5::CellValue, new: v1_6::CellValue) -> bool {
    match old {
        v1_5::CellValue::Text(s) => new == v1_6::CellValue::Text(s),
        v1_5::CellValue::Number(text) => match new {
            v1_6::CellValue::Number(n) => decimal_text(text@) == Some(n@),
            _ => false,
        },
        v1_5::CellValue::Html(s) => new == v1_6::CellValue::Html(s),
        v1_5::CellValue::Blank => new == v1_6::CellValue::Blank,
        v1_5::CellValue::Code(c) => new == v1_6::CellValue::Code(
            v1_6::CodeCell { language: c.language.upgraded(), code: c.code },
        ),
        v1_5::CellValue::Logical(b) => new == v1_6::CellValue::Logical(b),
        v1_5::CellValue::Error(e) => new == v1_6::CellValue::Error(e),
        v1_5::CellValue::Duration(s) => new == v1_6::CellValue::Duration(s),
        v1_5::CellValue::Instant(s) => new == v1_6::CellValue::Instant(s),
    }
}

/// Upgrades a cell value. A number whose text is no decimal is refused.
pub fn upgrade_cell_value(value: v1_5::CellValue) -> (r: Result<v1_6::CellValue, FileError>)
    ensures
        match value_error(value) {
            Some(e) => r == Err::<v1_6::CellValue, FileError>(e),
            None => r matches Ok(new) && value_upgraded(value, new),
        },
{
    match value {
        v1_5::CellValue::Text(s) => Ok(v1_6::CellValue::Text(s)),
        v1_5::CellValue::Number(text) => match bigdecimal_text(text.as_str()) {
            Some(n) => Ok(v1_6::CellValue::Number(n)),
            None => Err(FileError::BadNumber(text)),
        },
        v1_5::CellValue::Html(s) => Ok(v1_6::CellValue::Html(s)),
        v1_5::CellValue::Blank => Ok(v1_6::CellValue::Blank),
        v1_5::CellValue::Code(c) => Ok(
            v1_6::CellValue::Code(
                v1_6::CodeCell { language: c.language.upgrade(), code: c.code },
            ),
        ),
        v1_5::CellValue::Logical(b) => Ok(v1_6::CellValue::Logical(b)),
        v1_5::CellValue::Error(e) => Ok(v1_6::CellValue::Error(e)),
        v1_5::CellValue::Duration(s) => Ok(v1_6::CellValue::Duration(s)),
        v1_5::CellValue::Instant(s) => Ok(v1_6::CellValue::Instant(s)),
    }
}

/// The error of the values of a column: that of the first value with one.
pub open spec fn values_error(values: Seq<(String, v1_5::CellValue)>) -> Option<FileError> {
    first_error(values, value_entry_error())
}

/// The values of the new schema are those of the old one, each upgraded
/// under its own key.
pub open spec fn values_upgraded(
    old_values: Seq<(String, v1_5::CellValue)>,
    new_values: Seq<(String, v1_6::CellValue)>,
) -> bool {
    &&& new_values.len() == old_values.len()
    &&& forall|i: int|
        0 <= i < old_values.len() ==> (#[trigger] new_values[i]).0 == old_values[i].0
            && value_upgraded(old_values[i].1, new_values[i].1)
}

/// Upgrades the values of a column. The first number whose text is no
/// decimal ends the upgrade with its error.
pub fn upgrade_values(values: Vec<(String, v1_5::CellValue)>) -> (r: Result<
    Vec<(String, v1_6::CellValue)>,
    FileError,
>)
    ensures
        match values_error(values@) {
            Some(e) => r == Err::<Vec<(String, v1_6::CellValue)>, FileError>(e),
            None => r matches Ok(new_values) && values_upgraded(values@, new_values@),
        },
{
    let mut out: Vec<(String, v1_6::CellValue)> = Vec::new();
    let ghost all = values@;
    for entry in it: values
        invariant
            it.seq() == all,
            out@.len() == it.index(),
            forall|i: int| 0 <= i < it.index() ==> value_entry_error()(#[trigger] all[i]) is None,
            forall|i: int|
                0 <= i < it.index() ==> (#[trigger] out@[i]).0 == all[i].0 && value_upgraded(
                    all[i].1,
                    out@[i].1,
                ),
    {
        let (key, value) = entry;
        let ghost i = it.index();
        proof {
            lemma_first_error_skip(all, value_entry_error(), i);
            assert(all.skip(i)[0] == all[i]);
        }
        match upgrade_cell_value(value) {
            Ok(new) => {
                out.push((key, new));
            },
            Err(e) => {
                return Err(e);
            },
        }
    }
    proof {
        lemma_first_error_skip(all, value_entry_error(), all.len() as int);
    }
    Ok(out)
}

/// The error of a column: that of its values, or else that of the first of
/// its attributes with one.
pub open spec fn column_error(column: v1_5::Column) -> Option<FileError> {
    if values_error(column.values@) is Some {
        values_error(column.values@)
    } else if repeats_error(column.align@) is Some {
        repeats_error(column.align@)
    } else if repeats_error(column.wrap@) is Some {
        repeats_error(column.wrap@)
    } else if repeats_error(column.numeric_format@) is Some {
        repeats_error(column.numeric_format@)
    } else if repeats_error(column.numeric_decimals@) is Some {
        repeats_error(column.numeric_decimals@)
    } else if repeats_error(column.numeric_commas@) is Some {
        repeats_error(column.numeric_commas@)
    } else if repeats_error(column.bold@) is Some {
        repeats_error(column.bold@)
    } else if repeats_error(column.italic@) is Some {
        repeats_error(column.italic@)
    } else if repeats_error(column.text_color@) is Some {
        repeats_error(column.text_color@)
    } else if repeats_error(column.fill_color@) is Some {
        repeats_error(column.fill_color@)
    } else if repeats_error(column.render_size@) is Some {
        repeats_error(column.render_size@)
    } else {
        None
    }
}

/// `new` is the column `old` in the new schema.
pub open spec fn column_upgraded(old: v1_5::Column, new: v1_6::Column) -> bool {
    &&& values_upgraded(old.values@, new.values@)
    &&& repeats_upgraded(old.align@, new.align@)
    &&& repeats_upgraded(old.wrap@, new.wrap@)
    &&& repeats_upgraded(old.numeric_format@, new.numeric_format@)
    &&& repeats_upgraded(old.numeric_decimals@, new.numeric_decimals@)
    &&& repeats_upgraded(old.numeric_commas@, new.numeric_commas@)
    &&& repeats_upgraded(old.bold@, new.bold@)
    &&& repeats_upgraded(old.italic@, new.italic@)
    &&& repeats_upgraded(old.text_color@, new.text_color@)
    &&& repeats_upgraded(old.fill_color@, new.fill_color@)
    &&& repeats_upgraded(old.render_size@, new.render_size@)
}

/// Upgrades the column at `x`: its values and the runs of each attribute.
pub fn upgrade_column(x: i64, column: v1_5::Column) -> (r: Result<(i64, v1_6::Column), FileError>)
    ensures
        match column_error(column) {
            Some(e) => r == Err::<(i64, v1_6::Column), FileError>(e),
            None => r matches Ok(new) && new.0 == x && column_upgraded(column, new.1),
        },
{
    let v1_5::Column {
        values,
        align,
        wrap,
        numeric_format,
        numeric_decimals,
        numeric_commas,
        bold,
        italic,
        text_color,
        fill_color,
        render_size,
    } = column;
    let values = upgrade_values(values)?;
    let align = upgrade_repeats(align)?;
    let wrap = upgrade_repeats(wrap)?;
    let numeric_format = upgrade_repeats(numeric_format)?;
    let numeric_decimals = upgrade_repeats(numeric_decimals)?;
    let numeric_commas = upgrade_repeats(numeric_commas)?;
    let bold = upgrade_repeats(bold)?;
    let italic = upgrade_repeats(italic)?;
    let text_color = upgrade_repeats(text_color)?;
    let fill_color = upgrade_repeats(fill_color)?;
    let render_size = upgrade_repeats(render_size)?;
    Ok(
        (
            x,
            v1_6::Column {
                values,
                align,
                wrap,
                numeric_format,
                numeric_decimals,
                numeric_commas,
                bold,
                italic,
                text_color,
                fill_color,
                render_size,
            },
        ),
    )
}

/// The error of the columns of a sheet: that of the first column with one.
pub open spec fn columns_error(columns: Seq<(i64, v1_5::Column)>) -> Option<FileError> {
    first_error(columns, column_entry_error())
}

/// The columns of the new schema are those of the old one, each upgraded at
/// its own coordinate.
pub open spec fn columns_upgraded(
    old_columns: Seq<(i64, v1_5::Column)>,
    new_columns: Seq<(i64, v1_6::Column)>,
) -> bool {
    &&& new_columns.len() == old_columns.len()
    &&& forall|i: int|
        0 <= i < old_columns.len() ==> (#[trigger] new_columns[i]).0 == old_columns[i].0
            && column_upgraded(old_columns[i].1, new_columns[i].1)
}

/// Upgrades the columns of a sheet.
pub fn upgrade_columns(columns: Vec<(i64, v1_5::Column)>) -> (r: Result<
    Vec<(i64, v1_6::Column)>,
    FileError,
>)
    ensures
        match columns_error(columns@) {
            Some(e) => r == Err::<Vec<(i64, v1_6::Column)>, FileError>(e),
            None => r matches Ok(new_columns) && columns_upgraded(columns@, new_columns@),
        },
{
    let mut out: Vec<(i64, v1_6::Column)> = Vec::new();
    let ghost all = columns@;
    for entry in it: columns
        invariant
            it.seq() == all,
            out@.len() == it.index(),
            forall|i: int| 0 <= i < it.index() ==> column_entry_error()(#[trigger] all[i]) is None,
            forall|i: int|
                0 <= i < it.index() ==> (#[trigger] out@[i]).0 == all[i].0 && column_upgraded(
                    all[i].1,
                    out@[i].1,
                ),
    {
        let (x, column) = entry;
        let ghost i = it.index();
        proof {
            lemma_first_error_skip(all, column_entry_error(), i);
            assert(all.skip(i)[0] == all[i]);
        }
        match upgrade_column(x, column) {
            Ok(new) => {
                out.push(new);
            },
            Err(e) => {
                return Err(e);
            },
        }
    }
    proof {
        lemma_first_error_skip(all, column_entry_error(), all.len() as int);
    }
    Ok(out)
}

/// What kind an output value says it is of, whatever the case of its letters.
pub open spec fn output_kind(value: v1_5::OutputValueValue) -> Seq<char> {
    lowercase_text(value.type_field@)
}

/// The error of an output value: its kind is not among those known, or it is
/// a number whose text is no decimal. Within an array only texts and numbers
/// are known.
pub open spec fn output_error(value: v1_5::OutputValueValue, in_array: bool) -> Option<FileError> {
    if output_kind(value) == "text"@ {
        None
    } else if output_kind(value) == "number"@ {
        number_error(value.value)
    } else if !in_array && (output_kind(value) == "html"@ || output_kind(value) == "blank"@) {
        None
    } else {
        Some(FileError::UnknownOutputType(value.type_field))
    }
}

/// `new` is the output value `old` as a cell value of the new schema.
pub open spec fn output_upgraded(old: v1_5::OutputValueValue, new: v1_6::CellValue) -> bool {
    if output_kind(old) == "text"@ {
        new == v1_6::CellValue::Text(old.value)
    } else if output_kind(old) == "number"@ {
        match new {
            v1_6::CellValue::Number(n) => decimal_text(old.value@) == Some(n@),
            _ => false,
        }
    } else if output_kind(old) == "html"@ {
        new == v1_6::CellValue::Html(old.value)
    } else {
        new == v1_6::CellValue::Blank
    }
}

/// Upgrades one output value. A kind that is not known is refused, and so is
/// a number whose text is no decimal.
pub fn upgrade_output_value(value: v1_5::OutputValueValue, in_array: bool) -> (r: Result<
    v1_6::CellValue,
    FileError,
>)
    ensures
        match output_error(value, in_array) {
            Some(e) => r == Err::<v1_6::CellValue, FileError>(e),
            None => r matches Ok(new) && output_upgraded(value, new),
        },
{
    let kind = to_lowercase(value.type_field.as_str());
    let is_text = kind == String::from_str("text");
    let is_number = kind == String::from_str("number");
    let is_html = kind == String::from_str("html");
    let is_blank = kind == String::from_str("blank");
    proof {
        reveal_strlit("text");
        reveal_strlit("number");
        reveal_strlit("html");
        reveal_strlit("blank");
    }
    if is_text {
        Ok(v1_6::CellValue::Text(value.value))
    } else if is_number {
        match bigdecimal_text(value.value.as_str()) {
            Some(n) => Ok(v1_6::CellValue::Number(n)),
            None => Err(FileError::BadNumber(value.value)),
        }
    } else if !in_array && is_html {
        Ok(v1_6::CellValue::Html(value.value))
    } else if !in_array && is_blank {
        Ok(v1_6::CellValue::Blank)
    } else {
        Err(FileError::UnknownOutputType(value.type_field))
    }
}

/// The error of what a code run returned.
pub open spec fn result_error(result: v1_5::CodeRunResult) -> Option<FileError> {
    match result {
        v1_5::CodeRunResult::Output(v1_5::OutputValue::Single(v)) => output_error(v, false),
        v1_5::CodeRunResult::Output(v1_5::OutputValue::Array(a)) => first_error(
            a.values@,
            array_output_error(),
        ),
        v1_5::CodeRunResult::Failure(_) => None,
    }
}

/// `new` is the result `old` in the new schema.
pub open spec fn result_upgraded(old: v1_5::CodeRunResult, new: v1_6::CodeRunResult) -> bool {
    match old {
        v1_5::CodeRunResult::Output(v1_5::OutputValue::Single(v)) => match new {
            v1_6::CodeRunResult::Output(v1_6::OutputValue::Single(n)) => output_upgraded(v, n),
            _ => false,
        },
        v1_5::CodeRunResult::Output(v1_5::OutputValue::Array(a)) => match new {
            v1_6::CodeRunResult::Output(v1_6::OutputValue::Array(b)) => {
                &&& b.size.w == a.size.w
                &&& b.size.h == a.size.h
                &&& b.values@.len() == a.values@.len()
                &&& forall|i: int|
                    0 <= i < a.values@.len() ==> output_upgraded(
                        a.values@[i],
                        #[trigger] b.values@[i],
                    )
            },
            _ => false,
        },
        v1_5::CodeRunResult::Failure(e) => new == v1_6::CodeRunResult::Failure(e),
    }
}

/// Upgrades what a code run returned.
pub fn upgrade_result(result: v1_5::CodeRunResult) -> (r: Result<v1_6::CodeRunResult, FileError>)
    ensures
        match result_error(result) {
            Some(e) => r == Err::<v1_6::CodeRunResult, FileError>(e),
            None => r matches Ok(new) && result_upgraded(result, new),
        },
{
    match result {
        v1_5::CodeRunResult::Output(v1_5::OutputValue::Single(v)) => {
            let value = upgrade_output_value(v, false)?;
            Ok(v1_6::CodeRunResult::Output(v1_6::OutputValue::Single(value)))
        },
        v1_5::CodeRunResult::Output(v1_5::OutputValue::Array(a)) => {
            let ghost whole = a;
            let v1_5::OutputArray { size, values } = a;
            let mut out: Vec<v1_6::CellValue> = Vec::new();
            let ghost all = values@;
            for value in it: values
                invariant
                    it.seq() == all,
                    whole.values@ == all,
                    result == v1_5::CodeRunResult::Output(v1_5::OutputValue::Array(whole)),
                    out@.len() == it.index(),
                    forall|i: int| 0 <= i < it.index() ==> array_output_error()(#[trigger] all[i]) is None,
                    forall|i: int|
                        0 <= i < it.index() ==> output_upgraded(all[i], #[trigger] out@[i]),
            {
                let ghost i = it.index();
                proof {
                    lemma_first_error_skip(all, array_output_error(), i);
                    assert(all.skip(i)[0] == all[i]);
                }
                match upgrade_output_value(value, true) {
                    Ok(new) => {
                        out.push(new);
                    },
                    Err(e) => {
                        proof {
                            assert(value == all[i]);
                            assert(array_output_error()(all[i]) == Some(e));
                            assert(first_error(all.skip(i), array_output_error()) == Some(e));
                            assert(first_error(all, array_output_error()) == Some(e));

                        }
                        return Err(e);
                    },
                }
            }
            proof {
                lemma_first_error_skip(all, array_output_error(), all.len() as int);
            }
            Ok(
                v1_6::CodeRunResult::Output(
                    v1_6::OutputValue::Array(
                        v1_6::OutputArray {
                            size: v1_6::OutputSize { w: size.w, h: size.h },
                            values: out,
                        },
                    ),
                ),
            )
        },
        v1_5::CodeRunResult::Failure(e) => Ok(v1_6::CodeRunResult::Failure(e)),
    }
}

/// `new` is the code run `old` in the new schema: all of it as it was, but
/// for the result, which is told anew.
pub open spec fn code_run_upgraded(old: v1_5::CodeRun, new: v1_6::CodeRun) -> bool {
    &&& new.formatted_code_string == old.formatted_code_string
    &&& new.std_out == old.std_out
    &&& new.std_err == old.std_err
    &&& new.cells_accessed == old.cells_accessed
    &&& result_upgraded(old.result, new.result)
    &&& new.return_type == old.return_type
    &&& new.line_number == old.line_number
    &&& new.output_type == old.output_type
    &&& new.spill_error == old.spill_error
    &&& new.last_modified == old.last_modified
}

/// The error of the code runs of a sheet: that of the first run with one.
pub open spec fn code_runs_error(code_runs: Seq<(v1_5::Pos, v1_5::CodeRun)>) -> Option<FileError> {
    first_error(code_runs, code_run_entry_error())
}

/// The code runs of the new schema are those of the old one, each upgraded
/// at its own position.
pub open spec fn code_runs_upgraded(
    old_runs: Seq<(v1_5::Pos, v1_5::CodeRun)>,
    new_runs: Seq<(v1_6::Pos, v1_6::CodeRun)>,
) -> bool {
    &&& new_runs.len() == old_runs.len()
    &&& forall|i: int|
        0 <= i < old_runs.len() ==> (#[trigger] new_runs[i]).0.x == old_runs[i].0.x
            && new_runs[i].0.y == old_runs[i].0.y && code_run_upgraded(
            old_runs[i].1,
            new_runs[i].1,
        )
}

/// Upgrades the code runs of a sheet.
pub fn upgrade_code_runs(code_runs: Vec<(v1_5::Pos, v1_5::CodeRun)>) -> (r: Result<
    Vec<(v1_6::Pos, v1_6::CodeRun)>,
    FileError,
>)
    ensures
        match code_runs_error(code_runs@) {
            Some(e) => r == Err::<Vec<(v1_6::Pos, v1_6::CodeRun)>, FileError>(e),
            None => r matches Ok(new_runs) && code_runs_upgraded(code_runs@, new_runs@),
        },
{
    let mut out: Vec<(v1_6::Pos, v1_6::CodeRun)> = Vec::new();
    let ghost all = code_runs@;
    for entry in it: code_runs
        invariant
            it.seq() == all,
            out@.len() == it.index(),
            forall|i: int| 0 <= i < it.index() ==> code_run_entry_error()(#[trigger] all[i]) is None,
            forall|i: int|
                0 <= i < it.index() ==> (#[trigger] out@[i]).0.x == all[i].0.x && out@[i].0.y
                    == all[i].0.y && code_run_upgraded(all[i].1, out@[i].1),
    {
        let (pos, old_code_run) = entry;
        let ghost i = it.index();
        proof {
            lemma_first_error_skip(all, code_run_entry_error(), i);
            assert(all.skip(i)[0] == all[i]);
        }
        let v1_5::CodeRun {
            formatted_code_string,
            std_out,
            std_err,
            cells_accessed,
            result,
            return_type,
            line_number,
            output_type,
            spill_error,
            last_modified,
        } = old_code_run;
        match upgrade_result(result) {
            Ok(result) => {
                out.push(
                    (
                        v1_6::Pos { x: pos.x, y: pos.y },
                        v1_6::CodeRun {
                            formatted_code_string,
                            last_modified,
                            std_err,
                            std_out,
                            spill_error,
                            cells_accessed,
                            return_type,
                            line_number,
                            output_type,
                            result,
                        },
                    ),
                );
            },
            Err(e) => {
                return Err(e);
            },
        }
    }
    proof {
        lemma_first_error_skip(all, code_run_entry_error(), all.len() as int);
    }
    Ok(out)
}

/// Upgrades the borders of a sheet: they are the same in both schemas.
pub fn upgrade_borders(borders: v1_5::Borders) -> (r: v1_6::Borders)
    ensures
        r == borders,
{
    borders
}

/// The error of a sheet: that of its columns, or else that of its code runs.
pub open spec fn sheet_error(sheet: v1_5::Sheet) -> Option<FileError> {
    if columns_error(sheet.columns@) is Some {
        columns_error(sheet.columns@)
    } else {
        code_runs_error(sheet.code_runs@)
    }
}

/// `new` is the sheet `old` in the new schema.
pub open spec fn sheet_upgraded(old: v1_5::Sheet, new: v1_6::Sheet) -> bool {
    &&& new.id.id == old.id.id
    &&& new.name == old.name
    &&& new.color == old.color
    &&& new.order == old.order
    &&& new.offsets == old.offsets
    &&& columns_upgraded(old.columns@, new.columns@)
    &&& new.borders == old.borders
    &&& code_runs_upgraded(old.code_runs@, new.code_runs@)
}

/// Upgrades a sheet.
pub fn upgrade_sheet(sheet: v1_5::Sheet) -> (r: Result<v1_6::Sheet, FileError>)
    ensures
        match sheet_error(sheet) {
            Some(e) => r == Err::<v1_6::Sheet, FileError>(e),
            None => r matches Ok(new) && sheet_upgraded(sheet, new),
        },
{
    let v1_5::Sheet { id, name, color, order, offsets, columns, borders, code_runs } = sheet;
    let columns = upgrade_columns(columns)?;
    let borders = upgrade_borders(borders);
    let code_runs = upgrade_code_runs(code_runs)?;
    Ok(
        v1_6::Sheet {
            id: v1_6::Id::from(id.id),
            name,
            color,
            order,
            offsets,
            columns,
            borders,
            code_runs,
        },
    )
}

/// The error of a file: that of the first sheet with one.
pub open spec fn schema_error(schema: v1_5::GridSchema) -> Option<FileError> {
    first_error(schema.sheets@, sheet_entry_error())
}

/// `new` is the file `old` in the new schema: the same sheets, each
/// upgraded, under the new version.
pub open spec fn schema_upgraded(old: v1_5::GridSchema, new: v1_6::GridSchema) -> bool {
    &&& new.version matches Some(v) && v@ == "1.6"@
    &&& new.sheets@.len() == old.sheets@.len()
    &&& forall|i: int|
        0 <= i < old.sheets@.len() ==> sheet_upgraded(old.sheets@[i], #[trigger] new.sheets@[i])
}

/// Upgrades a file of version 1.5 to version 1.6. The first value that
/// cannot be told in the new schema ends the upgrade with its error.
pub fn upgrade(schema: v1_5::GridSchema) -> (r: Result<v1_6::GridSchema, FileError>)
    ensures
        match schema_error(schema) {
            Some(e) => r == Err::<v1_6::GridSchema, FileError>(e),
            None => r matches Ok(new) && schema_upgraded(schema, new),
        },
{
    let ghost whole = schema;
    let v1_5::GridSchema { sheets, version: _ } = schema;
    let mut out: Vec<v1_6::Sheet> = Vec::new();
    let ghost all = sheets@;
    for sheet in it: sheets
        invariant
            it.seq() == all,
            whole.sheets@ == all,
            whole == schema,
            out@.len() == it.index(),
            forall|i: int| 0 <= i < it.index() ==> sheet_entry_error()(#[trigger] all[i]) is None,
            forall|i: int| 0 <= i < it.index() ==> sheet_upgraded(all[i], #[trigger] out@[i]),
    {
        let ghost i = it.index();
        proof {
            lemma_first_error_skip(all, sheet_entry_error(), i);
            assert(all.skip(i)[0] == all[i]);
        }
        match upgrade_sheet(sheet) {
            Ok(new) => {
                out.push(new);
            },
            Err(e) => {
                return Err(e);
            },
        }
    }
    proof {
        lemma_first_error_skip(all, sheet_entry_error(), all.len() as int);
    }
    Ok(v1_6::GridSchema { version: Some(String::from_str("1.6")), sheets: out })
}

/// The error of a keyed value.
pub open spec fn value_entry_error() -> spec_fn((String, v1_5::CellValue)) -> Option<FileError> {
    |e: (String, v1_5::CellValue)| value_error(e.1)
}

/// The error of a column with its coordinate.
pub open spec fn column_entry_error() -> spec_fn((i64, v1_5::Column)) -> Option<FileError> {
    |e: (i64, v1_5::Column)| column_error(e.1)
}

/// The error of an output value within an array.
pub open spec fn array_output_error() -> spec_fn(v1_5::OutputValueValue) -> Option<FileError> {
    |v: v1_5::OutputValueValue| output_error(v, true)
}

/// The error of a code run with its position.
pub open spec fn code_run_entry_error() -> spec_fn((v1_5::Pos, v1_5::CodeRun)) -> Option<FileError> {
    |e: (v1_5::Pos, v1_5::CodeRun)| result_error(e.1.result)
}

/// The error of a sheet.
pub open spec fn sheet_entry_error() -> spec_fn(v1_5::Sheet) -> Option<FileError> {
    |s: v1_5::Sheet| sheet_error(s)
}

} // verus!
