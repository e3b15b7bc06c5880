//! Grids as the files of version 1.4 hold them: for each sheet a list of
//! cells and a list of the formatting of cells, in the order in which they
//! were written. Of several entries for one cell the last one counts.

use crate::grid::code::CodeRun;
use crate::grid::formatting::{
    opt_text, CellAlign, CellFormat, CellWrap, FormatModel, NumericFormat,
};
use crate::grid::ids::SheetId;
use crate::grid::sheet::{runs_alike, Sheet};
use crate::grid::sheets::{name_taken, sheet_le};
use crate::grid::track::{opt_model, TrackValue};
use crate::grid::Grid;
use crate::order::sorted_seq;
use crate::pos::Pos;
use crate::values::{CellValue, CodeCellLanguage, CodeCellValue};
use vstd::prelude::*;

verus! {

/// What a cell of a legacy file holds.
#[derive(Debug, PartialEq, Eq)]
#[allow(inconsistent_fields)]
pub enum JsCellContent {
    /// Nothing of its own: the cell shows the output of a code cell.
    Computed,
    /// A value.
    Value(CellValue),
    /// Code, with the outcome of running it where there is one.
    Code { language: CodeCellLanguage, code: String, run: Option<CodeRun> },
}

/// A cell of a legacy file.
#[derive(Debug, PartialEq, Eq)]
pub struct JsCell {
    pub x: i64,
    pub y: i64,
    pub content: JsCellContent,
}

/// The formatting of a cell of a legacy file.
#[derive(Debug, PartialEq, Eq)]
pub struct JsCellFormat {
    pub x: i64,
    pub y: i64,
    pub alignment: Option<CellAlign>,
    pub bold: Option<bool>,
    pub fill_color: Option<String>,
    pub italic: Option<bool>,
    pub text_color: Option<String>,
    pub text_format: Option<NumericFormat>,
    pub wrapping: Option<CellWrap>,
}

/// A sheet of a legacy file.
#[derive(Debug, PartialEq, Eq)]
pub struct JsSheet {
    pub name: String,
    pub order: String,
    pub cells: Vec<JsCell>,
    pub formats: Vec<JsCellFormat>,
}

/// A legacy file of version 1.4.
#[derive(Debug, PartialEq, Eq)]
pub struct GridFileV1_4 {
    pub sheets: Vec<JsSheet>,
}

/// A legacy file.
#[derive(Debug, PartialEq, Eq)]
pub enum GridFile {
    V1_4(GridFileV1_4),
}

impl JsCell {
    /// The code run that the cell brings is well formed.
    pub open spec fn wf(self) -> bool {
        self.content matches JsCellContent::Code { run: Some(r), .. } ==> r.wf()
    }

    /// The position of the cell.
    pub open spec fn at(self) -> Pos {
        Pos { x: self.x, y: self.y }
    }

    /// The value that the cell stores, if it stores one: its value, or its
    /// code.
    pub open spec fn stored(self) -> Option<CellValue> {
        match self.content {
            JsCellContent::Computed => None,
            JsCellContent::Value(v) => Some(v),
            JsCellContent::Code { language, code, .. } => Some(
                CellValue::Code(CodeCellValue { language, code }),
            ),
        }
    }
}

impl JsCellFormat {
    /// The position of the cell.
    pub open spec fn at(self) -> Pos {
        Pos { x: self.x, y: self.y }
    }

    /// The formatting that the entry gives its cell.
    pub open spec fn model(self) -> FormatModel {
        FormatModel {
            align: self.alignment,
            wrap: self.wrapping,
            numeric_format: opt_model(self.text_format),
            numeric_decimals: None,
            numeric_commas: None,
            bold: self.bold,
            italic: self.italic,
            text_color: opt_text(self.text_color),
            fill_color: opt_text(self.fill_color),
            render_size: None,
        }
    }
}

impl JsSheet {
    /// Every code run is well formed.
    pub open spec fn wf(self) -> bool {
        forall|i: int| 0 <= i < self.cells@.len() ==> (#[trigger] self.cells@[i]).wf()
    }
}

impl GridFile {
    /// The sheets of the file.
    pub open spec fn sheets(self) -> Seq<JsSheet> {
        match self {
            GridFile::V1_4(file) => file.sheets@,
        }
    }

    /// Every code run is well formed.
    pub open spec fn wf(self) -> bool {
        forall|i: int| 0 <= i < self.sheets().len() ==> (#[trigger] self.sheets()[i]).wf()
    }
}

/// The value that the cells of a legacy sheet give the cell at `p`: that of
/// the last entry for `p` that stores one; a blank clears the cell.
pub open spec fn legacy_cell(cells: Seq<JsCell>, p: Pos) -> Option<CellValue>
    decreases cells.len(),
{
    if cells.len() == 0 {
        None
    } else if cells.last().at() == p && cells.last().stored() is Some {
        if cells.last().stored() == Some(CellValue::Blank) {
            None
        } else {
            cells.last().stored()
        }
    } else {
        legacy_cell(cells.drop_last(), p)
    }
}

/// The code run that the cells of a legacy sheet give the cell at `p`: that
/// of the last entry with code for `p`.
pub open spec fn legacy_run(cells: Seq<JsCell>, p: Pos) -> Option<CodeRun>
    decreases cells.len(),
{
    if cells.len() == 0 {
        None
    } else {
        match cells.last().content {
            JsCellContent::Code { run, .. } => if cells.last().at() == p {
                run
            } else {
                legacy_run(cells.drop_last(), p)
            },
            _ => legacy_run(cells.drop_last(), p),
        }
    }
}

/// The formatting that the entries of a legacy sheet give the cell at `p`:
/// that of the last entry for `p`.
pub open spec fn legacy_format(formats: Seq<JsCellFormat>, p: Pos) -> FormatModel
    decreases formats.len(),
{
    if formats.len() == 0 {
        FormatModel::none()
    } else if formats.last().at() == p {
        formats.last().model()
    } else {
        legacy_format(formats.drop_last(), p)
    }
}

/// `sheet` is what the legacy sheet stands for: its name and key, the
/// values, code runs and formatting of its cells, and nothing else.
pub open spec fn sheet_from_legacy(js: JsSheet, sheet: Sheet) -> bool {
    &&& sheet.wf()
    &&& sheet.bounds_current()
    &&& sheet.name == js.name
    &&& sheet.order == js.order
    &&& sheet.color is None
    &&& forall|p: Pos| #[trigger] sheet.cell(p) == legacy_cell(js.cells@, p)
    &&& forall|p: Pos| runs_alike(#[trigger] sheet.code_run_at(p), legacy_run(js.cells@, p))
    &&& forall|p: Pos| #[trigger] sheet.format_model(p) == legacy_format(js.formats@, p)
    &&& sheet.validations.validations@.len() == 0
    &&& sheet.offsets.column_widths@ == Map::<i64, u64>::empty()
    &&& sheet.offsets.row_heights@ == Map::<i64, u64>::empty()
    &&& sheet.borders@.len() == 0
}

/// Two sheets of the file have one name.
pub open spec fn has_duplicate_name(sheets: Seq<JsSheet>) -> bool {
    exists|i: int, j: int|
        0 <= i < j < sheets.len() && (#[trigger] sheets[i]).name@ == (#[trigger] sheets[j]).name@
}

/// `built` holds, for each sheet of the file in turn, a sheet that stands
/// for it.
pub open spec fn built_from(sheets: Seq<JsSheet>, built: Seq<Sheet>) -> bool {
    &&& built.len() == sheets.len()
    &&& forall|i: int| 0 <= i < sheets.len() ==> sheet_from_legacy(sheets[i], #[trigger] built[i])
}

/// A copy of an optional text.
fn copy_text(text: &Option<String>) -> (r: Option<String>)
    ensures
        r == *text,
{
    match text {
        Some(t) => Some(t.clone()),
        None => None,
    }
}

/// Gives a cell the formatting of an entry of a legacy sheet.
fn set_legacy_format(sheet: &mut Sheet, format: &JsCellFormat)
    requires
        old(sheet).wf(),
        old(sheet).format_model(format.at()).numeric_decimals is None,
        old(sheet).format_model(format.at()).numeric_commas is None,
        old(sheet).format_model(format.at()).render_size is None,
    ensures
        final(sheet).wf(),
        final(sheet).same_frame(*old(sheet)),
        final(sheet).format_model(format.at()) == format.model(),
        forall|p: Pos|
            p != format.at() ==> #[trigger] final(sheet).format_model(p) == old(sheet).format_model(
                p,
            ),
        forall|p: Pos| #[trigger] final(sheet).cell(p) == old(sheet).cell(p),
{
    let pos = Pos { x: format.x, y: format.y };
    sheet.set_format_cell(pos, CellFormat::Align(format.alignment));
    sheet.set_format_cell(pos, CellFormat::Wrap(format.wrapping));
    let text_format = match &format.text_format {
        Some(f) => Some(f.duplicate()),
        None => None,
    };
    sheet.set_format_cell(pos, CellFormat::NumericFormat(text_format));
    sheet.set_format_cell(pos, CellFormat::Bold(format.bold));
    sheet.set_format_cell(pos, CellFormat::Italic(format.italic));
    sheet.set_format_cell(pos, CellFormat::TextColor(copy_text(&format.text_color)));
    sheet.set_format_cell(pos, CellFormat::FillColor(copy_text(&format.fill_color)));
}

/// The sheet that a legacy sheet stands for, under the id given.
pub fn sheet_of_legacy(js: &JsSheet, id: SheetId) -> (sheet: Sheet)
    requires
        js.wf(),
    ensures
        sheet.id == id,
        sheet_from_legacy(*js, sheet),
{
    let mut sheet = Sheet::new(id, js.name.clone(), js.order.clone());
    let mut i: usize = 0;
    assert(js.cells@.take(0) == Seq::<JsCell>::empty());
    while i < js.cells.len()
        invariant
            i <= js.cells@.len(),
            js.wf(),
            sheet.wf(),
            sheet.id == id,
            sheet.name == js.name,
            sheet.order == js.order,
            sheet.color is None,
            sheet.validations.validations@.len() == 0,
            sheet.offsets.column_widths@ == Map::<i64, u64>::empty(),
            sheet.offsets.row_heights@ == Map::<i64, u64>::empty(),
            sheet.borders@.len() == 0,
            forall|p: Pos| #[trigger] sheet.cell(p) == legacy_cell(js.cells@.take(i as int), p),
            forall|p: Pos|
                runs_alike(
                    #[trigger] sheet.code_run_at(p),
                    legacy_run(js.cells@.take(i as int), p),
                ),
            forall|p: Pos| #[trigger] sheet.format_model(p) == FormatModel::none(),
        decreases js.cells.len() - i,
    {
        let ghost before = js.cells@.take(i as int);
        let ghost after = js.cells@.take(i + 1);
        let ghost was = sheet;
        proof {
            assert(after.drop_last() == before);
            assert(after.last() == js.cells@[i as int]);
            assert(js.cells@[i as int].wf());
        }
        let cell = &js.cells[i];
        let pos = Pos { x: cell.x, y: cell.y };
        let ghost mut mid = sheet;
        match &cell.content {
            JsCellContent::Computed => {},
            JsCellContent::Value(v) => {
                sheet.set_cell_value(pos, v.clone());
                proof {
                    mid = sheet;
                }
            },
            JsCellContent::Code { language, code, run } => {
                sheet.set_cell_value(
                    pos,
                    CellValue::Code(CodeCellValue { language: *language, code: code.clone() }),
                );
                proof {
                    mid = sheet;
                }
                let copy = match run {
                    Some(r) => Some(r.clone()),
                    None => None,
                };
                sheet.set_code_cell(pos, copy);
            },
        }
        proof {
            assert forall|p: Pos| #[trigger] sheet.cell(p) == legacy_cell(after, p) by {
                assert(was.cell(p) == legacy_cell(before, p));
                assert(sheet.cell(p) == mid.cell(p));
                if p != pos {
                    assert(mid.cell(p) == was.cell(p));
                }
            }
            assert forall|p: Pos|
                runs_alike(#[trigger] sheet.code_run_at(p), legacy_run(after, p)) by {
                assert(runs_alike(was.code_run_at(p), legacy_run(before, p)));
                assert(mid.code_run_at(p) == was.code_run_at(p));
            }
            assert forall|p: Pos| #[trigger] sheet.format_model(p) == FormatModel::none() by {
                assert(was.format_model(p) == FormatModel::none());
                assert(mid.format_model(p) == was.format_model(p));
                assert(sheet.format_model(p) == mid.format_model(p));
            }
        }
        i += 1;
    }
    assert(js.cells@.take(js.cells@.len() as int) == js.cells@);
    let ghost filled = sheet;
    let mut k: usize = 0;
    assert(js.formats@.take(0) == Seq::<JsCellFormat>::empty());
    while k < js.formats.len()
        invariant
            k <= js.formats@.len(),
            sheet.wf(),
            sheet.same_frame(filled),
            forall|p: Pos| #[trigger] sheet.cell(p) == filled.cell(p),
            forall|p: Pos|
                #[trigger] sheet.format_model(p) == legacy_format(js.formats@.take(k as int), p),
            forall|p: Pos|
                {
                    let model = #[trigger] legacy_format(js.formats@.take(k as int), p);
                    model.numeric_decimals is None && model.numeric_commas is None
                        && model.render_size is None
                },
        decreases js.formats.len() - k,
    {
        let ghost before = js.formats@.take(k as int);
        let ghost after = js.formats@.take(k + 1);
        let ghost was = sheet;
        proof {
            assert(after.drop_last() == before);
            assert(after.last() == js.formats@[k as int]);
            let at = js.formats@[k as int].at();
            assert(was.format_model(at) == legacy_format(before, at));
        }
        set_legacy_format(&mut sheet, &js.formats[k]);
        proof {
            assert forall|p: Pos| #[trigger] sheet.format_model(p) == legacy_format(after, p) by {
                assert(was.format_model(p) == legacy_format(before, p));
            }
            assert forall|p: Pos| #[trigger] sheet.cell(p) == filled.cell(p) by {
                assert(was.cell(p) == filled.cell(p));
            }
            assert forall|p: Pos|
                {
                    let model = #[trigger] legacy_format(after, p);
                    model.numeric_decimals is None && model.numeric_commas is None
                        && model.render_size is None
                } by {
                let model = legacy_format(before, p);
                assert(model.numeric_decimals is None);
            }
        }
        k += 1;
    }
    assert(js.formats@.take(js.formats@.len() as int) == js.formats@);
    let ghost formatted = sheet;
    sheet.recalculate_bounds();
    proof {
        assert forall|p: Pos| #[trigger] sheet.cell(p) == legacy_cell(js.cells@, p) by {
            assert(formatted.cell(p) == filled.cell(p));
        }
        assert forall|p: Pos|
            runs_alike(#[trigger] sheet.code_run_at(p), legacy_run(js.cells@, p)) by {
            assert(runs_alike(filled.code_run_at(p), legacy_run(js.cells@, p)));
        }
        assert forall|p: Pos| #[trigger] sheet.format_model(p) == legacy_format(js.formats@, p) by {
            assert(formatted.format_model(p) == legacy_format(js.formats@, p));
        }
    }
    sheet
}

impl Grid {
    /// The grid that a legacy file stands for. Each sheet gets a new random
    /// id, and the sheets are brought into the order of their keys. A file
    /// in which two sheets have one name is refused.
    pub fn from_legacy(file: &GridFile) -> (r: Result<Grid, &'static str>)
        requires
            file.wf(),
        ensures
            match r {
                Ok(grid) => !has_duplicate_name(file.sheets()) && grid.wf() && grid.sorted()
                    && exists|built: Seq<Sheet>| #[trigger]
                    built_from(file.sheets(), built) && grid.sheets@ == sorted_seq(
                        built,
                        sheet_le(),
                    ),
                Err(e) => has_duplicate_name(file.sheets()) && e@ == "duplicate sheet name"@,
            },
    {
        let GridFile::V1_4(file_v1_4) = file;
        let ghost all = file_v1_4.sheets@;
        let mut sheets: Vec<Sheet> = Vec::new();
        let ghost mut built: Seq<Sheet> = Seq::empty();
        let mut i: usize = 0;
        while i < file_v1_4.sheets.len()
            invariant
                i <= all.len(),
                all == file_v1_4.sheets@,
                all == file.sheets(),
                file.wf(),
                built_from(all.take(i as int), built),
                sheets@ == sorted_seq(built, sheet_le()),
                forall|a: int, b: int|
                    0 <= a < b < i ==> (#[trigger] all[a]).name@ != (#[trigger] all[b]).name@,
            decreases file_v1_4.sheets.len() - i,
        {
            let js_sheet = &file_v1_4.sheets[i];
            proof {
                assert(all[i as int].wf());
            }
            let mut k: usize = 0;
            while k < i
                invariant
                    k <= i,
                    i < all.len(),
                    all == file_v1_4.sheets@,
                    all == file.sheets(),
                    *js_sheet == all[i as int],
                    forall|a: int| 0 <= a < k ==> (#[trigger] all[a]).name@ != all[i as int].name@,
                decreases i - k,
            {
                if file_v1_4.sheets[k].name == js_sheet.name {
                    assert(all[k as int].name@ == all[i as int].name@);
                    return Err("duplicate sheet name");
                }
                k += 1;
            }
            let sheet = sheet_of_legacy(js_sheet, SheetId::new());
            proof {
                let longer = built.push(sheet);
                assert(longer.drop_last() == built);
                assert(all.take(i + 1).len() == longer.len());
                assert forall|j: int| 0 <= j < i + 1 implies sheet_from_legacy(
                    all.take(i + 1)[j],
                    #[trigger] longer[j],
                ) by {
                    if j < i {
                        assert(all.take(i as int)[j] == all[j]);
                        assert(longer[j] == built[j]);
                    }
                }
                built = longer;
            }
            Grid::insert_in_order(&mut sheets, sheet);
            i += 1;
        }
        proof {
            assert(all.take(all.len() as int) == all);
            crate::grid::sheets::lemma_sheet_le_total();
            crate::order::lemma_sorted_seq(built, sheet_le());
            if has_duplicate_name(all) {
                let (a, b) = choose|a: int, b: int|
                    0 <= a < b < all.len() && (#[trigger] all[a]).name@ == (#[trigger] all[b]).name@;
                assert(false);
            }
        }
        let grid = Grid { sheets };
        proof {
            assert forall|j: int| 0 <= j < grid.sheets@.len() implies (
            #[trigger] grid.sheets@[j]).wf() by {
                assert(grid.sheets@.contains(grid.sheets@[j]));
                assert(built.contains(grid.sheets@[j]));
                let m = choose|m: int| 0 <= m < built.len() && built[m] == grid.sheets@[j];
                assert(sheet_from_legacy(all[m], built[m]));
            }
        }
        Ok(grid)
    }
}

} // verus!
