//! Checks of what a grid holds, and a view of a part of a sheet as a table,
//! for the tests of programs that use the library.

use crate::controller::GridController;
use crate::grid::formatting::CellFormat;
use crate::grid::ids::SheetId;
use crate::grid::sheet::Sheet;
use crate::grid::sheets::{is_first_with_id, no_sheet_with_id};
use crate::pos::Pos;
use crate::rect::Rect;
use crate::values::decimal::{i64_to_string, int_text, Decimal};
use crate::values::CellValue;
use vstd::prelude::*;

verus! {

/// Whether `v` is the value that the text stands for: the number that it
/// spells, or else the text itself.
pub open spec fn spelled(value: Seq<char>, v: CellValue) -> bool {
    match Decimal::spec_parse(value) {
        Some(t) => (v matches CellValue::Number(d) && d@ == t),
        None => (v matches CellValue::Text(s) && s@ == value),
    }
}

/// Whether the cell of the sheet holds the value that the text stands for.
pub open spec fn sheet_has_value(sheet: Sheet, x: i64, y: i64, value: Seq<char>) -> bool {
    match sheet.cell(Pos { x, y }) {
        Some(v) => spelled(value, v),
        None => false,
    }
}

/// Whether the grid has a sheet with the id, and the cell `(x, y)` of the
/// first such sheet holds the value that the text stands for.
pub open spec fn has_cell_value(
    grid_controller: GridController,
    sheet_id: SheetId,
    x: i64,
    y: i64,
    value: Seq<char>,
) -> bool {
    exists|i: int| #[trigger]
        is_first_with_id(grid_controller.grid.sheets@, sheet_id, i) && sheet_has_value(
            grid_controller.grid.sheets@[i],
            x,
            y,
            value,
        )
}

/// There is one first sheet with an id at most.
pub proof fn lemma_first_sheet_unique(sheets: Seq<Sheet>, id: SheetId, i: int, j: int)
    requires
        is_first_with_id(sheets, id, i),
        is_first_with_id(sheets, id, j),
    ensures
        i == j,
{
    if i < j {
        assert(sheets[i].id != id);
    }
    if j < i {
        assert(sheets[j].id != id);
    }
}

/// Whether a cell of a sheet holds the value that the text stands for.
fn sheet_holds(sheet: &Sheet, x: i64, y: i64, value: &str) -> (ok: bool)
    ensures
        ok == sheet_has_value(*sheet, x, y, value@),
{
    match sheet.get_cell_value(Pos { x, y }) {
        None => false,
        Some(v) => match Decimal::parse(value) {
            Some(number) => match v {
                CellValue::Number(d) => d.same(&number),
                _ => false,
            },
            None => match v {
                CellValue::Text(s) => crate::formulas::functions::string::exact(s.as_str(), value),
                _ => false,
            },
        },
    }
}

/// Says whether a cell holds the value that the text stands for: the number
/// that it spells, or else the text itself. A sheet that does not exist
/// holds nothing.
pub fn assert_cell_value(
    grid_controller: &GridController,
    sheet_id: SheetId,
    x: i64,
    y: i64,
    value: &str,
) -> (ok: bool)
    ensures
        ok == has_cell_value(*grid_controller, sheet_id, x, y, value@),
{
    match grid_controller.grid().try_sheet(sheet_id) {
        None => {
            proof {
                if has_cell_value(*grid_controller, sheet_id, x, y, value@) {
                    let i = choose|i: int| #[trigger]
                        is_first_with_id(grid_controller.grid.sheets@, sheet_id, i);
                    assert(grid_controller.grid.sheets@[i].id == sheet_id);
                }
            }
            false
        },
        Some(sheet) => {
            let ok = sheet_holds(sheet, x, y, value);
            proof {
                let i = choose|i: int| #[trigger]
                    is_first_with_id(grid_controller.grid.sheets@, sheet_id, i) && *sheet
                        == grid_controller.grid.sheets@[i];
                if has_cell_value(*grid_controller, sheet_id, x, y, value@) {
                    let j = choose|j: int| #[trigger]
                        is_first_with_id(grid_controller.grid.sheets@, sheet_id, j)
                            && sheet_has_value(grid_controller.grid.sheets@[j], x, y, value@);
                    lemma_first_sheet_unique(grid_controller.grid.sheets@, sheet_id, i, j);
                }
            }
            ok
        },
    }
}

/// Says whether the cells of row `y` from column `x_start` to column `x_end`
/// hold, one after the other, the values that the texts stand for.
pub fn assert_cell_value_row(
    grid_controller: &GridController,
    sheet_id: SheetId,
    x_start: i64,
    x_end: i64,
    y: i64,
    value: Vec<&str>,
) -> (ok: bool)
    requires
        value@.len() >= x_end - x_start + 1,
    ensures
        ok == forall|i: int|
            0 <= i <= x_end - x_start ==> has_cell_value(
                *grid_controller,
                sheet_id,
                (x_start + i) as i64,
                y,
                (#[trigger] value@[i])@,
            ),
{
    if x_start > x_end {
        return true;
    }
    let n = value.len();
    let mut index: usize = 0;
    let mut x: i64 = x_start;
    loop
        invariant
            x_start <= x <= x_end,
            index == x - x_start,
            n == value@.len(),
            value@.len() >= x_end - x_start + 1,
            forall|i: int|
                0 <= i < index ==> has_cell_value(
                    *grid_controller,
                    sheet_id,
                    (x_start + i) as i64,
                    y,
                    (#[trigger] value@[i])@,
                ),
        decreases x_end - x,
    {
        if !assert_cell_value(grid_controller, sheet_id, x, y, value[index]) {
            return false;
        }
        if x == x_end {
            return true;
        }
        x += 1;
        index += 1;
    }
}

/// A part of a sheet laid out as a table.
#[derive(Debug, PartialEq, Eq)]
pub struct Table {
    /// An empty text, then the numbers of the columns.
    pub header: Vec<String>,
    /// For each row its number, then the texts that its cells show.
    pub records: Vec<Vec<String>>,
    /// The places in the table, row and column counted from one below and
    /// beside the header, of the cells that have boldness set.
    pub bolds: Vec<(u64, u64)>,
}

/// The text that a cell of a sheet shows in a table: nothing where it holds
/// nothing.
pub open spec fn shown_at(sheet: Sheet, x: int, y: int) -> Seq<char> {
    match sheet.cell(Pos { x: x as i64, y: y as i64 }) {
        Some(v) => v.display_text(),
        None => Seq::empty(),
    }
}

/// Whether the cell has boldness set.
pub open spec fn bold_at(sheet: Sheet, x: int, y: int) -> bool {
    sheet.format_model(Pos { x: x as i64, y: y as i64 }).bold is Some
}

/// `record` is the row `y` of the table of `range`.
pub open spec fn is_record(sheet: Sheet, range: Rect, y: int, record: Seq<String>) -> bool {
    &&& record.len() == range.spec_width() + 1
    &&& record[0]@ == int_text(y)
    &&& forall|i: int|
        0 <= i < range.spec_width() ==> (#[trigger] record[i + 1])@ == shown_at(
            sheet,
            range.min.x + i,
            y,
        )
}

/// `table` is the part `range` of the sheet as a table.
pub open spec fn is_table(sheet: Sheet, range: Rect, table: Table) -> bool {
    &&& table.header@.len() == range.spec_width() + 1
    &&& table.header@[0]@.len() == 0
    &&& forall|i: int|
        0 <= i < range.spec_width() ==> (#[trigger] table.header@[i + 1])@ == int_text(
            range.min.x + i,
        )
    &&& table.records@.len() == range.spec_height()
    &&& forall|j: int|
        0 <= j < range.spec_height() ==> is_record(
            sheet,
            range,
            range.min.y + j,
            (#[trigger] table.records@[j])@,
        )
    &&& forall|k: int|
        0 <= k < table.bolds@.len() ==> {
            let place = #[trigger] table.bolds@[k];
            &&& 1 <= place.0 <= range.spec_height()
            &&& 1 <= place.1 <= range.spec_width()
            &&& bold_at(sheet, range.min.x + place.1 - 1, range.min.y + place.0 - 1)
        }
    &&& forall|i: int, j: int|
        0 <= i < range.spec_width() && 0 <= j < range.spec_height() && #[trigger] bold_at(
            sheet,
            range.min.x + i,
            range.min.y + j,
        ) ==> table.bolds@.contains(((j + 1) as u64, (i + 1) as u64))
}

/// Whether a cell has boldness set.
fn is_bold(sheet: &Sheet, pos: Pos) -> (b: bool)
    requires
        sheet.wf(),
    ensures
        b == bold_at(*sheet, pos.x as int, pos.y as int),
{
    match sheet.get_format_cell(pos, &CellFormat::Bold(None)) {
        CellFormat::Bold(Some(_)) => true,
        _ => false,
    }
}

/// The text that a cell shows in a table.
fn shown(sheet: &Sheet, pos: Pos) -> (r: String)
    ensures
        r@ == shown_at(*sheet, pos.x as int, pos.y as int),
{
    match sheet.get_cell_value(pos) {
        Some(v) => v.to_display(),
        None => String::new(),
    }
}

/// Lays a part of the first sheet with the id out as a table, for printing:
/// a header with the numbers of the columns, a record for each row with its
/// number and the texts that its cells show, and the places of the cells
/// that have boldness set. There is no table where there is no such sheet or
/// the part has more columns or rows than a 32-bit number can count.
pub fn table_of(grid_controller: &GridController, sheet_id: SheetId, range: &Rect) -> (r: Option<
    Table,
>)
    requires
        grid_controller.wf(),
        range.wf(),
    ensures
        match r {
            Some(table) => range.fits_u32() && exists|i: int| #[trigger]
                is_first_with_id(grid_controller.grid.sheets@, sheet_id, i) && is_table(
                    grid_controller.grid.sheets@[i],
                    *range,
                    table,
                ),
            None => !range.fits_u32() || no_sheet_with_id(grid_controller.grid.sheets@, sheet_id),
        },
{
    let sheet = match grid_controller.grid().try_sheet(sheet_id) {
        Some(sheet) => sheet,
        None => {
            return None;
        },
    };
    let w: i128 = range.max.x as i128 - range.min.x as i128 + 1;
    let h: i128 = range.max.y as i128 - range.min.y as i128 + 1;
    if w > 0xFFFF_FFFF || h > 0xFFFF_FFFF {
        return None;
    }
    proof {
        let i = choose|i: int| #[trigger]
            is_first_with_id(grid_controller.grid.sheets@, sheet_id, i) && *sheet
                == grid_controller.grid.sheets@[i];
        assert(grid_controller.grid.sheets@[i].wf());
    }
    let mut header: Vec<String> = Vec::new();
    header.push(String::new());
    let mut i: i128 = 0;
    while i < w
        invariant
            0 <= i <= w,
            w == range.spec_width(),
            range.wf(),
            header@.len() == i + 1,
            header@[0]@.len() == 0,
            forall|k: int| 0 <= k < i ==> (#[trigger] header@[k + 1])@ == int_text(range.min.x + k),
        decreases w - i,
    {
        header.push(i64_to_string((range.min.x as i128 + i) as i64));
        i += 1;
    }
    let mut records: Vec<Vec<String>> = Vec::new();
    let mut bolds: Vec<(u64, u64)> = Vec::new();
    let mut j: i128 = 0;
    while j < h
        invariant
            0 <= j <= h,
            w == range.spec_width(),
            h == range.spec_height(),
            1 <= w <= u32::MAX,
            1 <= h <= u32::MAX,
            range.wf(),
            sheet.wf(),
            records@.len() == j,
            forall|n: int|
                0 <= n < j ==> is_record(*sheet, *range, range.min.y + n, (#[trigger] records@[n])@),
            forall|k: int|
                0 <= k < bolds@.len() ==> {
                    let place = #[trigger] bolds@[k];
                    &&& 1 <= place.0 <= j
                    &&& 1 <= place.1 <= w
                    &&& bold_at(*sheet, range.min.x + place.1 - 1, range.min.y + place.0 - 1)
                },
            forall|m: int, n: int|
                0 <= m < w && 0 <= n < j && #[trigger] bold_at(
                    *sheet,
                    range.min.x + m,
                    range.min.y + n,
                ) ==> bolds@.contains(((n + 1) as u64, (m + 1) as u64)),
        decreases h - j,
    {
        let y = (range.min.y as i128 + j) as i64;
        let mut record: Vec<String> = Vec::new();
        record.push(i64_to_string(y));
        let mut i: i128 = 0;
        while i < w
            invariant
                0 <= i <= w,
                0 <= j < h,
                y == range.min.y + j,
                w == range.spec_width(),
                h == range.spec_height(),
                1 <= w <= u32::MAX,
                1 <= h <= u32::MAX,
                range.wf(),
                sheet.wf(),
                record@.len() == i + 1,
                record@[0]@ == int_text(y as int),
                forall|k: int|
                    0 <= k < i ==> (#[trigger] record@[k + 1])@ == shown_at(
                        *sheet,
                        range.min.x + k,
                        y as int,
                    ),
                forall|k: int|
                    0 <= k < bolds@.len() ==> {
                        let place = #[trigger] bolds@[k];
                        &&& 1 <= place.0 <= j + 1
                        &&& 1 <= place.1 <= w
                        &&& bold_at(*sheet, range.min.x + place.1 - 1, range.min.y + place.0 - 1)
                    },
                forall|m: int, n: int|
                    0 <= m < w && 0 <= n < j && #[trigger] bold_at(
                        *sheet,
                        range.min.x + m,
                        range.min.y + n,
                    ) ==> bolds@.contains(((n + 1) as u64, (m + 1) as u64)),
                forall|m: int|
                    0 <= m < i && #[trigger] bold_at(*sheet, range.min.x + m, range.min.y + j)
                        ==> bolds@.contains(((j + 1) as u64, (m + 1) as u64)),
            decreases w - i,
        {
            let pos = Pos { x: (range.min.x as i128 + i) as i64, y };
            if is_bold(sheet, pos) {
                let ghost before = bolds@;
                bolds.push(((j + 1) as u64, (i + 1) as u64));
                proof {
                    assert(bolds@[before.len() as int] == ((j + 1) as u64, (i + 1) as u64));
                    assert forall|p: (u64, u64)| before.contains(p) implies bolds@.contains(p) by {
                        let k = choose|k: int| 0 <= k < before.len() && before[k] == p;
                        assert(bolds@[k] == p);
                    }
                }
            }
            record.push(shown(sheet, pos));
            i += 1;
        }
        records.push(record);
        j += 1;
    }
    Some(Table { header, records, bolds })
}

} // verus!
