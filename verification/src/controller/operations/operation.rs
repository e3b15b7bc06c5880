//! The closed set of atomic changes of a grid.

use crate::grid::borders::{clone_borders, CellBorders};
use crate::grid::code::{clone_opt_string, CodeRun};
use crate::grid::formatting::CellFormat;
use crate::grid::ids::SheetId;
use crate::grid::sheet::validations::validation::Validation;
use crate::grid::sheet::Sheet;
use crate::pos::SheetPos;
use crate::rect::SheetRect;
use crate::values::array::Array;
use vstd::prelude::*;

verus! {

/// One atomic change of a grid. Every operation says by itself what it
/// changes, and for every operation another one undoes it.
#[derive(Debug, PartialEq, Eq)]
pub enum Operation {
    /// Gives the cells of a rectangle the values of an array of its size.
    SetCellValues { sheet_rect: SheetRect, values: Array },
    /// Sets or deletes the code run of a code cell.
    SetCodeCell { sheet_pos: SheetPos, code_cell_value: Option<CodeRun> },
    /// Asks for the code cell at a position to be run.
    ComputeCode { sheet_pos: SheetPos },
    /// Changes one formatting attribute of each cell of a rectangle, row by
    /// row.
    SetCellFormats { sheet_rect: SheetRect, formats: Vec<CellFormat> },
    /// Replaces the borders of a sheet.
    SetBorders { sheet_id: SheetId, borders: Vec<CellBorders> },
    AddSheet { sheet: Sheet },
    DeleteSheet { sheet_id: SheetId },
    /// Gives a sheet a new order key.
    ReorderSheet { target: SheetId, order: String },
    SetSheetName { sheet_id: SheetId, name: String },
    SetSheetColor { sheet_id: SheetId, color: Option<String> },
    /// Sets the width of a column, or makes it the default again.
    ResizeColumn { sheet_id: SheetId, column: i64, new_size: Option<u64> },
    /// Sets the height of a row, or makes it the default again.
    ResizeRow { sheet_id: SheetId, row: i64, new_size: Option<u64> },
    /// Adds a validation, or replaces the one with the same id.
    SetValidation { validation: Validation },
    RemoveValidation { sheet_id: SheetId, validation_id: u128 },
}

impl Operation {
    /// What the operation carries is well formed.
    pub open spec fn wf(self) -> bool {
        match self {
            Operation::SetCellValues { sheet_rect, values } => values.wf(),
            Operation::SetCodeCell { sheet_pos, code_cell_value } => code_cell_value matches Some(
                run,
            ) ==> run.wf(),
            Operation::AddSheet { sheet } => sheet.wf(),
            _ => true,
        }
    }

    /// The sheet that the operation changes; none for the operation that
    /// adds one.
    pub open spec fn target(self) -> Option<SheetId> {
        match self {
            Operation::SetCellValues { sheet_rect, .. } => Some(sheet_rect.sheet_id),
            Operation::SetCodeCell { sheet_pos, .. } => Some(sheet_pos.sheet_id),
            Operation::ComputeCode { sheet_pos } => Some(sheet_pos.sheet_id),
            Operation::SetCellFormats { sheet_rect, .. } => Some(sheet_rect.sheet_id),
            Operation::SetBorders { sheet_id, .. } => Some(sheet_id),
            Operation::AddSheet { .. } => None,
            Operation::DeleteSheet { sheet_id } => Some(sheet_id),
            Operation::ReorderSheet { target, .. } => Some(target),
            Operation::SetSheetName { sheet_id, .. } => Some(sheet_id),
            Operation::SetSheetColor { sheet_id, .. } => Some(sheet_id),
            Operation::ResizeColumn { sheet_id, .. } => Some(sheet_id),
            Operation::ResizeRow { sheet_id, .. } => Some(sheet_id),
            Operation::SetValidation { validation } => Some(validation.selection.sheet_id),
            Operation::RemoveValidation { sheet_id, .. } => Some(sheet_id),
        }
    }
}

impl Operation {
    /// Whether what the operation carries is well formed.
    pub fn is_wf(&self) -> (b: bool)
        ensures
            b == self.wf(),
    {
        match self {
            Operation::SetCellValues { values, .. } => values.is_wf(),
            Operation::SetCodeCell { code_cell_value, .. } => match code_cell_value {
                Some(run) => run.is_wf(),
                None => true,
            },
            Operation::AddSheet { sheet } => sheet.is_wf(),
            _ => true,
        }
    }

    /// The sheet that the operation changes; none for the operation that
    /// adds one.
    pub fn target_id(&self) -> (r: Option<SheetId>)
        ensures
            r == self.target(),
    {
        match self {
            Operation::SetCellValues { sheet_rect, .. } => Some(sheet_rect.sheet_id),
            Operation::SetCodeCell { sheet_pos, .. } => Some(sheet_pos.sheet_id),
            Operation::ComputeCode { sheet_pos } => Some(sheet_pos.sheet_id),
            Operation::SetCellFormats { sheet_rect, .. } => Some(sheet_rect.sheet_id),
            Operation::SetBorders { sheet_id, .. } => Some(*sheet_id),
            Operation::AddSheet { .. } => None,
            Operation::DeleteSheet { sheet_id } => Some(*sheet_id),
            Operation::ReorderSheet { target, .. } => Some(*target),
            Operation::SetSheetName { sheet_id, .. } => Some(*sheet_id),
            Operation::SetSheetColor { sheet_id, .. } => Some(*sheet_id),
            Operation::ResizeColumn { sheet_id, .. } => Some(*sheet_id),
            Operation::ResizeRow { sheet_id, .. } => Some(*sheet_id),
            Operation::SetValidation { validation } => Some(validation.selection.sheet_id),
            Operation::RemoveValidation { sheet_id, .. } => Some(*sheet_id),
        }
    }

    /// The cells that the operation touches, where it touches cells of a
    /// rectangle.
    pub open spec fn spec_dirty_rect(self) -> Option<SheetRect> {
        match self {
            Operation::SetCellValues { sheet_rect, .. } => Some(sheet_rect),
            Operation::SetCellFormats { sheet_rect, .. } => Some(sheet_rect),
            Operation::SetCodeCell { sheet_pos, .. } => Some(
                SheetRect {
                    min: sheet_pos.spec_pos(),
                    max: sheet_pos.spec_pos(),
                    sheet_id: sheet_pos.sheet_id,
                },
            ),
            _ => None,
        }
    }

    /// The cells that the operation touches, where it touches cells of a
    /// rectangle.
    pub fn dirty_rect(&self) -> (r: Option<SheetRect>)
        ensures
            r == self.spec_dirty_rect(),
    {
        match self {
            Operation::SetCellValues { sheet_rect, .. } => Some(*sheet_rect),
            Operation::SetCellFormats { sheet_rect, .. } => Some(*sheet_rect),
            Operation::SetCodeCell { sheet_pos, .. } => Some(
                SheetRect::single_sheet_pos(*sheet_pos),
            ),
            _ => None,
        }
    }

    /// Whether the operation changes a sheet as a whole or the list of
    /// sheets, and not the cells of a rectangle.
    pub open spec fn spec_changes_sheets(self) -> bool {
        self.spec_dirty_rect() is None && !(self is ComputeCode)
    }
}

/// Both lists of formatting changes do the same, change by change.
pub open spec fn formats_alike(a: Seq<CellFormat>, b: Seq<CellFormat>) -> bool {
    a.len() == b.len() && forall|i: int| 0 <= i < a.len() ==> (#[trigger] a[i]).alike(b[i])
}

/// Both lists hold operations that ask for the same, one by one.
pub open spec fn ops_alike(a: Seq<Operation>, b: Seq<Operation>) -> bool {
    a.len() == b.len() && forall|i: int| 0 <= i < a.len() ==> (#[trigger] a[i]).alike(b[i])
}

/// Every operation of the list is well formed.
pub open spec fn ops_wf(ops: Seq<Operation>) -> bool {
    forall|i: int| 0 <= i < ops.len() ==> (#[trigger] ops[i]).wf()
}

impl Operation {
    /// Both operations ask for the same change.
    pub open spec fn alike(self, other: Operation) -> bool {
        match (self, other) {
            (
                Operation::SetCellValues { sheet_rect: a, values: v },
                Operation::SetCellValues { sheet_rect: b, values: w },
            ) => a == b && v.alike(w),
            (
                Operation::SetCodeCell { sheet_pos: a, code_cell_value: v },
                Operation::SetCodeCell { sheet_pos: b, code_cell_value: w },
            ) => a == b && match (v, w) {
                (Some(run), Some(other_run)) => run.alike(other_run),
                (None, None) => true,
                _ => false,
            },
            (
                Operation::SetCellFormats { sheet_rect: a, formats: v },
                Operation::SetCellFormats { sheet_rect: b, formats: w },
            ) => a == b && formats_alike(v@, w@),
            (
                Operation::SetBorders { sheet_id: a, borders: v },
                Operation::SetBorders { sheet_id: b, borders: w },
            ) => a == b && v@ == w@,
            (Operation::AddSheet { sheet: a }, Operation::AddSheet { sheet: b }) => a.same_content(
                b,
            ),
            (
                Operation::SetValidation { validation: a },
                Operation::SetValidation { validation: b },
            ) => a.alike(b),
            (a, b) => a == b,
        }
    }

    /// An operation that asks for the same change.
    pub fn duplicate(&self) -> (r: Operation)
        requires
            self.wf(),
        ensures
            r.alike(*self),
            r.wf(),
    {
        match self {
            Operation::SetCellValues { sheet_rect, values } => Operation::SetCellValues {
                sheet_rect: *sheet_rect,
                values: values.clone(),
            },
            Operation::SetCodeCell { sheet_pos, code_cell_value } => Operation::SetCodeCell {
                sheet_pos: *sheet_pos,
                code_cell_value: match code_cell_value {
                    Some(run) => Some(run.clone()),
                    None => None,
                },
            },
            Operation::ComputeCode { sheet_pos } => Operation::ComputeCode { sheet_pos: *sheet_pos },
            Operation::SetCellFormats { sheet_rect, formats } => {
                let mut copies: Vec<CellFormat> = Vec::new();
                let mut i: usize = 0;
                while i < formats.len()
                    invariant
                        i <= formats@.len(),
                        copies@.len() == i,
                        forall|j: int| 0 <= j < i ==> (#[trigger] copies@[j]).alike(formats@[j]),
                    decreases formats.len() - i,
                {
                    copies.push(formats[i].duplicate());
                    i += 1;
                }
                Operation::SetCellFormats { sheet_rect: *sheet_rect, formats: copies }
            },
            Operation::SetBorders { sheet_id, borders } => Operation::SetBorders {
                sheet_id: *sheet_id,
                borders: clone_borders(borders),
            },
            Operation::AddSheet { sheet } => Operation::AddSheet { sheet: sheet.duplicate() },
            Operation::DeleteSheet { sheet_id } => Operation::DeleteSheet { sheet_id: *sheet_id },
            Operation::ReorderSheet { target, order } => Operation::ReorderSheet {
                target: *target,
                order: order.clone(),
            },
            Operation::SetSheetName { sheet_id, name } => Operation::SetSheetName {
                sheet_id: *sheet_id,
                name: name.clone(),
            },
            Operation::SetSheetColor { sheet_id, color } => Operation::SetSheetColor {
                sheet_id: *sheet_id,
                color: clone_opt_string(color),
            },
            Operation::ResizeColumn { sheet_id, column, new_size } => Operation::ResizeColumn {
                sheet_id: *sheet_id,
                column: *column,
                new_size: *new_size,
            },
            Operation::ResizeRow { sheet_id, row, new_size } => Operation::ResizeRow {
                sheet_id: *sheet_id,
                row: *row,
                new_size: *new_size,
            },
            Operation::SetValidation { validation } => Operation::SetValidation {
                validation: validation.clone(),
            },
            Operation::RemoveValidation { sheet_id, validation_id } => Operation::RemoveValidation {
                sheet_id: *sheet_id,
                validation_id: *validation_id,
            },
        }
    }
}

/// Whether every operation of the list is well formed.
pub fn is_ops_wf(ops: &Vec<Operation>) -> (b: bool)
    ensures
        b == ops_wf(ops@),
{
    let mut i: usize = 0;
    while i < ops.len()
        invariant
            i <= ops@.len(),
            forall|k: int| 0 <= k < i ==> (#[trigger] ops@[k]).wf(),
        decreases ops.len() - i,
    {
        if !ops[i].is_wf() {
            return false;
        }
        i += 1;
    }
    true
}

/// Adds to `out` operations that ask for the same as those of `ops`, in
/// their order.
pub fn push_duplicates(out: &mut Vec<Operation>, ops: &Vec<Operation>)
    requires
        ops_wf(ops@),
        ops_wf(old(out)@),
    ensures
        ops_wf(final(out)@),
        final(out)@.len() == old(out)@.len() + ops@.len(),
        final(out)@.take(old(out)@.len() as int) == old(out)@,
        ops_alike(final(out)@.skip(old(out)@.len() as int), ops@),
{
    let ghost before = out@;
    let mut i: usize = 0;
    while i < ops.len()
        invariant
            i <= ops@.len(),
            ops_wf(ops@),
            ops_wf(out@),
            out@.len() == before.len() + i,
            out@.take(before.len() as int) == before,
            forall|j: int| 0 <= j < i ==> (#[trigger] out@[before.len() + j]).alike(ops@[j]),
        decreases ops.len() - i,
    {
        let copy = ops[i].duplicate();
        out.push(copy);
        i += 1;
        assert(out@.take(before.len() as int) =~= before);
    }
    assert forall|j: int| 0 <= j < ops@.len() implies (#[trigger] out@.skip(
        before.len() as int,
    )[j]).alike(ops@[j]) by {
        assert(out@.skip(before.len() as int)[j] == out@[before.len() + j]);
    }
}

} // verus!
