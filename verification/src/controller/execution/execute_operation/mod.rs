//! The dispatcher of operations: what each operation does to a grid, and
//! which operation undoes it.

pub mod execute_set_cell_formats;
pub mod execute_set_cell_values;

use crate::controller::active_transactions::pending_transaction::PendingTransaction;
use crate::controller::execution::execute_operation::execute_set_cell_formats::{
    formats_kept, formats_set, holds, rect_holds, set_formats,
};
use crate::controller::execution::execute_operation::execute_set_cell_values::{
    fits, rect_fits, set_values, values_kept, values_set,
};
use crate::controller::operations::operation::Operation;
use crate::controller::GridController;
use crate::grid::borders::clone_borders;
use crate::grid::code::clone_opt_string;
use crate::grid::ids::SheetId;
use crate::grid::offsets::with_entry;
use crate::grid::sheet::validations::validations_alike;
use crate::grid::sheet::{runs_alike, Sheet};
use crate::grid::sheets::{
    added_at, is_first_with_id, is_free_name, no_sheet_with_id, sheet_le,
};
use crate::grid::Grid;
use crate::order::sorted_seq;
use crate::pos::Pos;
use crate::rect::SheetRect;
use vstd::prelude::*;

verus! {

/// Why an operation could not be applied. The transaction that holds the
/// operation ends there; what it had applied before stays applied.
#[derive(Clone, Copy, Debug, PartialEq, Eq, Hash, Structural)]
pub enum TransactionError {
    /// No sheet has the id that the operation names.
    SheetNotFound(SheetId),
    /// The values or changes that the operation carries are not as many as
    /// the cells of its rectangle.
    SizeMismatch,
}

/// The place of the first sheet with the given id.
pub open spec fn sheet_index(sheets: Seq<Sheet>, id: SheetId) -> int {
    choose|i: int| is_first_with_id(sheets, id, i)
}

/// The place of the first sheet with an id is the one place that is so.
pub proof fn lemma_sheet_index(sheets: Seq<Sheet>, id: SheetId, i: int)
    requires
        is_first_with_id(sheets, id, i),
    ensures
        sheet_index(sheets, id) == i,
{
    let k = sheet_index(sheets, id);
    if k < i {
        assert(sheets[k].id != id);
    }
    if i < k {
        assert(sheets[i].id != id);
    }
}

/// What the operation carries does not fit the rectangle that it names.
pub open spec fn shape_error(op: Operation) -> bool {
    match op {
        Operation::SetCellValues { sheet_rect, values } => !rect_fits(
            sheet_rect.spec_rect(),
            values.spec_size(),
        ),
        Operation::SetCellFormats { sheet_rect, formats } => !rect_holds(
            sheet_rect.spec_rect(),
            formats@.len() as int,
        ),
        _ => false,
    }
}

/// The error of applying the operation to the grid, if there is one.
pub open spec fn op_error(grid: Grid, op: Operation) -> Option<TransactionError> {
    match op.target() {
        Some(id) => if no_sheet_with_id(grid.sheets@, id) {
            Some(TransactionError::SheetNotFound(id))
        } else if shape_error(op) {
            Some(TransactionError::SizeMismatch)
        } else {
            None
        },
        None => None,
    }
}

/// `after` is the sheet `before` with the operation applied. The operation
/// is one that changes a single sheet and fits it.
pub open spec fn sheet_effect(before: Sheet, op: Operation, after: Sheet) -> bool {
    match op {
        Operation::SetCellValues { sheet_rect, values } => values_set(
            before,
            sheet_rect.spec_rect(),
            values,
            after,
        ) && after.bounds_current(),
        Operation::SetCellFormats { sheet_rect, formats } => formats_set(
            before,
            sheet_rect.spec_rect(),
            formats@,
            after,
        ) && after.bounds_current(),
        Operation::SetCodeCell { sheet_pos, code_cell_value } => {
            &&& after == (Sheet { code_runs: after.code_runs, ..before })
            &&& runs_alike(after.code_run_at(sheet_pos.spec_pos()), code_cell_value)
            &&& forall|p: Pos|
                p != sheet_pos.spec_pos() ==> #[trigger] after.code_run_at(p) == before.code_run_at(
                    p,
                )
        },
        Operation::ComputeCode { sheet_pos } => after == before,
        Operation::SetBorders { sheet_id, borders } => after == (Sheet {
            borders: after.borders,
            ..before
        }) && after.borders@ == borders@,
        Operation::SetSheetName { sheet_id, name } => after == (Sheet { name, ..before }),
        Operation::SetSheetColor { sheet_id, color } => after == (Sheet { color, ..before }),
        Operation::ResizeColumn { sheet_id, column, new_size } => after == (Sheet {
            offsets: after.offsets,
            ..before
        }) && after.offsets.row_heights@ == before.offsets.row_heights@
            && after.offsets.column_widths@ == with_entry(
            before.offsets.column_widths@,
            column,
            new_size,
        ),
        Operation::ResizeRow { sheet_id, row, new_size } => after == (Sheet {
            offsets: after.offsets,
            ..before
        }) && after.offsets.column_widths@ == before.offsets.column_widths@
            && after.offsets.row_heights@ == with_entry(before.offsets.row_heights@, row, new_size),
        Operation::SetValidation { validation } => {
            &&& after == (Sheet { validations: after.validations, ..before })
            &&& validations_alike(after.validations.by_id(validation.id), Some(validation))
            &&& forall|id: u128|
                id != validation.id ==> #[trigger] after.validations.by_id(id)
                    == before.validations.by_id(id)
        },
        Operation::RemoveValidation { sheet_id, validation_id } => {
            &&& after == (Sheet { validations: after.validations, ..before })
            &&& after.validations.by_id(validation_id) is None
            &&& forall|id: u128|
                id != validation_id ==> #[trigger] after.validations.by_id(id)
                    == before.validations.by_id(id)
        },
        _ => false,
    }
}

/// `after` is `before` with a sheet added that shows what `sheet` shows,
/// under the first free name for it, and the sheets brought into order.
pub open spec fn sheet_added(before: Seq<Sheet>, sheet: Sheet, after: Seq<Sheet>) -> bool {
    exists|k: int|
        {
            &&& 0 <= k < after.len()
            &&& after == sorted_seq(before.push(#[trigger] after[k]), sheet_le())
            &&& after[k].id == sheet.id
            &&& after[k].order == sheet.order
            &&& is_free_name(before, sheet.name@, after[k].name@)
            &&& (Sheet { name: sheet.name, ..after[k] }).same_content(sheet)
        }
}

/// `after` is the grid `before` with the operation applied.
pub open spec fn op_effect(before: Grid, op: Operation, after: Grid) -> bool {
    match op {
        Operation::AddSheet { sheet } => sheet_added(before.sheets@, sheet, after.sheets@),
        Operation::DeleteSheet { sheet_id } => after.sheets@ == before.sheets@.remove(
            sheet_index(before.sheets@, sheet_id),
        ),
        Operation::ReorderSheet { target, order } => after.sheets@ == sorted_seq(
            before.sheets@.update(
                sheet_index(before.sheets@, target),
                Sheet { order, ..before.sheets@[sheet_index(before.sheets@, target)] },
            ),
            sheet_le(),
        ),
        _ => {
            let i = sheet_index(before.sheets@, op.target()->0);
            &&& after.sheets@.len() == before.sheets@.len()
            &&& forall|j: int|
                0 <= j < before.sheets@.len() && j != i ==> #[trigger] after.sheets@[j]
                    == before.sheets@[j]
            &&& sheet_effect(before.sheets@[i], op, after.sheets@[i])
        },
    }
}

/// `reverse` is the operation that undoes `op` on the sheet `before`.
pub open spec fn sheet_reverse(before: Sheet, op: Operation, reverse: Operation) -> bool {
    match op {
        Operation::SetCellValues { sheet_rect, values } => match reverse {
            Operation::SetCellValues { sheet_rect: r, values: old_values } => r == sheet_rect
                && values_kept(before, sheet_rect.spec_rect(), old_values),
            _ => false,
        },
        Operation::SetCellFormats { sheet_rect, formats } => match reverse {
            Operation::SetCellFormats { sheet_rect: r, formats: previous } => r == sheet_rect
                && formats_kept(before, sheet_rect.spec_rect(), formats@, previous@),
            _ => false,
        },
        Operation::SetCodeCell { sheet_pos, code_cell_value } => reverse
            == (Operation::SetCodeCell {
            sheet_pos,
            code_cell_value: before.code_run_at(sheet_pos.spec_pos()),
        }),
        Operation::ComputeCode { sheet_pos } => reverse == (Operation::ComputeCode { sheet_pos }),
        Operation::SetBorders { sheet_id, borders } => match reverse {
            Operation::SetBorders { sheet_id: id, borders: old_borders } => id == sheet_id
                && old_borders@ == before.borders@,
            _ => false,
        },
        Operation::SetSheetName { sheet_id, name } => reverse == (Operation::SetSheetName {
            sheet_id,
            name: before.name,
        }),
        Operation::SetSheetColor { sheet_id, color } => reverse == (Operation::SetSheetColor {
            sheet_id,
            color: before.color,
        }),
        Operation::ResizeColumn { sheet_id, column, new_size } => reverse
            == (Operation::ResizeColumn {
            sheet_id,
            column,
            new_size: crate::grid::offsets::entry_of(before.offsets.column_widths@, column),
        }),
        Operation::ResizeRow { sheet_id, row, new_size } => reverse == (Operation::ResizeRow {
            sheet_id,
            row,
            new_size: crate::grid::offsets::entry_of(before.offsets.row_heights@, row),
        }),
        Operation::SetValidation { validation } => match before.validations.by_id(validation.id) {
            Some(previous) => reverse == (Operation::SetValidation { validation: previous }),
            None => reverse == (Operation::RemoveValidation {
                sheet_id: validation.selection.sheet_id,
                validation_id: validation.id,
            }),
        },
        Operation::RemoveValidation { sheet_id, validation_id } => match before.validations.by_id(
            validation_id,
        ) {
            Some(previous) => reverse == (Operation::SetValidation { validation: previous }),
            None => reverse == (Operation::RemoveValidation { sheet_id, validation_id }),
        },
        _ => false,
    }
}

/// `reverse` is the operation that undoes `op` on the grid `before`, whose
/// state after `op` is `after`.
pub open spec fn op_reverses(before: Grid, op: Operation, after: Grid, reverse: Operation) -> bool {
    match op {
        Operation::AddSheet { sheet } => reverse == (Operation::DeleteSheet { sheet_id: sheet.id }),
        Operation::DeleteSheet { sheet_id } => reverse == (Operation::AddSheet {
            sheet: before.sheets@[sheet_index(before.sheets@, sheet_id)],
        }),
        Operation::ReorderSheet { target, order } => reverse == (Operation::ReorderSheet {
            target,
            order: before.sheets@[sheet_index(before.sheets@, target)].order,
        }),
        _ => sheet_reverse(before.sheets@[sheet_index(before.sheets@, op.target()->0)], op, reverse),
    }
}

/// Applies an operation that changes a single sheet. Returns the operation
/// that undoes it.
fn apply_to_sheet(sheet: &mut Sheet, op: &Operation) -> (r: Result<Operation, TransactionError>)
    requires
        old(sheet).wf(),
        op.wf(),
        op.target() == Some(old(sheet).id),
        !(*op is DeleteSheet) && !(*op is ReorderSheet),
    ensures
        final(sheet).wf(),
        shape_error(*op) ==> r == Err::<Operation, TransactionError>(TransactionError::SizeMismatch)
            && *final(sheet) == *old(sheet),
        !shape_error(*op) ==> (r matches Ok(reverse) && reverse.wf() && sheet_effect(
            *old(sheet),
            *op,
            *final(sheet),
        ) && sheet_reverse(*old(sheet), *op, reverse) && reverse.target() == op.target()
            && !shape_error(reverse)),
        final(sheet).id == old(sheet).id,
        final(sheet).name@ == old(sheet).name@ || *op is SetSheetName,
        final(sheet).order == old(sheet).order,
{
    match op {
        Operation::SetCellValues { sheet_rect, values } => {
            let rect = sheet_rect.rect();
            if !fits(&rect, values.size()) {
                return Err(TransactionError::SizeMismatch);
            }
            let old_values = set_values(sheet, rect, values);
            Ok(Operation::SetCellValues { sheet_rect: *sheet_rect, values: old_values })
        },
        Operation::SetCellFormats { sheet_rect, formats } => {
            let rect = sheet_rect.rect();
            if !holds(&rect, formats.len()) {
                return Err(TransactionError::SizeMismatch);
            }
            let previous = set_formats(sheet, rect, formats);
            Ok(Operation::SetCellFormats { sheet_rect: *sheet_rect, formats: previous })
        },
        Operation::SetCodeCell { sheet_pos, code_cell_value } => {
            let new_run = match code_cell_value {
                Some(run) => Some(run.clone()),
                None => None,
            };
            let previous = sheet.set_code_cell(sheet_pos.pos(), new_run);
            proof {
                let pos = sheet_pos.spec_pos();
                assert(old(sheet).wf());
                if previous is Some {
                    let i = crate::grid::sheet::code::run_index(old(sheet).code_runs@, pos)->0;
                    assert(old(sheet).code_runs@[i].1.wf());
                }
            }
            Ok(Operation::SetCodeCell { sheet_pos: *sheet_pos, code_cell_value: previous })
        },
        Operation::ComputeCode { sheet_pos } => Ok(Operation::ComputeCode { sheet_pos: *sheet_pos }),
        Operation::SetBorders { sheet_id, borders } => {
            let mut swapped = clone_borders(borders);
            std::mem::swap(&mut swapped, &mut sheet.borders);
            Ok(Operation::SetBorders { sheet_id: *sheet_id, borders: swapped })
        },
        Operation::SetSheetName { sheet_id, name } => {
            let mut swapped = name.clone();
            std::mem::swap(&mut swapped, &mut sheet.name);
            Ok(Operation::SetSheetName { sheet_id: *sheet_id, name: swapped })
        },
        Operation::SetSheetColor { sheet_id, color } => {
            let mut swapped = clone_opt_string(color);
            std::mem::swap(&mut swapped, &mut sheet.color);
            Ok(Operation::SetSheetColor { sheet_id: *sheet_id, color: swapped })
        },
        Operation::ResizeColumn { sheet_id, column, new_size } => {
            let previous = sheet.offsets.set_column_width(*column, *new_size);
            Ok(
                Operation::ResizeColumn {
                    sheet_id: *sheet_id,
                    column: *column,
                    new_size: previous,
                },
            )
        },
        Operation::ResizeRow { sheet_id, row, new_size } => {
            let previous = sheet.offsets.set_row_height(*row, *new_size);
            Ok(Operation::ResizeRow { sheet_id: *sheet_id, row: *row, new_size: previous })
        },
        Operation::SetValidation { validation } => {
            let ghost before = sheet.validations.validations@;
            let r = sheet.validations.set(validation.clone());
            proof {
                if r is Some {
                    let i = choose|i: int| #[trigger]
                        crate::grid::sheet::validations::is_first_validation(
                            before,
                            validation.id,
                            i,
                        ) && r->0 == before[i];
                    assert(before[i].selection.sheet_id == sheet.id);
                }
                assert forall|j: int| 0 <= j < sheet.validations.validations@.len() implies (
                #[trigger] sheet.validations.validations@[j]).selection.sheet_id == sheet.id by {
                    if j < before.len() && sheet.validations.validations@[j] == before[j] {
                    }
                }
            }
            match r {
                Some(previous) => Ok(Operation::SetValidation { validation: previous }),
                None => Ok(
                    Operation::RemoveValidation {
                        sheet_id: validation.selection.sheet_id,
                        validation_id: validation.id,
                    },
                ),
            }
        },
        Operation::RemoveValidation { sheet_id, validation_id } => {
            let ghost before = sheet.validations.validations@;
            let r = sheet.validations.remove(*validation_id);
            proof {
                if r is Some {
                    let i = choose|i: int| #[trigger]
                        crate::grid::sheet::validations::is_first_validation(
                            before,
                            *validation_id,
                            i,
                        ) && r->0 == before[i] && sheet.validations.validations@
                            == before.remove(i);
                    assert(before[i].selection.sheet_id == sheet.id);
                    assert forall|j: int| 0 <= j < sheet.validations.validations@.len() implies (
                    #[trigger] sheet.validations.validations@[j]).selection.sheet_id
                        == sheet.id by {
                        let j0 = if j < i {
                            j
                        } else {
                            j + 1
                        };
                        assert(sheet.validations.validations@[j] == before[j0]);
                    }
                }
            }
            match r {
                Some(previous) => Ok(Operation::SetValidation { validation: previous }),
                None => Ok(
                    Operation::RemoveValidation {
                        sheet_id: *sheet_id,
                        validation_id: *validation_id,
                    },
                ),
            }
        },
        _ => Err(TransactionError::SizeMismatch),
    }
}

/// What applying an operation to a grid does: where the operation cannot be
/// applied, its error is returned and the sheets stay as they are; else the
/// grid changes as the operation says and the operation that undoes it is
/// returned.
pub open spec fn op_applied(
    before: Grid,
    op: Operation,
    after: Grid,
    r: Result<Operation, TransactionError>,
) -> bool {
    match op_error(before, op) {
        Some(e) => r == Err::<Operation, TransactionError>(e) && after.sheets@ == before.sheets@,
        None => r matches Ok(reverse) && op_effect(before, op, after) && op_reverses(
            before,
            op,
            after,
            reverse,
        ),
    }
}

/// Applies an operation to a grid. Returns the operation that undoes it. An
/// operation that names a sheet that is not there, or that carries values or
/// changes that do not fit its rectangle, is refused, and the grid stays as
/// it is.
pub fn apply_operation(grid: &mut Grid, op: &Operation) -> (r: Result<Operation, TransactionError>)
    requires
        old(grid).wf(),
        op.wf(),
    ensures
        final(grid).wf(),
        op_applied(*old(grid), *op, *final(grid), r),
        r matches Ok(reverse) ==> reverse.wf(),
{
    match op {
        Operation::AddSheet { sheet } => {
            let copy = sheet.duplicate();
            let ghost before = grid.sheets@;
            let id = grid.add_sheet(Some(copy));
            proof {
                let k = choose|k: int| #[trigger]
                    added_at(before, Some(copy), grid.sheets@, k) && grid.sheets@[k].id == id;
                let added = grid.sheets@[k];
                assert((Sheet { name: sheet.name, ..added }) == copy);
                assert(sheet_added(before, *sheet, grid.sheets@)) by {
                    assert(grid.sheets@ == sorted_seq(before.push(grid.sheets@[k]), sheet_le()));
                }
            }
            Ok(Operation::DeleteSheet { sheet_id: id })
        },
        Operation::DeleteSheet { sheet_id } => {
            let ghost before = grid.sheets@;
            match grid.remove_sheet(*sheet_id) {
                Some(sheet) => {
                    proof {
                        let i = choose|i: int| #[trigger]
                            is_first_with_id(before, *sheet_id, i) && sheet == before[i]
                                && grid.sheets@ == before.remove(i);
                        lemma_sheet_index(before, *sheet_id, i);
                        assert(before[i].wf());
                    }
                    Ok(Operation::AddSheet { sheet })
                },
                None => Err(TransactionError::SheetNotFound(*sheet_id)),
            }
        },
        Operation::ReorderSheet { target, order } => {
            let i = match grid.sheet_id_to_index(*target) {
                Some(i) => i,
                None => {
                    return Err(TransactionError::SheetNotFound(*target));
                },
            };
            proof {
                lemma_sheet_index(grid.sheets@, *target, i as int);
            }
            let mut swapped = order.clone();
            std::mem::swap(&mut swapped, &mut grid.sheets[i].order);
            proof {
                let before = old(grid).sheets@;
                assert(grid.sheets@ == before.update(
                    i as int,
                    Sheet { order: *order, ..before[i as int] },
                ));
                assert forall|k: int| 0 <= k < grid.sheets@.len() implies (
                #[trigger] grid.sheets@[k]).wf() by {
                    assert(before[k].wf());
                }
            }
            grid.sort_sheets();
            Ok(Operation::ReorderSheet { target: *target, order: swapped })
        },
        _ => {
            let id = match op.target_id() {
                Some(id) => id,
                None => {
                    return Err(TransactionError::SizeMismatch);
                },
            };
            let i = match grid.sheet_id_to_index(id) {
                Some(i) => i,
                None => {
                    return Err(TransactionError::SheetNotFound(id));
                },
            };
            proof {
                lemma_sheet_index(grid.sheets@, id, i as int);
                assert(grid.sheets@[i as int].wf());
            }
            let r = apply_to_sheet(&mut grid.sheets[i], op);
            proof {
                let before = old(grid).sheets@;
                assert forall|k: int| 0 <= k < grid.sheets@.len() implies (
                #[trigger] grid.sheets@[k]).wf() by {
                    if k != i {
                        assert(grid.sheets@[k] == before[k]);
                        assert(before[k].wf());
                    }
                }
                if shape_error(*op) {
                    assert(grid.sheets@ =~= before);
                }
            }
            r
        },
    }
}

impl GridController {
    /// Executes the next operation of the transaction: takes it from the
    /// front of the queue, applies it to the grid, and records it, the
    /// operation that undoes it, and what it has touched. Nothing happens
    /// where the queue is empty. An operation that cannot be applied ends
    /// in its error: the operation is gone from the queue, the grid and the
    /// records stay as they are.
    pub fn execute_operation(&mut self, transaction: &mut PendingTransaction) -> (r: Result<
        (),
        TransactionError,
    >)
        requires
            old(self).wf(),
            old(transaction).wf(),
        ensures
            final(self).wf(),
            final(transaction).wf(),
            final(self).same_history(*old(self)),
            old(transaction).operations@.len() == 0 ==> r is Ok && final(transaction).same_records(
                *old(transaction),
            ) && final(transaction).operations@.len() == 0 && final(self).grid.sheets@ == old(self).grid.sheets@,
            old(transaction).operations@.len() > 0 ==> executed(
                old(self).grid,
                *old(transaction),
                final(self).grid,
                *final(transaction),
                r,
            ),
    {
        let op = match transaction.operations.pop_front() {
            Some(op) => op,
            None => {
                return Ok(());
            },
        };
        proof {
            assert(transaction.operations@ =~= old(transaction).operations@.skip(1));
            assert(op == old(transaction).operations@[0]);
            assert(old(transaction).operations@[0].wf());
            assert forall|i: int| 0 <= i < transaction.operations@.len() implies (
            #[trigger] transaction.operations@[i]).wf() by {
                assert(transaction.operations@[i] == old(transaction).operations@[i + 1]);
            }
        }
        match apply_operation(&mut self.grid, &op) {
            Ok(reverse) => {
                match op.dirty_rect() {
                    Some(rect) => {
                        transaction.dirty.push(rect);
                    },
                    None => {
                        match &op {
                            Operation::ComputeCode { sheet_pos } => {
                                transaction.code_requests.push(*sheet_pos);
                            },
                            _ => {
                                transaction.sheets_modified = true;
                            },
                        }
                    },
                }
                transaction.reverse_operations.push(reverse);
                transaction.forward_operations.push(op);
                proof {
                    assert(transaction.reverse_operations@.drop_last() == old(transaction).reverse_operations@);
                }
                Ok(())
            },
            Err(e) => Err(e),
        }
    }
}

/// What executing the next operation of a transaction does: the operation
/// leaves the queue; where it can be applied, the grid changes as the
/// operation says, the operation goes to the end of the forward log and the
/// operation that undoes it to the end of the reverse log, and what it
/// touched is recorded; where it cannot, its error is returned and nothing
/// else changes.
pub open spec fn executed(
    grid: Grid,
    transaction: PendingTransaction,
    new_grid: Grid,
    new_transaction: PendingTransaction,
    r: Result<(), TransactionError>,
) -> bool {
    let op = transaction.operations@[0];
    &&& new_transaction.operations@ == transaction.operations@.skip(1)
    &&& new_transaction.id == transaction.id
    &&& new_transaction.name == transaction.name
    &&& new_transaction.source == transaction.source
    &&& new_transaction.cursor == transaction.cursor
    &&& match op_error(grid, op) {
        Some(e) => {
            &&& r == Err::<(), TransactionError>(e)
            &&& new_grid.sheets@ == grid.sheets@
            &&& new_transaction.forward_operations == transaction.forward_operations
            &&& new_transaction.reverse_operations == transaction.reverse_operations
            &&& new_transaction.dirty == transaction.dirty
            &&& new_transaction.sheets_modified == transaction.sheets_modified
            &&& new_transaction.code_requests == transaction.code_requests
        },
        None => {
            &&& r is Ok
            &&& op_effect(grid, op, new_grid)
            &&& new_transaction.forward_operations@ == transaction.forward_operations@.push(op)
            &&& new_transaction.reverse_operations@.len() == transaction.reverse_operations@.len()
                + 1
            &&& new_transaction.reverse_operations@.drop_last()
                == transaction.reverse_operations@
            &&& op_reverses(grid, op, new_grid, new_transaction.reverse_operations@.last())
            &&& new_transaction.reverse_operations@.last().wf()
            &&& new_transaction.dirty@ == match op.spec_dirty_rect() {
                Some(rect) => transaction.dirty@.push(rect),
                None => transaction.dirty@,
            }
            &&& new_transaction.code_requests@ == match op {
                Operation::ComputeCode { sheet_pos } => transaction.code_requests@.push(sheet_pos),
                _ => transaction.code_requests@,
            }
            &&& new_transaction.sheets_modified == (transaction.sheets_modified
                || op.spec_changes_sheets())
        },
    }
}

} // verus!
