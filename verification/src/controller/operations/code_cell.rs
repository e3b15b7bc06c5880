//! Operations on code cells.

use crate::controller::operations::operation::Operation;
use crate::controller::GridController;
use crate::pos::SheetPos;
use crate::rect::SheetRect;
use crate::values::array::{Array, ArraySize};
use crate::values::{CellValue, CodeCellLanguage, CodeCellValue};
use vstd::prelude::*;

verus! {

impl GridController {
    /// The operations that put code of the given language at `sheet_pos` and
    /// have it run: the first stores the code as the value of the cell, the
    /// second asks for the run.
    pub fn set_code_cell_operations(
        &self,
        sheet_pos: SheetPos,
        language: CodeCellLanguage,
        code: String,
    ) -> (ops: Vec<Operation>)
        ensures
            ops@.len() == 2,
            ops@[0] matches Operation::SetCellValues { sheet_rect, values } && sheet_rect
                == (SheetRect {
                min: sheet_pos.spec_pos(),
                max: sheet_pos.spec_pos(),
                sheet_id: sheet_pos.sheet_id,
            }) && values.wf() && values.spec_size() == (ArraySize { w: 1, h: 1 }) && values.cells()
                == seq![CellValue::Code(CodeCellValue { language, code })],
            ops@[1] == (Operation::ComputeCode { sheet_pos }),
    {
        let mut ops: Vec<Operation> = Vec::new();
        ops.push(
            Operation::SetCellValues {
                sheet_rect: SheetRect::single_sheet_pos(sheet_pos),
                values: Array::from_cell(CellValue::Code(CodeCellValue { language, code })),
            },
        );
        ops.push(Operation::ComputeCode { sheet_pos });
        ops
    }
}

} // verus!
