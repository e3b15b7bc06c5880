use quadratic_core::controller::execution::execute_operation::{apply_operation, TransactionError};
use quadratic_core::controller::active_transactions::pending_transaction::{
    PendingTransaction, TransactionSource,
};
use quadratic_core::controller::active_transactions::transaction_name::TransactionName;
use quadratic_core::controller::operations::operation::Operation;
use quadratic_core::controller::GridController;
use quadratic_core::grid::borders::{BorderStyle, CellBorders};
use quadratic_core::grid::formatting::CellFormat;
use quadratic_core::grid::ids::SheetId;
use quadratic_core::grid::sheet::Sheet;
use quadratic_core::pos::{Pos, SheetPos};
use quadratic_core::rect::{Rect, SheetRect};
use quadratic_core::values::array::{Array, ArraySize};
use quadratic_core::values::{CellValue, CodeCellLanguage, CodeCellValue};

fn text(s: &str) -> CellValue {
    CellValue::Text(s.to_string())
}

fn values(w: u32, h: u32, cells: Vec<CellValue>) -> Array {
    Array::new_row_major(ArraySize { w, h }, cells).unwrap()
}

#[test]
fn test_set_code_cell_operations() {
    let mut gc = GridController::new();
    let sheet_id = gc.sheet_ids()[0];
    let sheet = gc.grid_mut().try_sheet_mut(sheet_id).unwrap();
    let pos = Pos { x: 0, y: 0 };
    sheet.set_cell_value(pos, CellValue::Text("delete me".to_string()));

    let operations = gc.set_code_cell_operations(
        pos.to_sheet_pos(sheet_id),
        CodeCellLanguage::Python,
        "print('hello world')".to_string(),
    );
    assert_eq!(operations.len(), 2);
    assert_eq!(
        operations[0],
        Operation::SetCellValues {
            sheet_rect: SheetRect::single_sheet_pos(pos.to_sheet_pos(sheet_id)),
            values: Array::from_cell(CellValue::Code(CodeCellValue {
                language: CodeCellLanguage::Python,
                code: "print('hello world')".to_string(),
            })),
        }
    );
    assert_eq!(
        operations[1],
        Operation::ComputeCode {
            sheet_pos: pos.to_sheet_pos(sheet_id),
        }
    );
}

#[test]
fn operations_are_applied_one_by_one_and_recorded() {
    let mut gc = GridController::new();
    let sheet_id = gc.sheet_ids()[0];
    let rect = SheetRect::from_rect(Rect::new(0, 0, 1, 1), sheet_id);
    let mut transaction = PendingTransaction::new(
        1,
        TransactionName::SetCells,
        TransactionSource::User,
        None,
        vec![
            Operation::SetCellValues {
                sheet_rect: rect,
                values: values(2, 2, vec![text("a"), text("b"), CellValue::Blank, text("d")]),
            },
            Operation::ComputeCode {
                sheet_pos: SheetPos { x: 0, y: 0, sheet_id },
            },
            Operation::SetSheetName {
                sheet_id,
                name: "Renamed".to_string(),
            },
        ],
    );
    assert!(!transaction.is_complete());
    gc.execute_operation(&mut transaction).unwrap();
    assert_eq!(transaction.operations.len(), 2);
    assert_eq!(transaction.forward_operations.len(), 1);
    assert_eq!(
        transaction.reverse_operations[0],
        Operation::SetCellValues {
            sheet_rect: rect,
            values: values(2, 2, vec![CellValue::Blank; 4]),
        }
    );
    assert_eq!(transaction.dirty, vec![rect]);
    let sheet = gc.try_sheet(sheet_id).unwrap();
    assert_eq!(sheet.get_cell_value(Pos { x: 1, y: 0 }), Some(text("b")));
    assert_eq!(sheet.get_cell_value(Pos { x: 0, y: 1 }), None);
    assert_eq!(sheet.get_cell_value(Pos { x: 1, y: 1 }), Some(text("d")));
    gc.execute_operation(&mut transaction).unwrap();
    assert_eq!(transaction.code_requests.len(), 1);
    assert!(!transaction.sheets_modified);
    gc.execute_operation(&mut transaction).unwrap();
    assert!(transaction.sheets_modified);
    assert!(transaction.is_complete());
    assert_eq!(gc.grid().sheets[0].name, "Renamed");
    assert_eq!(
        transaction.reverse_operations[2],
        Operation::SetSheetName {
            sheet_id,
            name: "Sheet 1".to_string()
        }
    );
    // nothing left to do
    gc.execute_operation(&mut transaction).unwrap();
    assert_eq!(transaction.forward_operations.len(), 3);
}

#[test]
fn an_operation_that_cannot_be_applied_is_an_error() {
    let mut gc = GridController::new();
    let sheet_id = gc.sheet_ids()[0];
    let missing = SheetId { id: 1 };
    assert_eq!(
        apply_operation(gc.grid_mut(), &Operation::DeleteSheet { sheet_id: missing }),
        Err(TransactionError::SheetNotFound(missing))
    );
    assert_eq!(
        apply_operation(
            gc.grid_mut(),
            &Operation::SetCellValues {
                sheet_rect: SheetRect::from_rect(Rect::new(0, 0, 2, 2), sheet_id),
                values: values(2, 2, vec![CellValue::Blank; 4]),
            }
        ),
        Err(TransactionError::SizeMismatch)
    );
    assert_eq!(
        apply_operation(
            gc.grid_mut(),
            &Operation::SetCellFormats {
                sheet_rect: SheetRect::from_rect(Rect::new(0, 0, 1, 1), sheet_id),
                formats: vec![CellFormat::Bold(Some(true))],
            }
        ),
        Err(TransactionError::SizeMismatch)
    );
    // the first operation stays applied, the second is the error
    let r = gc.start_user_transaction(
        vec![
            Operation::SetSheetName {
                sheet_id,
                name: "Kept".to_string(),
            },
            Operation::SetSheetName {
                sheet_id: missing,
                name: "Lost".to_string(),
            },
        ],
        None,
        TransactionName::SetSheetMetadata,
    );
    assert_eq!(r, Err(TransactionError::SheetNotFound(missing)));
    assert_eq!(gc.grid().sheets[0].name, "Kept");
    assert!(!gc.has_undo());
}

fn assert_undo_restores(gc: &mut GridController, op: Operation) {
    let before = quadratic_core::grid::file::current::export(gc.grid());
    let reverse = apply_operation(gc.grid_mut(), &op).unwrap();
    apply_operation(gc.grid_mut(), &reverse).unwrap();
    let mut after = quadratic_core::grid::file::current::export(gc.grid());
    // code runs are kept in any order
    for sheet in after.sheets.iter_mut() {
        sheet.code_runs.sort_by_key(|run| (run.0.x, run.0.y));
    }
    assert_eq!(before, after);
}

#[test]
fn undoing_an_operation_restores_the_grid() {
    let mut gc = GridController::new();
    let sheet_id = gc.sheet_ids()[0];
    let rect = SheetRect::from_rect(Rect::new(0, 0, 1, 0), sheet_id);
    apply_operation(
        gc.grid_mut(),
        &Operation::SetCellValues {
            sheet_rect: rect,
            values: values(2, 1, vec![text("x"), text("y")]),
        },
    )
    .unwrap();
    apply_operation(
        gc.grid_mut(),
        &Operation::SetCellFormats {
            sheet_rect: rect,
            formats: vec![CellFormat::Bold(Some(true)), CellFormat::Bold(Some(true))],
        },
    )
    .unwrap();
    let other = Sheet::new(SheetId { id: 9 }, "Other".to_string(), "a5".to_string());
    for op in [
        Operation::SetCellValues {
            sheet_rect: rect,
            values: values(2, 1, vec![CellValue::Blank, text("z")]),
        },
        Operation::SetCellFormats {
            sheet_rect: rect,
            formats: vec![CellFormat::Bold(None), CellFormat::Italic(Some(true))],
        },
        Operation::SetBorders {
            sheet_id,
            borders: vec![CellBorders {
                x: 0,
                y: 0,
                top: Some(BorderStyle {
                    color: "#000000".to_string(),
                    line: "line1".to_string(),
                }),
                left: None,
                bottom: None,
                right: None,
            }],
        },
        Operation::SetSheetName {
            sheet_id,
            name: "Name".to_string(),
        },
        Operation::SetSheetColor {
            sheet_id,
            color: Some("red".to_string()),
        },
        Operation::ResizeColumn {
            sheet_id,
            column: 3,
            new_size: Some(120),
        },
        Operation::ResizeRow {
            sheet_id,
            row: -3,
            new_size: Some(40),
        },
        Operation::ReorderSheet {
            target: sheet_id,
            order: "a9".to_string(),
        },
        Operation::AddSheet { sheet: other },
        Operation::ComputeCode {
            sheet_pos: SheetPos { x: 0, y: 0, sheet_id },
        },
    ] {
        assert_undo_restores(&mut gc, op);
    }
    gc.grid_mut().add_sheet(Some(Sheet::new(
        SheetId { id: 10 },
        "Second".to_string(),
        "a3".to_string(),
    )));
    assert_undo_restores(&mut gc, Operation::DeleteSheet { sheet_id });
    assert_undo_restores(
        &mut gc,
        Operation::ReorderSheet {
            target: sheet_id,
            order: "a7".to_string(),
        },
    );
}

#[test]
fn undo_and_redo() {
    let mut gc = GridController::new();
    let sheet_id = gc.sheet_ids()[0];
    let pos = Pos { x: 1, y: 1 };
    let rect = SheetRect::single_pos(pos, sheet_id);
    assert_eq!(gc.undo(None), Ok(false));
    assert_eq!(gc.redo(None), Ok(false));
    gc.start_user_transaction(
        vec![Operation::SetCellValues {
            sheet_rect: rect,
            values: Array::from_cell(text("first")),
        }],
        None,
        TransactionName::SetCells,
    )
    .unwrap();
    gc.start_user_transaction(
        vec![
            Operation::SetCellValues {
                sheet_rect: rect,
                values: Array::from_cell(text("second")),
            },
            Operation::SetSheetName {
                sheet_id,
                name: "Two".to_string(),
            },
        ],
        None,
        TransactionName::SetCells,
    )
    .unwrap();
    let value = |gc: &GridController| gc.try_sheet(sheet_id).unwrap().get_cell_value(pos);
    assert_eq!(value(&gc), Some(text("second")));
    assert_eq!(gc.unsaved_transactions.len(), 2);
    assert_eq!(gc.undo(None), Ok(true));
    assert_eq!(value(&gc), Some(text("first")));
    assert_eq!(gc.grid().sheets[0].name, "Sheet 1");
    assert_eq!(gc.undo(None), Ok(true));
    assert_eq!(value(&gc), None);
    assert!(!gc.has_undo());
    assert!(gc.has_redo());
    assert_eq!(gc.redo(None), Ok(true));
    assert_eq!(value(&gc), Some(text("first")));
    assert_eq!(gc.redo(None), Ok(true));
    assert_eq!(value(&gc), Some(text("second")));
    assert_eq!(gc.grid().sheets[0].name, "Two");
    assert!(!gc.has_redo());
    assert_eq!(gc.undo(None), Ok(true));
    // a new action forgets what could be redone
    gc.start_user_transaction(
        vec![Operation::SetSheetColor {
            sheet_id,
            color: Some("blue".to_string()),
        }],
        None,
        TransactionName::SetSheetMetadata,
    )
    .unwrap();
    assert!(!gc.has_redo());
}

#[test]
fn sequence_number_is_set() {
    let mut gc = GridController::new();
    assert_eq!(gc.last_sequence_num(), 0);
    gc.js_multiplayer_set_sequence_num(7);
    assert_eq!(gc.last_sequence_num(), 7);
    gc.set_last_sequence_num(u64::MAX);
    assert_eq!(gc.last_sequence_num(), u64::MAX);
}
