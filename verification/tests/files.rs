use quadratic_core::controller::active_transactions::transaction_name::TransactionName;
use quadratic_core::controller::operations::operation::Operation;
use quadratic_core::controller::GridController;
use quadratic_core::grid::borders::{BorderStyle, CellBorders};
use quadratic_core::grid::code::{CodeRun, CodeRunResult};
use quadratic_core::grid::file::current::{export, import, round_trip, try_export};
use quadratic_core::grid::file::v1_5::file::upgrade;
use quadratic_core::grid::file::v1_5::schema as v1_5;
use quadratic_core::grid::file::v1_6::file::{
    export_cell_value, export_cell_value_number, import_cell_value, import_cell_value_number,
};
use quadratic_core::grid::file::v1_6::schema as v1_6;
use quadratic_core::grid::file::{
    version_of, FileError, FileVersion, GridFile, GridFileBinary, CURRENT_VERSION,
};
use quadratic_core::grid::formatting::{
    CellAlign, CellFormat, CellWrap, NumericFormat, NumericFormatKind, RenderSize,
};
use quadratic_core::grid::ids::SheetId;
use quadratic_core::grid::sheet::validations::validation::Validation;
use quadratic_core::grid::sheet::validations::validation_rules::ValidationRule;
use quadratic_core::grid::Grid;
use quadratic_core::pos::Pos;
use quadratic_core::rect::{Rect, SheetRect};
use quadratic_core::selection::Selection;
use quadratic_core::values::array::{Array, ArraySize, Value};
use quadratic_core::values::decimal::Decimal;
use quadratic_core::values::{
    CellValue, CodeCellLanguage, CodeCellValue, RunError, RunErrorMsg, Span,
};

const SHEET: &str = "d9ea85d6-19e7-48e5-8380-282c1bd5a421";

fn text(s: &str) -> CellValue {
    CellValue::Text(s.to_string())
}

fn number(s: &str) -> CellValue {
    CellValue::Number(Decimal::parse(s).unwrap())
}

fn old_column() -> v1_5::Column {
    v1_5::Column {
        values: vec![],
        align: vec![],
        wrap: vec![],
        numeric_format: vec![],
        numeric_decimals: vec![],
        numeric_commas: vec![],
        bold: vec![],
        italic: vec![],
        text_color: vec![],
        fill_color: vec![],
        render_size: vec![],
    }
}

fn old_sheet() -> v1_5::Sheet {
    v1_5::Sheet {
        id: v1_5::Id {
            id: SHEET.to_string(),
        },
        name: "Sheet 1".to_string(),
        color: None,
        order: "a0".to_string(),
        offsets: v1_5::Offsets {
            column_widths: vec![],
            row_heights: vec![],
        },
        columns: vec![],
        borders: v1_5::Borders { cells: vec![] },
        code_runs: vec![],
    }
}

fn old_file(sheet: v1_5::Sheet) -> v1_5::GridSchema {
    v1_5::GridSchema {
        sheets: vec![sheet],
        version: Some("1.5".to_string()),
    }
}

fn old_run(result: v1_5::CodeRunResult) -> v1_5::CodeRun {
    v1_5::CodeRun {
        formatted_code_string: None,
        std_out: Some("out".to_string()),
        std_err: None,
        cells_accessed: vec![],
        result,
        return_type: None,
        line_number: Some(3),
        output_type: None,
        spill_error: false,
        last_modified: Some(1700000000000),
    }
}

fn output(kind: &str, value: &str) -> v1_5::OutputValueValue {
    v1_5::OutputValueValue {
        type_field: kind.to_string(),
        value: value.to_string(),
    }
}

fn simple_v1_5_file() -> v1_5::GridSchema {
    let mut sheet = old_sheet();
    let mut column = old_column();
    column.values = vec![
        ("0".to_string(), v1_5::CellValue::Text("a".to_string())),
        ("-2".to_string(), v1_5::CellValue::Number("12.50".to_string())),
        (
            "3".to_string(),
            v1_5::CellValue::Code(v1_5::CodeCell {
                language: v1_5::CodeCellLanguage::Formula,
                code: "SUM(A0:A1)".to_string(),
            }),
        ),
    ];
    column.bold = vec![(
        "1".to_string(),
        v1_5::ColumnRepeat {
            value: true,
            len: 3,
        },
    )];
    column.align = vec![(
        "7".to_string(),
        v1_5::ColumnRepeat {
            value: v1_5::CellAlign::Center,
            len: 1,
        },
    )];
    sheet.columns = vec![(0, column)];
    sheet.offsets.column_widths = vec![(2, 120f64.to_bits())];
    sheet.borders.cells = vec![v1_5::CellBorders {
        x: 0,
        y: 0,
        top: Some(v1_5::CellBorder {
            color: "#000000ff".to_string(),
            line: "line1".to_string(),
        }),
        left: None,
        bottom: None,
        right: None,
    }];
    sheet.code_runs = vec![
        (
            v1_5::Pos { x: 0, y: 3 },
            old_run(v1_5::CodeRunResult::Output(v1_5::OutputValue::Single(
                output("NUMBER", "13"),
            ))),
        ),
        (
            v1_5::Pos { x: 4, y: 4 },
            old_run(v1_5::CodeRunResult::Output(v1_5::OutputValue::Array(
                v1_5::OutputArray {
                    size: v1_5::OutputSize { w: 2, h: 1 },
                    values: vec![output("text", "x"), output("number", "1e2")],
                },
            ))),
        ),
        (
            v1_5::Pos { x: 9, y: 9 },
            old_run(v1_5::CodeRunResult::Failure(v1_5::RunError {
                span: Some(v1_5::Span { start: 1, end: 2 }),
                msg: v1_5::RunErrorMsg::Unimplemented("this".to_string()),
            })),
        ),
    ];
    old_file(sheet)
}

#[test]
fn file_import_and_export_a_v1_5_file() {
    let upgraded = upgrade(simple_v1_5_file()).unwrap();
    assert_eq!(upgraded.version, Some("1.6".to_string()));
    let imported = import(&upgraded).unwrap();
    let exported = export(&imported);
    let imported_copy = import(&exported).unwrap();
    assert_eq!(export(&imported_copy), exported);

    let sheet = &imported.sheets()[0];
    assert_eq!(sheet.id, SheetId::from_str(SHEET).unwrap());
    assert_eq!(sheet.get_cell_value(Pos { x: 0, y: 0 }), Some(text("a")));
    assert_eq!(
        sheet.get_cell_value(Pos { x: 0, y: -2 }),
        Some(number("12.50"))
    );
    assert_eq!(
        sheet.get_cell_value(Pos { x: 0, y: 3 }),
        Some(CellValue::Code(CodeCellValue {
            language: CodeCellLanguage::Formula,
            code: "SUM(A0:A1)".to_string()
        }))
    );
    assert_eq!(sheet.display_value(Pos { x: 0, y: 3 }), Some(number("13")));
    assert_eq!(sheet.display_value(Pos { x: 5, y: 4 }), Some(number("100")));
    for y in 1..=3 {
        assert_eq!(
            sheet.get_format_cell(Pos { x: 0, y }, &CellFormat::Bold(None)),
            CellFormat::Bold(Some(true))
        );
    }
    assert_eq!(
        sheet.get_format_cell(Pos { x: 0, y: 4 }, &CellFormat::Bold(None)),
        CellFormat::Bold(None)
    );
    assert_eq!(
        sheet.get_format_cell(Pos { x: 0, y: 7 }, &CellFormat::Align(None)),
        CellFormat::Align(Some(CellAlign::Center))
    );
    assert_eq!(sheet.borders.len(), 1);
    let failed = sheet.get_code_cell(Pos { x: 9, y: 9 }).unwrap();
    assert_eq!(
        failed.result,
        CodeRunResult::Failure(RunError {
            span: Some(Span { start: 1, end: 2 }),
            msg: RunErrorMsg::Unimplemented("this".to_string())
        })
    );
    assert_eq!(failed.last_modified, 1700000000000);
}

#[test]
fn empty_file_binary() {
    let mut gc = GridController::new();
    let sheet_id = gc.sheet_ids()[0];
    gc.grid_mut().add_sheet(None);
    gc.start_user_transaction(
        vec![
            Operation::SetCellValues {
                sheet_rect: SheetRect::single_pos(Pos { x: 0, y: 0 }, sheet_id),
                values: Array::from_cell(text("a")),
            },
            Operation::SetCellValues {
                sheet_rect: SheetRect::single_pos(Pos { x: 1, y: 0 }, sheet_id),
                values: Array::from_cell(number("12")),
            },
        ],
        None,
        TransactionName::SetCells,
    )
    .unwrap();
    let operations = gc.set_code_cell_operations(
        Pos { x: 0, y: 1 }.to_sheet_pos(sheet_id),
        CodeCellLanguage::Formula,
        "13".to_string(),
    );
    gc.start_user_transaction(operations, None, TransactionName::SetCode)
        .unwrap();

    let exported = export(gc.grid());
    let imported = import(&exported).unwrap();
    assert_eq!(*gc.grid(), imported);
    assert_eq!(export(&imported), exported);
    assert_eq!(imported.sheets().len(), 2);
    assert_eq!(imported.sheet_ids(), gc.grid().sheet_ids());
    let sheet = &imported.sheets()[0];
    assert_eq!(sheet.get_cell_value(Pos { x: 0, y: 0 }), Some(text("a")));
    assert_eq!(sheet.get_cell_value(Pos { x: 1, y: 0 }), Some(number("12")));
    assert_eq!(
        sheet.get_cell_value(Pos { x: 0, y: 1 }),
        Some(CellValue::Code(CodeCellValue {
            language: CodeCellLanguage::Formula,
            code: "13".to_string()
        }))
    );
}

fn rich_grid() -> Grid {
    let mut grid = Grid::new();
    grid.add_sheet(None);
    let second = grid.sheets()[1].id;
    let sheet = &mut grid.sheets_mut()[0];
    sheet.color = Some("#ff0000".to_string());
    for (x, y, v) in [
        (0, 0, text("a")),
        (0, 1, number("-3.25")),
        (-7, 12, CellValue::Logical(true)),
        (3, i64::MIN, CellValue::Html("<b>x</b>".to_string())),
        (3, i64::MAX, CellValue::Instant("now".to_string())),
        (4, 4, CellValue::Duration("1h".to_string())),
        (
            5,
            5,
            CellValue::Error(Box::new(RunErrorMsg::ArrayTooBig.with_span(Span {
                start: 1,
                end: 9,
            }))),
        ),
    ] {
        sheet.set_cell_value(Pos { x, y }, v);
    }
    for (x, y, change) in [
        (0, 0, CellFormat::Bold(Some(true))),
        (0, 1, CellFormat::Bold(Some(true))),
        (0, 3, CellFormat::Bold(Some(false))),
        (0, 0, CellFormat::Italic(Some(true))),
        (1, 1, CellFormat::Align(Some(CellAlign::Right))),
        (1, 1, CellFormat::Wrap(Some(CellWrap::Clip))),
        (
            1,
            2,
            CellFormat::NumericFormat(Some(NumericFormat {
                kind: NumericFormatKind::Currency,
                symbol: Some("€".to_string()),
            })),
        ),
        (1, 2, CellFormat::NumericDecimals(Some(2))),
        (1, 2, CellFormat::NumericCommas(Some(true))),
        (2, i64::MAX, CellFormat::TextColor(Some("red".to_string()))),
        (2, i64::MIN, CellFormat::FillColor(Some("blue".to_string()))),
        (
            8,
            8,
            CellFormat::RenderSize(Some(RenderSize {
                w: "10".to_string(),
                h: "20".to_string(),
            })),
        ),
    ] {
        sheet.set_format_cell(Pos { x, y }, change);
    }
    sheet.offsets.column_widths.insert(3, 150f64.to_bits());
    sheet.offsets.row_heights.insert(-1, 42f64.to_bits());
    sheet.borders = vec![CellBorders {
        x: 1,
        y: 2,
        top: None,
        left: Some(BorderStyle {
            color: "#000".to_string(),
            line: "dotted".to_string(),
        }),
        bottom: None,
        right: None,
    }];
    let array = Array::new_row_major(
        ArraySize { w: 2, h: 2 },
        vec![text("a"), number("1"), CellValue::Blank, text("d")],
    )
    .unwrap();
    sheet.set_code_cell(
        Pos { x: 20, y: 20 },
        Some(CodeRun {
            formatted_code_string: Some("f".to_string()),
            std_out: Some("o".to_string()),
            std_err: Some("e".to_string()),
            cells_accessed: vec![SheetRect::from_rect(Rect::new(0, 0, 3, 3), second)],
            result: CodeRunResult::Output(Value::Array(array)),
            return_type: Some("array".to_string()),
            line_number: Some(4),
            output_type: Some("list".to_string()),
            spill_error: true,
            last_modified: 12345,
        }),
    );
    sheet.set_code_cell(
        Pos { x: 21, y: 0 },
        Some(CodeRun {
            formatted_code_string: None,
            std_out: None,
            std_err: None,
            cells_accessed: vec![],
            result: CodeRunResult::Failure(RunError {
                span: None,
                msg: RunErrorMsg::Expected {
                    expected: "number".to_string(),
                    got: "text".to_string(),
                },
            }),
            return_type: None,
            line_number: None,
            output_type: None,
            spill_error: false,
            last_modified: -1,
        }),
    );
    sheet.recalculate_bounds();
    grid
}

#[test]
fn a_grid_comes_back_as_it_was_written() {
    let grid = rich_grid();
    let written = export(&grid);
    assert_eq!(written.version, Some(CURRENT_VERSION.to_string()));
    let back = import(&written).unwrap();
    assert_eq!(export(&back), written);
    assert_eq!(back.sheet_ids(), grid.sheet_ids());
    let (a, b) = (&grid.sheets()[0], &back.sheets()[0]);
    assert_eq!(a.name, b.name);
    assert_eq!(a.color, b.color);
    assert_eq!(a.order, b.order);
    assert_eq!(a.columns, b.columns);
    assert_eq!(a.offsets, b.offsets);
    assert_eq!(a.borders, b.borders);
    assert_eq!(a.bounds(true), b.bounds(true));
    assert_eq!(a.bounds(false), b.bounds(false));
    for pos in [Pos { x: 20, y: 20 }, Pos { x: 21, y: 0 }, Pos { x: 0, y: 0 }] {
        assert_eq!(a.get_code_cell(pos), b.get_code_cell(pos));
    }
    assert_eq!(try_export(&grid), Some(written));
    let again = round_trip(&grid).unwrap();
    assert_eq!(export(&again), export(&grid));
    let new = Grid::new();
    assert_eq!(export(&round_trip(&new).unwrap()), export(&new));
}

#[test]
fn what_a_file_cannot_hold_is_not_written() {
    // a number that does not print as itself
    let mut grid = Grid::new();
    grid.sheets_mut()[0].set_cell_value(
        Pos { x: 0, y: 0 },
        CellValue::Number(Decimal {
            text: "1e2".to_string(),
        }),
    );
    assert!(!grid.is_numbers_storable());
    assert_eq!(try_export(&grid), None);
    grid.sheets_mut()[0].set_cell_value(Pos { x: 0, y: 0 }, number("1e2"));
    assert!(grid.is_numbers_storable());
    assert!(try_export(&grid).is_some());

    // validations are not part of a file
    let sheet_id = grid.sheets()[0].id;
    grid.sheets_mut()[0].validations.set(Validation {
        id: 1,
        selection: Selection::all(sheet_id),
        rule: ValidationRule::Any,
        message: Default::default(),
        error: Default::default(),
    });
    let back = import(&export(&grid)).unwrap();
    assert!(back.sheets()[0].validations.validations().is_none());
}

#[test]
fn cell_values_are_written_and_read() {
    for value in [
        CellValue::Blank,
        text("a"),
        number("12.5"),
        CellValue::Html("<i>".to_string()),
        CellValue::Code(CodeCellValue {
            language: CodeCellLanguage::Python,
            code: "1 + 1".to_string(),
        }),
        CellValue::Logical(false),
        CellValue::Instant("i".to_string()),
        CellValue::Duration("d".to_string()),
        CellValue::Error(Box::new(
            RunErrorMsg::ArrayAxisMismatch {
                axis: quadratic_core::values::Axis::Y,
                expected: 2,
                got: 3,
            }
            .with_span(Span { start: 0, end: 1 }),
        )),
        CellValue::Error(Box::new(RunErrorMsg::BadFunctionName.without_span())),
    ] {
        let written = export_cell_value(&value);
        assert_eq!(import_cell_value(&written), Ok(value));
    }
    assert_eq!(
        export_cell_value(&number("12.50")),
        v1_6::CellValue::Number("12.50".to_string())
    );
    assert_eq!(
        export_cell_value_number(&Decimal::parse("7").unwrap()),
        v1_6::CellValue::Number("7".to_string())
    );
    assert_eq!(import_cell_value_number("1e3".to_string()), Ok(number("1000")));
    assert_eq!(
        import_cell_value_number("1,5".to_string()),
        Err(FileError::BadNumber("1,5".to_string()))
    );
    assert_eq!(
        import_cell_value(&v1_6::CellValue::Number("".to_string())),
        Err(FileError::BadNumber("".to_string()))
    );
}

#[test]
fn versions_are_looked_up_by_their_tag() {
    assert_eq!(version_of("1.6"), Ok(FileVersion::V1_6));
    assert_eq!(version_of("1.5"), Ok(FileVersion::V1_5));
    for tag in ["1.4", "1.7", "", "1.60", "v1.6"] {
        assert_eq!(
            version_of(tag),
            Err(FileError::UnsupportedVersion(tag.to_string()))
        );
    }
    let latest = GridFile::V1_5 {
        grid: simple_v1_5_file(),
    }
    .into_latest()
    .unwrap();
    assert_eq!(latest, upgrade(simple_v1_5_file()).unwrap());
    let same = GridFile::V1_6 {
        grid: upgrade(simple_v1_5_file()).unwrap(),
    }
    .into_latest()
    .unwrap();
    assert_eq!(same, latest);
    assert_eq!(GridFileBinary::V1_6 { grid: same }.into_latest(), Ok(latest));
}

fn upgrade_with(change: impl FnOnce(&mut v1_5::Sheet)) -> Result<v1_6::GridSchema, FileError> {
    let mut sheet = old_sheet();
    change(&mut sheet);
    upgrade(old_file(sheet))
}

fn import_with(change: impl FnOnce(&mut v1_6::Sheet)) -> Result<Grid, FileError> {
    let mut file = upgrade(old_file(old_sheet())).unwrap();
    change(&mut file.sheets[0]);
    import(&file)
}

fn new_column() -> v1_6::Column {
    v1_6::Column {
        values: vec![],
        align: vec![],
        wrap: vec![],
        numeric_format: vec![],
        numeric_decimals: vec![],
        numeric_commas: vec![],
        bold: vec![],
        italic: vec![],
        text_color: vec![],
        fill_color: vec![],
        render_size: vec![],
    }
}

fn new_run(result: v1_6::CodeRunResult) -> v1_6::CodeRun {
    v1_6::CodeRun {
        formatted_code_string: None,
        std_out: None,
        std_err: None,
        cells_accessed: vec![],
        result,
        return_type: None,
        line_number: None,
        output_type: None,
        spill_error: false,
        last_modified: None,
    }
}

#[test]
fn an_old_file_that_cannot_be_classified_is_refused() {
    assert!(upgrade_with(|_| {}).is_ok());
    assert_eq!(
        upgrade_with(|sheet| {
            let mut column = old_column();
            column.values = vec![(
                "0".to_string(),
                v1_5::CellValue::Number("twelve".to_string()),
            )];
            sheet.columns = vec![(0, column)];
        }),
        Err(FileError::BadNumber("twelve".to_string()))
    );
    assert_eq!(
        upgrade_with(|sheet| {
            let mut column = old_column();
            column.italic = vec![(
                "0".to_string(),
                v1_5::ColumnRepeat {
                    value: true,
                    len: u32::MAX as u64 + 1,
                },
            )];
            sheet.columns = vec![(0, column)];
        }),
        Err(FileError::BadRunLength)
    );
    assert_eq!(
        upgrade_with(|sheet| {
            sheet.code_runs = vec![(
                v1_5::Pos { x: 0, y: 0 },
                old_run(v1_5::CodeRunResult::Output(v1_5::OutputValue::Single(
                    output("matrix", "1"),
                ))),
            )];
        }),
        Err(FileError::UnknownOutputType("matrix".to_string()))
    );
    assert_eq!(
        upgrade_with(|sheet| {
            sheet.code_runs = vec![(
                v1_5::Pos { x: 0, y: 0 },
                old_run(v1_5::CodeRunResult::Output(v1_5::OutputValue::Array(
                    v1_5::OutputArray {
                        size: v1_5::OutputSize { w: 1, h: 1 },
                        values: vec![output("html", "<b>")],
                    },
                ))),
            )];
        }),
        Err(FileError::UnknownOutputType("html".to_string()))
    );
    assert_eq!(
        upgrade_with(|sheet| {
            sheet.code_runs = vec![(
                v1_5::Pos { x: 0, y: 0 },
                old_run(v1_5::CodeRunResult::Output(v1_5::OutputValue::Single(
                    output("Number", "x"),
                ))),
            )];
        }),
        Err(FileError::BadNumber("x".to_string()))
    );
    // single values of these kinds are known
    for (kind, value, expected) in [
        ("Html", "<b>", v1_6::CellValue::Html("<b>".to_string())),
        ("BLANK", "", v1_6::CellValue::Blank),
        ("text", "t", v1_6::CellValue::Text("t".to_string())),
        ("number", "1.0", v1_6::CellValue::Number("1.0".to_string())),
    ] {
        let upgraded = upgrade_with(|sheet| {
            sheet.code_runs = vec![(
                v1_5::Pos { x: 0, y: 0 },
                old_run(v1_5::CodeRunResult::Output(v1_5::OutputValue::Single(
                    output(kind, value),
                ))),
            )];
        })
        .unwrap();
        assert_eq!(
            upgraded.sheets[0].code_runs[0].1.result,
            v1_6::CodeRunResult::Output(v1_6::OutputValue::Single(expected))
        );
    }
}

#[test]
fn a_file_that_cannot_be_read_is_refused() {
    assert!(import_with(|_| {}).is_ok());
    assert_eq!(
        import_with(|sheet| sheet.id.id = "sheet".to_string()),
        Err(FileError::BadSheetId("sheet".to_string()))
    );
    assert_eq!(
        import_with(|sheet| {
            let mut column = new_column();
            column.values = vec![("1.5".to_string(), v1_6::CellValue::Blank)];
            sheet.columns = vec![(0, column)];
        }),
        Err(FileError::BadRowKey("1.5".to_string()))
    );
    assert_eq!(
        import_with(|sheet| {
            let mut column = new_column();
            column.values = vec![(
                "1".to_string(),
                v1_6::CellValue::Number("1.2.3".to_string()),
            )];
            sheet.columns = vec![(0, column)];
        }),
        Err(FileError::BadNumber("1.2.3".to_string()))
    );
    assert_eq!(
        import_with(|sheet| {
            let mut column = new_column();
            column.bold = vec![(
                "first".to_string(),
                v1_6::ColumnRepeat {
                    value: true,
                    len: 1,
                },
            )];
            sheet.columns = vec![(0, column)];
        }),
        Err(FileError::BadRowKey("first".to_string()))
    );
    for (start, len) in [("0", 0u32), ("9223372036854775807", 2)] {
        assert_eq!(
            import_with(|sheet| {
                let mut column = new_column();
                column.bold = vec![(
                    start.to_string(),
                    v1_6::ColumnRepeat { value: true, len },
                )];
                sheet.columns = vec![(0, column)];
            }),
            Err(FileError::BadRunLength)
        );
    }
    for second in ["4", "0", "-3"] {
        assert_eq!(
            import_with(|sheet| {
                let mut column = new_column();
                column.bold = vec![
                    (
                        "0".to_string(),
                        v1_6::ColumnRepeat {
                            value: true,
                            len: 5,
                        },
                    ),
                    (
                        second.to_string(),
                        v1_6::ColumnRepeat {
                            value: false,
                            len: 1,
                        },
                    ),
                ];
                sheet.columns = vec![(0, column)];
            }),
            Err(FileError::RunsOutOfOrder)
        );
    }
    for (w, h, n) in [(0, 1, 0), (2, 2, 3), (-1, -1, 1), (i64::MAX, 2, 1)] {
        assert_eq!(
            import_with(|sheet| {
                sheet.code_runs = vec![(
                    v1_6::Pos { x: 0, y: 0 },
                    new_run(v1_6::CodeRunResult::Output(v1_6::OutputValue::Array(
                        v1_6::OutputArray {
                            size: v1_6::OutputSize { w, h },
                            values: (0..n).map(|_| v1_6::CellValue::Blank).collect(),
                        },
                    ))),
                )];
            }),
            Err(FileError::BadOutputSize)
        );
    }
    assert_eq!(
        import_with(|sheet| {
            sheet.code_runs = vec![
                (
                    v1_6::Pos { x: 1, y: 1 },
                    new_run(v1_6::CodeRunResult::Output(v1_6::OutputValue::Single(
                        v1_6::CellValue::Blank,
                    ))),
                ),
                (
                    v1_6::Pos { x: 1, y: 1 },
                    new_run(v1_6::CodeRunResult::Output(v1_6::OutputValue::Single(
                        v1_6::CellValue::Logical(true),
                    ))),
                ),
            ];
        }),
        Err(FileError::DuplicateCodeRun)
    );
    assert_eq!(
        import_with(|sheet| {
            let mut run = new_run(v1_6::CodeRunResult::Output(v1_6::OutputValue::Single(
                v1_6::CellValue::Blank,
            )));
            run.cells_accessed = vec![v1_6::SheetRect {
                min: v1_5::Pos { x: 0, y: 0 },
                max: v1_5::Pos { x: 0, y: 0 },
                sheet_id: v1_5::Id {
                    id: "zz".to_string(),
                },
            }];
            sheet.code_runs = vec![(v1_6::Pos { x: 1, y: 1 }, run)];
        }),
        Err(FileError::BadSheetId("zz".to_string()))
    );
    // of two entries for one row the last one counts
    let grid = import_with(|sheet| {
        let mut column = new_column();
        column.values = vec![
            ("1".to_string(), v1_6::CellValue::Text("first".to_string())),
            ("01".to_string(), v1_6::CellValue::Text("last".to_string())),
        ];
        sheet.columns = vec![(0, column)];
    })
    .unwrap();
    assert_eq!(
        grid.sheets()[0].get_cell_value(Pos { x: 0, y: 1 }),
        Some(text("last"))
    );
}

#[test]
fn the_first_defect_of_a_file_is_its_error() {
    // the id of the sheet is looked at before its columns
    assert_eq!(
        import_with(|sheet| {
            sheet.id.id = "?".to_string();
            let mut column = new_column();
            column.values = vec![("x".to_string(), v1_6::CellValue::Blank)];
            sheet.columns = vec![(0, column)];
        }),
        Err(FileError::BadSheetId("?".to_string()))
    );
    // values before runs, and the runs of the attributes in their order
    assert_eq!(
        import_with(|sheet| {
            let mut column = new_column();
            column.values = vec![
                ("1".to_string(), v1_6::CellValue::Blank),
                ("two".to_string(), v1_6::CellValue::Number("?".to_string())),
            ];
            column.align = vec![(
                "0".to_string(),
                v1_6::ColumnRepeat {
                    value: v1_6::CellAlign::Left,
                    len: 0,
                },
            )];
            sheet.columns = vec![(0, column)];
        }),
        Err(FileError::BadRowKey("two".to_string()))
    );
    assert_eq!(
        import_with(|sheet| {
            let mut column = new_column();
            column.bold = vec![(
                "b".to_string(),
                v1_6::ColumnRepeat {
                    value: true,
                    len: 1,
                },
            )];
            column.align = vec![(
                "0".to_string(),
                v1_6::ColumnRepeat {
                    value: v1_6::CellAlign::Left,
                    len: 0,
                },
            )];
            sheet.columns = vec![(0, column)];
        }),
        Err(FileError::BadRunLength)
    );
    // columns before code runs; a repeated position before the run itself
    assert_eq!(
        import_with(|sheet| {
            let broken = || {
                new_run(v1_6::CodeRunResult::Output(v1_6::OutputValue::Single(
                    v1_6::CellValue::Number("n".to_string()),
                )))
            };
            let sound = new_run(v1_6::CodeRunResult::Output(v1_6::OutputValue::Single(
                v1_6::CellValue::Blank,
            )));
            sheet.code_runs = vec![
                (v1_6::Pos { x: 1, y: 1 }, sound),
                (v1_6::Pos { x: 1, y: 1 }, broken()),
            ];
        }),
        Err(FileError::DuplicateCodeRun)
    );
    assert_eq!(
        import_with(|sheet| {
            sheet.code_runs = vec![(
                v1_6::Pos { x: 1, y: 1 },
                new_run(v1_6::CodeRunResult::Output(v1_6::OutputValue::Array(
                    v1_6::OutputArray {
                        size: v1_6::OutputSize { w: 2, h: 1 },
                        values: vec![
                            v1_6::CellValue::Number("1".to_string()),
                            v1_6::CellValue::Number("second".to_string()),
                        ],
                    },
                ))),
            )];
        }),
        Err(FileError::BadNumber("second".to_string()))
    );
}
