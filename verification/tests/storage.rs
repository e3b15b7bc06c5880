use quadratic_core::grid::bounds::GridBounds;
use quadratic_core::grid::code::{CodeRun, CodeRunResult};
use quadratic_core::grid::formatting::{CellAlign, CellFormat, RenderSize};
use quadratic_core::grid::ids::SheetId;
use quadratic_core::grid::sheet::Sheet;
use quadratic_core::pos::Pos;
use quadratic_core::rect::{Rect, SheetRect};
use quadratic_core::selection::Selection;
use quadratic_core::values::array::{Array, ArraySize, Value};
use quadratic_core::values::decimal::Decimal;
use quadratic_core::values::CellValue;

fn sheet() -> Sheet {
    Sheet::new(SheetId::new(), "Sheet 1".to_string(), "a0".to_string())
}

fn text(s: &str) -> CellValue {
    CellValue::Text(s.to_string())
}

fn number(s: &str) -> CellValue {
    CellValue::Number(Decimal::parse(s).unwrap())
}

fn run(result: CodeRunResult, spill_error: bool, last_modified: i64) -> CodeRun {
    CodeRun {
        formatted_code_string: None,
        std_out: None,
        std_err: None,
        cells_accessed: vec![],
        result,
        return_type: None,
        line_number: None,
        output_type: None,
        spill_error,
        last_modified,
    }
}

#[test]
fn set_and_get_cell_values() {
    let mut sheet = sheet();
    let pos = Pos { x: 2, y: -3 };
    assert_eq!(sheet.get_cell_value(pos), None);
    assert_eq!(sheet.set_cell_value(pos, text("a")), None);
    assert_eq!(sheet.get_cell_value(pos), Some(text("a")));
    assert_eq!(sheet.set_cell_value(pos, number("12")), Some(text("a")));
    assert_eq!(sheet.get_cell_value(pos), Some(number("12")));
    assert_eq!(sheet.set_cell_value(pos, CellValue::Blank), Some(number("12")));
    assert_eq!(sheet.get_cell_value(pos), None);
}

#[test]
fn blank_does_not_create_a_column() {
    let mut sheet = sheet();
    assert_eq!(sheet.set_cell_value(Pos { x: 7, y: 7 }, CellValue::Blank), None);
    assert!(sheet.get_column(7).is_none());
    assert_eq!(sheet.get_cell_value(Pos { x: 7, y: 7 }), None);
    assert!(sheet.get_column(7).is_none());
    sheet.set_cell_value(Pos { x: 7, y: 7 }, text("x"));
    assert!(sheet.get_column(7).is_some());
}

#[test]
fn bounds_are_recalculated() {
    let mut sheet = sheet();
    sheet.recalculate_bounds();
    assert_eq!(sheet.bounds(true), GridBounds::Empty);
    assert_eq!(sheet.bounds(false), GridBounds::Empty);
    sheet.set_cell_value(Pos { x: 1, y: 2 }, text("a"));
    sheet.set_cell_value(Pos { x: -4, y: 9 }, text("b"));
    sheet.set_format_cell(Pos { x: 10, y: -1 }, CellFormat::Bold(Some(true)));
    sheet.recalculate_bounds();
    assert_eq!(sheet.bounds(true), GridBounds::NonEmpty(Rect::new(-4, 2, 1, 9)));
    assert_eq!(
        sheet.bounds(false),
        GridBounds::NonEmpty(Rect::new(-4, -1, 10, 9))
    );
    sheet.delete_range(Rect::new(-10, 5, 0, 10));
    sheet.recalculate_bounds();
    assert_eq!(sheet.bounds(true), GridBounds::NonEmpty(Rect::new(1, 2, 1, 2)));
    assert_eq!(sheet.get_cell_value(Pos { x: -4, y: 9 }), None);
    assert_eq!(sheet.get_cell_value(Pos { x: 1, y: 2 }), Some(text("a")));
}

#[test]
fn formats_are_kept_in_merged_runs() {
    let mut sheet = sheet();
    for y in [3, 1, 2, 5] {
        let previous = sheet.set_format_cell(Pos { x: 0, y }, CellFormat::Bold(Some(true)));
        assert_eq!(previous, CellFormat::Bold(None));
    }
    let column = sheet.get_column(0).unwrap();
    let runs = column.bold.as_runs();
    assert_eq!(runs.len(), 2);
    assert_eq!((runs[0].start, runs[0].end, runs[0].value), (1, 3, true));
    assert_eq!((runs[1].start, runs[1].end, runs[1].value), (5, 5, true));
    assert_eq!(
        sheet.set_format_cell(Pos { x: 0, y: 4 }, CellFormat::Bold(Some(true))),
        CellFormat::Bold(None)
    );
    assert_eq!(sheet.get_column(0).unwrap().bold.as_runs().len(), 1);
    assert_eq!(
        sheet.set_format_cell(Pos { x: 0, y: 2 }, CellFormat::Bold(Some(false))),
        CellFormat::Bold(Some(true))
    );
    let column = sheet.get_column(0).unwrap();
    let runs = column.bold.as_runs();
    assert_eq!(runs.len(), 3);
    assert_eq!((runs[1].start, runs[1].end, runs[1].value), (2, 2, false));
    assert_eq!(
        sheet.set_format_cell(Pos { x: 0, y: 2 }, CellFormat::Bold(None)),
        CellFormat::Bold(Some(false))
    );
    assert_eq!(sheet.get_column(0).unwrap().bold.as_runs().len(), 2);
    assert_eq!(
        sheet.get_format_cell(Pos { x: 0, y: 3 }, &CellFormat::Bold(None)),
        CellFormat::Bold(Some(true))
    );
    assert_eq!(
        sheet.get_format_cell(Pos { x: 0, y: 3 }, &CellFormat::Align(None)),
        CellFormat::Align(None)
    );
    sheet.set_format_cell(Pos { x: 0, y: 3 }, CellFormat::Align(Some(CellAlign::Right)));
    assert_eq!(
        sheet.get_format_cell(Pos { x: 0, y: 3 }, &CellFormat::Align(None)),
        CellFormat::Align(Some(CellAlign::Right))
    );
}

#[test]
fn test_render_size() {
    let mut sheet = sheet();
    sheet.set_format_cell(
        Pos { x: 0, y: 0 },
        CellFormat::RenderSize(Some(RenderSize {
            w: "10".to_string(),
            h: "20".to_string(),
        })),
    );
    assert_eq!(
        sheet.render_size(Pos { x: 0, y: 0 }),
        Some(RenderSize {
            w: "10".to_string(),
            h: "20".to_string()
        })
    );
    assert_eq!(sheet.render_size(Pos { x: 1, y: 1 }), None);
}

#[test]
fn test_set_code_cell_value() {
    let mut sheet = sheet();
    let code_run = run(CodeRunResult::Output(Value::Single(text("1"))), false, 0);
    let old = sheet.set_code_cell(Pos { x: 0, y: 0 }, Some(code_run.clone()));
    assert_eq!(sheet.get_code_cell(Pos { x: 0, y: 0 }), Some(&code_run));
    assert_eq!(old, None);
    let old = sheet.set_code_cell(Pos { x: 0, y: 0 }, None);
    assert_eq!(old, Some(code_run));
    assert_eq!(sheet.get_code_cell(Pos { x: 0, y: 0 }), None);
}

#[test]
fn test_get_code_cell_value() {
    let mut sheet = sheet();
    let code_run = run(CodeRunResult::Output(Value::Single(number("2"))), false, 0);
    sheet.set_code_cell(Pos { x: 0, y: 0 }, Some(code_run.clone()));
    assert_eq!(
        sheet.get_code_cell_value(Pos { x: 0, y: 0 }),
        Some(number("2"))
    );
    assert_eq!(sheet.get_code_cell_value(Pos { x: 1, y: 1 }), None);
}

#[test]
fn code_output_array_is_shown_and_spill_is_held_back() {
    let mut sheet = sheet();
    let array = Array::new_row_major(
        ArraySize { w: 2, h: 2 },
        vec![text("a"), text("b"), text("c"), text("d")],
    )
    .unwrap();
    sheet.set_code_cell(
        Pos { x: 5, y: 5 },
        Some(run(CodeRunResult::Output(Value::Array(array.clone())), false, 20)),
    );
    assert_eq!(sheet.get_code_cell_value(Pos { x: 6, y: 5 }), Some(text("b")));
    assert_eq!(sheet.get_code_cell_value(Pos { x: 5, y: 6 }), Some(text("c")));
    assert_eq!(sheet.get_code_cell_value(Pos { x: 7, y: 5 }), None);
    assert_eq!(sheet.display_value(Pos { x: 6, y: 6 }), Some(text("d")));
    sheet.set_cell_value(Pos { x: 6, y: 6 }, text("own"));
    assert_eq!(sheet.display_value(Pos { x: 6, y: 6 }), Some(text("own")));
    let touching = sheet.iter_code_output_in_rect(Rect::new(6, 6, 9, 9));
    assert_eq!(touching.len(), 1);
    assert_eq!(touching[0].0, Rect::new(5, 5, 6, 6));
    assert!(sheet.iter_code_output_in_rect(Rect::new(7, 7, 9, 9)).is_empty());

    // held back: shows nothing, and waits for cells of its output
    sheet.set_code_cell(
        Pos { x: 0, y: 0 },
        Some(run(CodeRunResult::Output(Value::Array(array.clone())), true, 10)),
    );
    sheet.set_code_cell(
        Pos { x: 0, y: 1 },
        Some(run(CodeRunResult::Output(Value::Array(array)), true, 5)),
    );
    assert_eq!(sheet.get_code_cell_value(Pos { x: 1, y: 1 }), None);
    let id = sheet.id;
    let released = sheet
        .spill_error_released(&SheetRect::single_pos(Pos { x: 1, y: 1 }, id))
        .unwrap();
    assert_eq!((released.0.x, released.0.y), (0, 1));
    assert_eq!(released.1.last_modified, 5);
    let released = sheet
        .spill_error_released(&SheetRect::single_pos(Pos { x: 1, y: 0 }, id))
        .unwrap();
    assert_eq!((released.0.x, released.0.y), (0, 0));
    assert!(sheet
        .spill_error_released(&SheetRect::single_pos(Pos { x: 3, y: 3 }, id))
        .is_none());
}

#[test]
fn selection_values() {
    let mut sheet = sheet();
    sheet.set_cell_value(Pos { x: 0, y: 0 }, text("test"));
    sheet.set_cell_value(Pos { x: 1, y: 4 }, text("other"));
    let values = sheet.selection(&Selection::pos(0, 0, sheet.id));
    assert_eq!(values, vec![(Pos { x: 0, y: 0 }, text("test"))]);
    let values = sheet.selection(&Selection::all(sheet.id));
    assert_eq!(values.len(), 2);
    let values = sheet.selection(&Selection::rect(Rect::new(1, 1, 1, 9), sheet.id));
    assert_eq!(values, vec![(Pos { x: 1, y: 4 }, text("other"))]);
}

#[test]
fn decimals_are_kept_as_printed() {
    assert_eq!(Decimal::parse("42").unwrap().to_text(), "42");
    assert_eq!(Decimal::parse("42.0").unwrap().to_text(), "42.0");
    assert_eq!(Decimal::parse("1e2").unwrap().to_text(), "100");
    assert_eq!(Decimal::parse("-0.50").unwrap().to_text(), "-0.50");
    assert!(Decimal::parse("abc").is_none());
    assert!(Decimal::parse("").is_none());
    assert_eq!(Decimal::from_i64(-7).unwrap().to_text(), "-7");
    assert!(Decimal::from_canonical(&"12".to_string()).is_some());
    assert!(Decimal::from_canonical(&"+12".to_string()).is_none());
    assert!(number("3").is_wf());
    assert!(!CellValue::Number(Decimal { text: "03".to_string() }).is_wf());
}

#[test]
fn selected_cells_come_column_by_column() {
    let mut sheet = sheet();
    for (x, y) in [(3, 1), (-2, 5), (3, -4), (0, 0), (-2, -9), (3, 0)] {
        sheet.set_cell_value(Pos { x, y }, text("v"));
    }
    let values = sheet.selection(&Selection::all(sheet.id));
    assert_eq!(
        values.iter().map(|v| (v.0.x, v.0.y)).collect::<Vec<_>>(),
        vec![(-2, -9), (-2, 5), (0, 0), (3, -4), (3, 0), (3, 1)]
    );
    let some = sheet.selection(&Selection::rect(Rect::new(-2, 0, 3, 5), sheet.id));
    assert_eq!(
        some.iter().map(|v| (v.0.x, v.0.y)).collect::<Vec<_>>(),
        vec![(-2, 5), (0, 0), (3, 0), (3, 1)]
    );
}

#[test]
fn whole_numbers_become_decimals() {
    for n in [0, 7, -7, i64::MAX, i64::MIN] {
        assert_eq!(Decimal::from_i64(n).unwrap().to_text(), n.to_string());
    }
}

#[test]
fn well_formedness_is_tested() {
    let mut sheet = sheet();
    sheet.set_cell_value(Pos { x: 0, y: 0 }, text("a"));
    sheet.set_format_cell(Pos { x: 0, y: 0 }, CellFormat::Bold(Some(true)));
    assert!(sheet.is_wf());
    // a column under another coordinate than its own
    let column = sheet.columns.remove(&0).unwrap();
    sheet.columns.insert(5, column);
    assert!(!sheet.is_wf());
    let column = sheet.columns.remove(&5).unwrap();
    sheet.columns.insert(0, column);
    assert!(sheet.is_wf());
    // a blank that is stored
    sheet
        .columns
        .get_mut(&0)
        .unwrap()
        .values
        .insert(3, CellValue::Blank);
    assert!(!sheet.is_wf());
    sheet.columns.get_mut(&0).unwrap().values.remove(&3);
    // two code runs for one position
    let first = run(CodeRunResult::Output(Value::Single(text("1"))), false, 0);
    let second = run(CodeRunResult::Output(Value::Single(text("2"))), false, 0);
    sheet.code_runs.push((Pos { x: 1, y: 1 }, first));
    assert!(sheet.is_wf());
    sheet.code_runs.push((Pos { x: 1, y: 1 }, second));
    assert!(!sheet.is_wf());
}
