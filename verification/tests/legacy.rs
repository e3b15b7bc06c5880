use quadratic_core::grid::code::{CodeRun, CodeRunResult};
use quadratic_core::grid::formatting::{CellAlign, CellFormat, CellWrap};
use quadratic_core::grid::legacy::{
    GridFile, GridFileV1_4, JsCell, JsCellContent, JsCellFormat, JsSheet,
};
use quadratic_core::grid::bounds::GridBounds;
use quadratic_core::grid::Grid;
use quadratic_core::pos::Pos;
use quadratic_core::rect::Rect;
use quadratic_core::values::array::Value;
use quadratic_core::values::decimal::Decimal;
use quadratic_core::values::{CellValue, CodeCellLanguage, CodeCellValue};

fn text(s: &str) -> CellValue {
    CellValue::Text(s.to_string())
}

fn cell(x: i64, y: i64, content: JsCellContent) -> JsCell {
    JsCell { x, y, content }
}

fn format(x: i64, y: i64, bold: Option<bool>, alignment: Option<CellAlign>) -> JsCellFormat {
    JsCellFormat {
        x,
        y,
        alignment,
        bold,
        fill_color: None,
        italic: None,
        text_color: Some("red".to_string()),
        text_format: None,
        wrapping: Some(CellWrap::Wrap),
    }
}

fn sheet(name: &str, order: &str) -> JsSheet {
    JsSheet {
        name: name.to_string(),
        order: order.to_string(),
        cells: vec![],
        formats: vec![],
    }
}

#[test]
fn a_legacy_file_becomes_a_grid() {
    let run = CodeRun {
        formatted_code_string: None,
        std_out: None,
        std_err: None,
        cells_accessed: vec![],
        result: CodeRunResult::Output(Value::Single(CellValue::Number(
            Decimal::parse("3").unwrap(),
        ))),
        return_type: None,
        line_number: None,
        output_type: None,
        spill_error: false,
        last_modified: 0,
    };
    let mut first = sheet("Data", "a1");
    first.cells = vec![
        cell(0, 0, JsCellContent::Value(text("first"))),
        cell(1, 0, JsCellContent::Value(text("kept"))),
        cell(0, 0, JsCellContent::Value(text("last"))),
        cell(5, 5, JsCellContent::Value(text("gone"))),
        cell(5, 5, JsCellContent::Value(CellValue::Blank)),
        cell(0, 0, JsCellContent::Computed),
        cell(
            2,
            2,
            JsCellContent::Code {
                language: CodeCellLanguage::Formula,
                code: "1 + 2".to_string(),
                run: Some(run),
            },
        ),
    ];
    first.formats = vec![
        format(0, 0, Some(true), Some(CellAlign::Left)),
        format(9, -9, Some(false), None),
        format(0, 0, None, Some(CellAlign::Right)),
    ];
    let file = GridFile::V1_4(GridFileV1_4 {
        sheets: vec![first, sheet("Empty", "a0")],
    });
    let grid = Grid::from_legacy(&file).unwrap();
    assert_eq!(
        grid.sheets().iter().map(|s| s.name.as_str()).collect::<Vec<_>>(),
        vec!["Empty", "Data"]
    );
    assert_ne!(grid.sheets()[0].id, grid.sheets()[1].id);
    let data = &grid.sheets()[1];
    assert_eq!(data.get_cell_value(Pos { x: 0, y: 0 }), Some(text("last")));
    assert_eq!(data.get_cell_value(Pos { x: 1, y: 0 }), Some(text("kept")));
    assert_eq!(data.get_cell_value(Pos { x: 5, y: 5 }), None);
    assert_eq!(
        data.get_cell_value(Pos { x: 2, y: 2 }),
        Some(CellValue::Code(CodeCellValue {
            language: CodeCellLanguage::Formula,
            code: "1 + 2".to_string()
        }))
    );
    assert_eq!(
        data.get_code_cell_value(Pos { x: 2, y: 2 }),
        Some(CellValue::Number(Decimal::parse("3").unwrap()))
    );
    // of two entries for one cell the last gives all of the formatting
    assert_eq!(
        data.get_format_cell(Pos { x: 0, y: 0 }, &CellFormat::Bold(None)),
        CellFormat::Bold(None)
    );
    assert_eq!(
        data.get_format_cell(Pos { x: 0, y: 0 }, &CellFormat::Align(None)),
        CellFormat::Align(Some(CellAlign::Right))
    );
    assert_eq!(
        data.get_format_cell(Pos { x: 9, y: -9 }, &CellFormat::TextColor(None)),
        CellFormat::TextColor(Some("red".to_string()))
    );
    assert_eq!(
        data.get_format_cell(Pos { x: 9, y: -9 }, &CellFormat::Wrap(None)),
        CellFormat::Wrap(Some(CellWrap::Wrap))
    );
    assert_eq!(
        data.bounds(true),
        GridBounds::NonEmpty(Rect::new(0, 0, 2, 2))
    );
    assert_eq!(
        data.bounds(false),
        GridBounds::NonEmpty(Rect::new(0, -9, 9, 2))
    );
    assert_eq!(grid.sheets()[0].bounds(false), GridBounds::Empty);
}

#[test]
fn a_legacy_file_with_a_name_twice_is_refused() {
    let file = GridFile::V1_4(GridFileV1_4 {
        sheets: vec![sheet("A", "a0"), sheet("B", "a1"), sheet("A", "a2")],
    });
    assert_eq!(Grid::from_legacy(&file), Err("duplicate sheet name"));
    let none = GridFile::V1_4(GridFileV1_4 { sheets: vec![] });
    assert_eq!(Grid::from_legacy(&none).unwrap().sheets().len(), 0);
}
