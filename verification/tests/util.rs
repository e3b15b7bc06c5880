use quadratic_core::controller::GridController;
use quadratic_core::grid::formatting::CellFormat;
use quadratic_core::grid::ids::SheetId;
use quadratic_core::pos::Pos;
use quadratic_core::rect::Rect;
use quadratic_core::sql::{PostgresConnection, SqlError};
use quadratic_core::test_util::{assert_cell_value, assert_cell_value_row, table_of};
use quadratic_core::values::decimal::Decimal;
use quadratic_core::values::CellValue;

fn controller() -> (GridController, SheetId) {
    let mut gc = GridController::new();
    let sheet_id = gc.sheet_ids()[0];
    let sheet = gc.grid_mut().try_sheet_mut(sheet_id).unwrap();
    sheet.set_cell_value(Pos { x: 0, y: 0 }, CellValue::Text("a".to_string()));
    sheet.set_cell_value(
        Pos { x: 1, y: 0 },
        CellValue::Number(Decimal::parse("12.5").unwrap()),
    );
    sheet.set_cell_value(Pos { x: 2, y: 0 }, CellValue::Text("12".to_string()));
    sheet.set_cell_value(Pos { x: 1, y: 1 }, CellValue::Logical(true));
    sheet.set_format_cell(Pos { x: 1, y: 0 }, CellFormat::Bold(Some(true)));
    sheet.set_format_cell(Pos { x: 0, y: 1 }, CellFormat::Bold(Some(false)));
    sheet.set_format_cell(Pos { x: 2, y: 1 }, CellFormat::Italic(Some(true)));
    (gc, sheet_id)
}

#[test]
fn cell_values_are_checked_against_texts() {
    let (gc, sheet_id) = controller();
    assert!(assert_cell_value(&gc, sheet_id, 0, 0, "a"));
    assert!(!assert_cell_value(&gc, sheet_id, 0, 0, "b"));
    assert!(assert_cell_value(&gc, sheet_id, 1, 0, "12.5"));
    assert!(!assert_cell_value(&gc, sheet_id, 1, 0, "12.50"));
    // a text that spells a number stands for the number
    assert!(!assert_cell_value(&gc, sheet_id, 2, 0, "12"));
    assert!(!assert_cell_value(&gc, sheet_id, 9, 9, ""));
    assert!(!assert_cell_value(&gc, SheetId { id: 1 }, 0, 0, "a"));
    assert!(assert_cell_value_row(
        &gc,
        sheet_id,
        0,
        1,
        0,
        vec!["a", "12.5"]
    ));
    assert!(assert_cell_value_row(
        &gc,
        sheet_id,
        0,
        1,
        0,
        vec!["a", "12.5", "more than asked for"]
    ));
    assert!(!assert_cell_value_row(
        &gc,
        sheet_id,
        0,
        2,
        0,
        vec!["a", "12.5", "12"]
    ));
    assert!(assert_cell_value_row(&gc, sheet_id, 3, 2, 0, vec![]));
}

#[test]
fn a_range_is_laid_out_as_a_table() {
    let (gc, sheet_id) = controller();
    let table = table_of(&gc, sheet_id, &Rect::new(-1, 0, 2, 1)).unwrap();
    assert_eq!(table.header, vec!["", "-1", "0", "1", "2"]);
    assert_eq!(
        table.records,
        vec![
            vec!["0", "", "a", "12.5", "12"],
            vec!["1", "", "", "TRUE", ""],
        ]
    );
    assert_eq!(table.bolds, vec![(1, 3), (2, 2)]);
    assert!(table_of(&gc, SheetId { id: 1 }, &Rect::new(0, 0, 1, 1)).is_none());
    assert!(table_of(&gc, sheet_id, &Rect::new(0, 0, u32::MAX as i64, 0)).is_none());
    let one = table_of(&gc, sheet_id, &Rect::new(i64::MAX, i64::MIN, i64::MAX, i64::MIN)).unwrap();
    assert_eq!(one.header, vec!["", "9223372036854775807"]);
    assert_eq!(one.records, vec![vec!["-9223372036854775808", ""]]);
}

#[test]
fn the_port_of_a_connection_is_a_number() {
    let connection = |port: Option<&str>| {
        PostgresConnection::new(
            Some("user".to_string()),
            Some("word".to_string()),
            "0.0.0.0".to_string(),
            port.map(|p| p.to_string()),
            Some("postgres".to_string()),
        )
    };
    assert_eq!(connection(None).port_number(), Ok(None));
    assert_eq!(connection(Some("5432")).port_number(), Ok(Some(5432)));
    assert_eq!(connection(Some("65535")).port_number(), Ok(Some(65535)));
    for bad in ["65536", "", "-1", "5432 ", "http"] {
        assert_eq!(
            connection(Some(bad)).port_number(),
            Err(SqlError::BadPort(bad.to_string()))
        );
    }
    let c = connection(Some("1"));
    assert_eq!(c.host, "0.0.0.0");
    assert_eq!(c.user, Some("user".to_string()));
    assert_eq!(c.database, Some("postgres".to_string()));
}
