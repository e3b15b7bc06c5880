use lexicon_fractional_index::key_between;
use quadratic_core::grid::ids::SheetId;
use quadratic_core::grid::sheet::Sheet;
use quadratic_core::grid::Grid;

#[test]
fn test_try_sheet_from_id() {
    let grid = Grid::new();
    let id = grid.first_sheet_id();

    assert!(grid.try_sheet(id).is_some());
    assert!(grid.try_sheet(SheetId::new()).is_none());
}

#[test]
fn test_try_sheet_mut_from_id() {
    let mut grid = Grid::new();
    let id = grid.first_sheet_id();

    assert!(grid.try_sheet_mut(id).is_some());
    assert!(grid.try_sheet_mut(SheetId::new()).is_none());
}

/// creates three sheets with name 0, 1, and 2
fn create_three_sheets() -> Grid {
    let mut grid = Grid::new();
    grid.sheets[0].name = String::from('0');
    grid.add_sheet(None);
    grid.sheets[1].name = String::from('1');
    grid.add_sheet(None);
    grid.sheets[2].name = String::from('2');
    grid
}

#[test]
fn test_order_add_sheet() {
    let grid = create_three_sheets();
    let sheet_0 = &grid.sheets[0];
    let sheet_1 = &grid.sheets[1];
    let sheet_2 = &grid.sheets[2];
    assert!(sheet_0.order < sheet_1.order);
    assert!(sheet_1.order < sheet_2.order);
}

#[test]
fn test_order_move_sheet() {
    // starting as name = 0, 1, 2
    let mut grid = create_three_sheets();

    // moved to name = 1, 0, 2
    grid.move_sheet(
        grid.sheets[0].id,
        key_between(
            &Some(grid.sheets[1].order.clone()),
            &Some(grid.sheets[2].order.clone()),
        )
        .unwrap(),
    );
    assert_eq!(grid.sheets[0].name, String::from('1'));
    assert_eq!(grid.sheets[1].name, String::from('0'));
    assert_eq!(grid.sheets[2].name, String::from('2'));

    // moved to name = 1, 2, 0
    grid.move_sheet(
        grid.sheets[1].id,
        key_between(&Some(grid.sheets[2].order.clone()), &None).unwrap(),
    );
    assert_eq!(grid.sheets[0].name, String::from('1'));
    assert_eq!(grid.sheets[1].name, String::from('2'));
    assert_eq!(grid.sheets[2].name, String::from('0'));

    // moved back to name = 0, 1, 2
    grid.move_sheet(
        grid.sheets[2].id,
        key_between(&None, &Some(grid.sheets[0].order.clone())).unwrap(),
    );
    assert_eq!(grid.sheets[0].name, String::from('0'));
    assert_eq!(grid.sheets[1].name, String::from('1'));
    assert_eq!(grid.sheets[2].name, String::from('2'));
}

#[test]
fn test_first_sheet() {
    let grid = create_three_sheets();
    assert_eq!(grid.first_sheet().name, String::from('0'));
}

#[test]
fn test_first_sheet_id() {
    let grid = create_three_sheets();
    assert_eq!(grid.first_sheet_id(), grid.sheets[0].id);
}

#[test]
fn test_previous_sheet_order() {
    let grid = create_three_sheets();
    assert_eq!(grid.previous_sheet_order(grid.sheets[0].id), None);
    assert_eq!(
        grid.previous_sheet_order(grid.sheets[1].id),
        Some(grid.sheets[0].order.clone())
    );
    assert_eq!(
        grid.previous_sheet_order(grid.sheets[2].id),
        Some(grid.sheets[1].order.clone())
    );
}

#[test]
fn test_next_sheet() {
    let grid = create_three_sheets();
    assert_eq!(grid.next_sheet(grid.sheets[0].id), Some(&grid.sheets[1]));
    assert_eq!(grid.next_sheet(grid.sheets[1].id), Some(&grid.sheets[2]));
    assert_eq!(grid.next_sheet(grid.sheets[2].id), None);
}

#[test]
fn test_sort_sheets() {
    let mut grid = create_three_sheets();
    grid.sheets[0].order = String::from("a2");
    grid.sheets[1].order = String::from("a1");
    grid.sheets[2].order = String::from("a3");
    grid.sort_sheets();
    assert_eq!(grid.sheets[0].name, String::from('1'));
    assert_eq!(grid.sheets[1].name, String::from('0'));
    assert_eq!(grid.sheets[2].name, String::from('2'));
}

#[test]
fn test_move_sheet() {
    let mut grid = create_three_sheets();
    grid.move_sheet(
        grid.sheets[0].id,
        key_between(
            &Some(grid.sheets[1].order.clone()),
            &Some(grid.sheets[2].order.clone()),
        )
        .unwrap(),
    );
    assert_eq!(grid.sheets[0].name, String::from('1'));
    assert_eq!(grid.sheets[1].name, String::from('0'));
    assert_eq!(grid.sheets[2].name, String::from('2'));
}

#[test]
fn add_sheet_adds_suffix_if_name_already_in_use() {
    let mut grid = Grid::new();
    grid.add_sheet(Some(Sheet::new(
        SheetId::new(),
        "Sheet 1".to_string(),
        "a1".to_string(),
    )));
    grid.add_sheet(Some(Sheet::new(
        SheetId::new(),
        "Sheet 1".to_string(),
        "a1".to_string(),
    )));
    assert_eq!(grid.sheets[0].name, "Sheet 1".to_string());
    assert_eq!(grid.sheets[1].name, "Sheet 1 (1)".to_string());
    assert_eq!(grid.sheets[2].name, "Sheet 1 (1) (2)".to_string());
}

#[test]
fn new_grid_has_one_sheet() {
    let grid = Grid::new();
    assert_eq!(grid.sheets().len(), 1);
    assert_eq!(grid.sheets[0].name, "Sheet 1");
    assert_eq!(grid.sheets[0].order, "a0");
    assert_eq!(grid.sheet_ids(), vec![grid.sheets[0].id]);
    assert_eq!(grid.sheet_id_to_index(grid.sheets[0].id), Some(0));
    assert_eq!(grid.sheet_index_to_id(0), Some(grid.sheets[0].id));
    assert_eq!(grid.sheet_index_to_id(1), None);
    assert!(grid.sheet_has_id(Some(grid.sheets[0].id)));
    assert!(!grid.sheet_has_id(None));
    assert!(grid.try_sheet_from_name("Sheet 1".to_string()).is_some());
    assert!(grid.try_sheet_from_name("Sheet 2".to_string()).is_none());
}

#[test]
fn sheets_are_found_by_text_of_id() {
    let mut grid = Grid::new();
    let id = grid.sheets[0].id;
    let text = id.to_string();
    assert_eq!(text.len(), 36);
    assert_eq!(SheetId::from_str(&text), Some(id));
    assert_eq!(
        SheetId { id: 0x00112233_4455_6677_8899_aabbccddeeff }.to_string(),
        "00112233-4455-6677-8899-aabbccddeeff"
    );
    assert!(grid.try_sheet_from_string_id(text.clone()).is_some());
    assert!(grid.try_sheet_mut_from_string_id(text).is_some());
    assert!(grid
        .try_sheet_from_string_id("not an id".to_string())
        .is_none());
    assert_eq!(SheetId::from_str("not an id"), None);
}

#[test]
fn remove_sheet_takes_it_out() {
    let mut grid = create_three_sheets();
    let id = grid.sheets[1].id;
    let removed = grid.remove_sheet(id).unwrap();
    assert_eq!(removed.name, "1");
    assert_eq!(grid.sheets.len(), 2);
    assert!(grid.remove_sheet(id).is_none());
    assert_eq!(grid.try_add_sheet(None).is_some(), true);
    assert_eq!(grid.end_order() > grid.sheets[2].order, true);
}

#[test]
fn new_ids_are_random_uuids() {
    let digit = |id: u128, place: u32| (id >> (4 * (31 - place))) & 0xf;
    for _ in 0..50 {
        let id = SheetId::new();
        assert_eq!(digit(id.id, 12), 4);
        assert!((8..=11).contains(&digit(id.id, 16)));
        let stored = quadratic_core::grid::file::v1_6::schema::Id::new();
        assert_eq!(stored.id.len(), 36);
        assert_eq!(stored.id.as_bytes()[14], b'4');
        assert!(b"89ab".contains(&stored.id.as_bytes()[19]));
        let read = SheetId::from_str(&stored.id).unwrap();
        assert_eq!(read.to_string(), stored.id);
        assert_eq!(digit(read.id, 12), 4);
    }
    assert_ne!(SheetId::new(), SheetId::new());
}

#[test]
fn a_new_controller_holds_a_new_grid() {
    let gc = quadratic_core::controller::GridController::new();
    let digit = |id: u128, place: u32| (id >> (4 * (31 - place))) & 0xf;
    assert_eq!(gc.grid().sheets().len(), 1);
    let sheet = &gc.grid().sheets()[0];
    assert_eq!(sheet.name, "Sheet 1");
    assert_eq!(sheet.order, "a0");
    assert_eq!(sheet.color, None);
    assert_eq!(digit(sheet.id.id, 12), 4);
    assert!(sheet.columns.is_empty());
    assert!(sheet.code_runs.is_empty());
    assert!(sheet.borders.is_empty());
    assert!(sheet.validations.validations().is_none());
    assert!(sheet.offsets.column_widths.is_empty() && sheet.offsets.row_heights.is_empty());
    assert!(!gc.has_undo() && !gc.has_redo());
    assert!(gc.unsaved_transactions.is_empty());
    assert!(gc.out_of_order_later_transactions.is_empty());
    assert_eq!(gc.last_sequence_num(), 0);
}

#[test]
fn a_sheet_is_changed_through_its_id() {
    let mut grid = Grid::new();
    let id = grid.sheets()[0].id;
    grid.sheet_mut_from_id(id).name = "Changed".to_string();
    assert_eq!(grid.sheet_from_id(id).name, "Changed");
    assert!(grid.is_wf());
}
