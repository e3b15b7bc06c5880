use quadratic_core::controller::GridController;
use quadratic_core::grid::ids::SheetId;
use quadratic_core::grid::sheet::validations::validation::Validation;
use quadratic_core::grid::sheet::validations::validation_rules::validation_list::{
    ValidationList, ValidationListSource,
};
use quadratic_core::grid::sheet::validations::validation_rules::validation_logical::ValidationLogical;
use quadratic_core::grid::sheet::validations::validation_rules::ValidationRule;
use quadratic_core::grid::sheet::Sheet;
use quadratic_core::pos::Pos;
use quadratic_core::selection::Selection;
use quadratic_core::values::CellValue;

fn sheet() -> Sheet {
    Sheet::new(SheetId::new(), "Sheet 1".to_string(), "a0".to_string())
}

#[test]
fn validations() {
    let gc = GridController::new();
    let sheet_id = gc.sheet_ids()[0];
    assert!(gc.validations(sheet_id).is_none());

    // missing sheet_id should also return None
    assert!(gc.validations(SheetId::new()).is_none());
}

#[test]
fn update_validation() {
    let mut gc = GridController::new();
    let sheet_id = gc.sheet_ids()[0];

    let selection = Selection::all(sheet_id);
    let validation = Validation {
        id: 77,
        selection: selection.clone(),
        rule: ValidationRule::Logical(ValidationLogical {
            show_checkbox: true,
        }),
        message: Default::default(),
        error: Default::default(),
    };
    gc.update_validation(validation.clone(), None).unwrap();

    assert_eq!(gc.validations(sheet_id).unwrap().len(), 1);
    assert_eq!(gc.validation_selection(selection), Some(&validation));
    assert_eq!(gc.validation(sheet_id, 77), Some(&validation));
    assert_eq!(gc.validation(sheet_id, 78), None);

    gc.remove_validation(sheet_id, 77, None).unwrap();
    assert!(gc.validations(sheet_id).is_none());
    assert!(gc.undo(None).unwrap());
    assert_eq!(gc.validation(sheet_id, 77), Some(&validation));
    assert!(gc.update_validation(
        Validation {
            id: 1,
            selection: Selection::all(SheetId::new()),
            rule: ValidationRule::Any,
            message: Default::default(),
            error: Default::default(),
        },
        None
    )
    .is_err());
}

#[test]
fn mod_validate_list_strings() {
    let sheet = sheet();
    let list = ValidationList {
        source: ValidationListSource::List(vec!["test".to_string()]),
        ignore_blank: true,
        drop_down: false,
    };

    assert!(ValidationRule::List(list.clone())
        .validate(&sheet, &CellValue::Text("test".to_string())));
    assert!(!ValidationRule::List(list).validate(&sheet, &CellValue::Text("test2".to_string())));
}

#[test]
fn mod_validate_list_selection() {
    let mut sheet = sheet();
    sheet.set_cell_value(Pos { x: 0, y: 0 }, CellValue::Text("test".to_string()));
    let selection = Selection::pos(0, 0, sheet.id);

    let list = ValidationList {
        source: ValidationListSource::Selection(selection),
        ignore_blank: true,
        drop_down: false,
    };
    let rule = ValidationRule::List(list);

    assert!(rule.validate(&sheet, &CellValue::Text("test".to_string())));
    assert!(!rule.validate(&sheet, &CellValue::Text("test2".to_string())));
}

#[test]
fn validation_none() {
    let sheet = sheet();
    let rule = ValidationRule::Any;
    assert!(rule.validate(&sheet, &CellValue::Text("test".to_string())));
    assert!(rule.allow_blank());
}

#[test]
fn validation_list_validate_list_strings() {
    let sheet = sheet();
    let list = ValidationList {
        source: ValidationListSource::List(vec!["test".to_string()]),
        ignore_blank: true,
        drop_down: true,
    };

    assert!(ValidationList::validate(
        &sheet,
        &list,
        &CellValue::Text("test".to_string())
    ));
    assert!(!ValidationList::validate(
        &sheet,
        &list,
        &CellValue::Text("test2".to_string())
    ));
}

#[test]
fn validation_list_validate_list_selection() {
    let mut sheet = sheet();
    sheet.set_cell_value(Pos { x: 0, y: 0 }, CellValue::Text("test".to_string()));
    let selection = Selection::pos(0, 0, sheet.id);

    assert!(ValidationList::validate_selection(
        &sheet,
        &selection,
        &CellValue::Text("test".to_string())
    ));

    assert!(!ValidationList::validate_selection(
        &sheet,
        &selection,
        &CellValue::Text("test2".to_string())
    ));
}

#[test]
fn to_drop_down_strings() {
    let sheet = sheet();
    let list = ValidationList {
        source: ValidationListSource::List(vec!["test".to_string()]),
        ignore_blank: true,
        drop_down: true,
    };

    assert_eq!(
        ValidationList::to_drop_down(&sheet, &list),
        Some(vec!["test".to_string()])
    );

    let list = ValidationList {
        source: ValidationListSource::List(vec!["test".to_string(), "test2".to_string()]),
        ignore_blank: true,
        drop_down: false,
    };
    assert_eq!(ValidationList::to_drop_down(&sheet, &list), None)
}

#[test]
fn logical_rule_accepts_true_and_false_only() {
    let sheet = sheet();
    let rule = ValidationRule::Logical(ValidationLogical {
        show_checkbox: true,
    });
    assert!(rule.validate(&sheet, &CellValue::Logical(false)));
    assert!(!rule.validate(&sheet, &CellValue::Text("true".to_string())));
    assert!(rule.allow_blank());
    let list = ValidationRule::List(ValidationList {
        source: ValidationListSource::List(vec![]),
        ignore_blank: false,
        drop_down: false,
    });
    assert!(!list.allow_blank());
}
