use quadratic_core::grid::sheet::validations::validation_rules::validation_list::{
    ValidationList, ValidationListSource,
};
use quadratic_core::grid::sheet::validations::validation_rules::validation_logical::ValidationLogical;
use quadratic_core::grid::sheet::validations::validation_rules::ValidationRule;

#[test]
fn is_list() {
    let list = ValidationList {
        source: ValidationListSource::List(vec!["test".to_string()]),
        ignore_blank: true,
        drop_down: false,
    };
    let rule = ValidationRule::List(list);
    assert!(rule.is_list());

    let checkbox = ValidationLogical {
        show_checkbox: true,
    };
    let rule = ValidationRule::Logical(checkbox);
    assert!(!rule.is_list());
}

#[test]
fn is_checkbox() {
    let checkbox = ValidationLogical {
        show_checkbox: true,
    };
    let rule = ValidationRule::Logical(checkbox);
    assert!(rule.is_checkbox());

    let list = ValidationList {
        source: ValidationListSource::List(vec!["test".to_string()]),
        ignore_blank: true,
        drop_down: false,
    };
    let rule = ValidationRule::List(list);
    assert!(!rule.is_checkbox());
}
