//! Data validation for individual cells. The rules are held by a sheet and
//! are used to validate the value of a cell.

pub mod validation_list;
pub mod validation_logical;

use crate::grid::sheet::validations::validation_rules::validation_list::ValidationList;
use crate::grid::sheet::validations::validation_rules::validation_logical::ValidationLogical;
use crate::grid::sheet::Sheet;
use crate::values::CellValue;
use vstd::prelude::*;

verus! {

#[derive(Debug, PartialEq, Eq)]
pub enum ValidationRule {
    /// No rule: every value is accepted.
    Any,
    List(ValidationList),
    Logical(ValidationLogical),
}

impl Default for ValidationRule {
    fn default() -> (r: Self)
        ensures
            r == ValidationRule::Any,
    {
        ValidationRule::Any
    }
}

impl Clone for ValidationRule {
    fn clone(&self) -> (r: Self)
        ensures
            r.alike(*self),
    {
        match self {
            ValidationRule::Any => ValidationRule::Any,
            ValidationRule::List(list) => ValidationRule::List(list.clone()),
            ValidationRule::Logical(logical) => ValidationRule::Logical(*logical),
        }
    }
}

impl ValidationRule {
    /// Both rules accept the same.
    pub open spec fn alike(self, other: ValidationRule) -> bool {
        match (self, other) {
            (ValidationRule::Any, ValidationRule::Any) => true,
            (ValidationRule::List(a), ValidationRule::List(b)) => a.alike(b),
            (ValidationRule::Logical(a), ValidationRule::Logical(b)) => a == b,
            _ => false,
        }
    }

    /// Whether the rule accepts `value` on `sheet`.
    pub open spec fn accepts(self, sheet: Sheet, value: CellValue) -> bool {
        match self {
            ValidationRule::Any => true,
            ValidationRule::List(list) => list.accepts(sheet, value),
            ValidationRule::Logical(_) => ValidationLogical::accepts(value),
        }
    }

    /// Validate a value against the validation rule.
    pub fn validate(&self, sheet: &Sheet, value: &CellValue) -> (b: bool)
        requires
            sheet.wf(),
        ensures
            b == self.accepts(*sheet, *value),
    {
        match &self {
            ValidationRule::Any => true,
            ValidationRule::List(list) => ValidationList::validate(sheet, list, value),
            ValidationRule::Logical(_) => ValidationLogical::validate(value),
        }
    }

    pub fn is_list(&self) -> (b: bool)
        ensures
            b == (*self is List),
    {
        matches!(self, ValidationRule::List(_))
    }

    pub fn is_checkbox(&self) -> (b: bool)
        ensures
            b == (*self is Logical),
    {
        matches!(self, ValidationRule::Logical(_))
    }

    /// Whether a blank cell is left alone: always, but for a list that does
    /// not ignore blanks.
    pub fn allow_blank(&self) -> (b: bool)
        ensures
            b == match *self {
                ValidationRule::Any => true,
                ValidationRule::List(list) => list.ignore_blank,
                ValidationRule::Logical(_) => true,
            },
    {
        match self {
            ValidationRule::Any => true,
            ValidationRule::List(list) => list.ignore_blank,
            ValidationRule::Logical(_) => true,
        }
    }
}

} // verus!
