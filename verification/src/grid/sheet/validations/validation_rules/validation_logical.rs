//! Validation of cells that hold true or false.

use crate::values::CellValue;
use vstd::prelude::*;

verus! {

#[derive(Clone, Copy, Debug, Default, PartialEq, Eq, Hash, Structural)]
pub struct ValidationLogical {
    pub show_checkbox: bool,
}

impl ValidationLogical {
    /// Only logical values are accepted.
    pub open spec fn accepts(value: CellValue) -> bool {
        value is Logical
    }

    /// Validates a value: it must be true or false.
    pub fn validate(value: &CellValue) -> (b: bool)
        ensures
            b == ValidationLogical::accepts(*value),
    {
        matches!(value, CellValue::Logical(_))
    }
}

} // verus!
