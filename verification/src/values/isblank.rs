//! Blankness of values.

use crate::values::array::{Array, Value};
use crate::values::CellValue;
use vstd::prelude::*;

verus! {

pub trait IsBlank: Sized {
    /// Whether the value is blank. The empty text is not blank.
    spec fn blank(&self) -> bool;

    /// Returns whether the value is blank. The empty text is considered
    /// non-blank.
    fn is_blank(&self) -> (b: bool)
        ensures
            b == self.blank(),
    ;

    /// The value itself unless it is blank.
    fn coerce_nonblank(self) -> (r: Option<Self>)
        ensures
            self.blank() ==> r is None,
            !self.blank() ==> r == Some(self),
    {
        if self.is_blank() {
            None
        } else {
            Some(self)
        }
    }
}

impl IsBlank for CellValue {
    open spec fn blank(&self) -> bool {
        *self == CellValue::Blank
    }

    fn is_blank(&self) -> (b: bool) {
        match self {
            CellValue::Blank => true,
            _ => false,
        }
    }
}

/// Every cell of the sequence is blank.
pub open spec fn all_blank(cells: Seq<CellValue>) -> bool {
    forall|i: int| 0 <= i < cells.len() ==> (#[trigger] cells[i]).blank()
}

impl IsBlank for Array {
    open spec fn blank(&self) -> bool {
        all_blank(self.cells())
    }

    fn is_blank(&self) -> (b: bool) {
        let n = self.cell_count();
        let mut i: usize = 0;
        while i < n
            invariant
                i <= n,
                n == self.cells().len(),
                forall|j: int| 0 <= j < i ==> (#[trigger] self.cells()[j]).blank(),
            decreases n - i,
        {
            if !self.cell_at(i).is_blank() {
                return false;
            }
            i += 1;
        }
        true
    }
}

impl IsBlank for Vec<Array> {
    open spec fn blank(&self) -> bool {
        forall|i: int| 0 <= i < self@.len() ==> (#[trigger] self@[i]).blank()
    }

    fn is_blank(&self) -> (b: bool) {
        let mut i: usize = 0;
        while i < self.len()
            invariant
                i <= self@.len(),
                forall|j: int| 0 <= j < i ==> (#[trigger] self@[j]).blank(),
            decreases self.len() - i,
        {
            if !self[i].is_blank() {
                return false;
            }
            i += 1;
        }
        true
    }
}

impl IsBlank for Value {
    open spec fn blank(&self) -> bool {
        match self {
            Value::Single(v) => v.blank(),
            Value::Array(a) => a.blank(),
            Value::Tuple(t) => t.blank(),
        }
    }

    fn is_blank(&self) -> (b: bool) {
        match self {
            Value::Single(v) => v.is_blank(),
            Value::Array(a) => a.is_blank(),
            Value::Tuple(t) => t.is_blank(),
        }
    }
}

} // verus!
