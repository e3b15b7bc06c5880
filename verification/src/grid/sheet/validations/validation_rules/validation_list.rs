//! Validation against a list of accepted values.

use crate::grid::sheet::{in_reading_order, Sheet};
use crate::pos::Pos;
use crate::selection::Selection;
use crate::values::CellValue;
use vstd::prelude::*;

verus! {

/// Where the accepted values come from: the cells of a selection, or a list
/// of texts.
#[derive(Debug, PartialEq, Eq)]
pub enum ValidationListSource {
    Selection(Selection),
    List(Vec<String>),
}

#[derive(Debug, PartialEq, Eq)]
pub struct ValidationList {
    pub source: ValidationListSource,
    pub ignore_blank: bool,
    pub drop_down: bool,
}

/// The cell holds a value like `value`.
pub open spec fn holds_like(cell: Option<CellValue>, value: CellValue) -> bool {
    match cell {
        Some(v) => v.alike(value),
        None => false,
    }
}

/// Some selected cell of the sheet holds a value like `value`.
pub open spec fn selection_holds(sheet: Sheet, selection: Selection, value: CellValue) -> bool {
    exists|p: Pos| selection.spec_contains(p) && holds_like(#[trigger] sheet.cell(p), value)
}

/// Some text of the list is the text shown for `value`.
pub open spec fn list_holds(list: Seq<String>, value: CellValue) -> bool {
    exists|i: int| 0 <= i < list.len() && (#[trigger] list[i])@ == value.display_text()
}

/// The texts shown for the values, in order.
pub open spec fn shown_texts(values: Seq<(Pos, CellValue)>) -> Seq<Seq<char>> {
    values.map_values(|e: (Pos, CellValue)| e.1.display_text())
}

impl ValidationListSource {
    /// Both sources name the same values.
    pub open spec fn alike(self, other: ValidationListSource) -> bool {
        match (self, other) {
            (ValidationListSource::Selection(a), ValidationListSource::Selection(b)) => a.alike(b),
            (ValidationListSource::List(a), ValidationListSource::List(b)) => texts_of(a@)
                == texts_of(b@),
            _ => false,
        }
    }
}

impl Clone for ValidationListSource {
    fn clone(&self) -> (r: Self)
        ensures
            r.alike(*self),
    {
        match self {
            ValidationListSource::Selection(s) => ValidationListSource::Selection(s.clone()),
            ValidationListSource::List(texts) => {
                let mut out: Vec<String> = Vec::new();
                let mut i: usize = 0;
                while i < texts.len()
                    invariant
                        i <= texts@.len(),
                        out@.len() == i,
                        forall|j: int| 0 <= j < i ==> (#[trigger] out@[j])@ == texts@[j]@,
                    decreases texts.len() - i,
                {
                    out.push(texts[i].clone());
                    i += 1;
                }
                assert(texts_of(out@) =~= texts_of(texts@));
                ValidationListSource::List(out)
            },
        }
    }
}

impl Clone for ValidationList {
    fn clone(&self) -> (r: Self)
        ensures
            r.alike(*self),
    {
        ValidationList {
            source: self.source.clone(),
            ignore_blank: self.ignore_blank,
            drop_down: self.drop_down,
        }
    }
}

impl ValidationList {
    /// Both lists name the same values and are shown alike.
    pub open spec fn alike(self, other: ValidationList) -> bool {
        self.source.alike(other.source) && self.ignore_blank == other.ignore_blank
            && self.drop_down == other.drop_down
    }

    /// Whether the list accepts `value` on `sheet`.
    pub open spec fn accepts(self, sheet: Sheet, value: CellValue) -> bool {
        match self.source {
            ValidationListSource::Selection(selection) => selection_holds(sheet, selection, value),
            ValidationListSource::List(list) => list_holds(list@, value),
        }
    }

    /// Compares all values within a selection to the provided value.
    pub fn validate_selection(sheet: &Sheet, selection: &Selection, value: &CellValue) -> (b: bool)
        requires
            sheet.wf(),
        ensures
            b == selection_holds(*sheet, *selection, *value),
    {
        let values = sheet.selection(selection);
        let mut i: usize = 0;
        while i < values.len()
            invariant
                i <= values@.len(),
                forall|j: int| 0 <= j < i ==> !(#[trigger] values@[j]).1.alike(*value),
                forall|j: int|
                    0 <= j < values@.len() ==> selection.spec_contains((#[trigger] values@[j]).0)
                        && sheet.cell(values@[j].0) == Some(values@[j].1),
                forall|p: Pos|
                    selection.spec_contains(p) && (#[trigger] sheet.cell(p)) is Some ==> exists|
                        j: int,
                    | 0 <= j < values@.len() && (#[trigger] values@[j]).0 == p,
            decreases values.len() - i,
        {
            if values[i].1.same(value) {
                proof {
                    let p = values@[i as int].0;
                    assert(selection.spec_contains(p) && holds_like(sheet.cell(p), *value));
                }
                return true;
            }
            i += 1;
        }
        proof {
            if selection_holds(*sheet, *selection, *value) {
                let p = choose|p: Pos|
                    selection.spec_contains(p) && holds_like(#[trigger] sheet.cell(p), *value);
                let j = choose|j: int| 0 <= j < values@.len() && (#[trigger] values@[j]).0 == p;
                assert(values@[j].1.alike(*value));
            }
        }
        false
    }

    /// Validates a value against a list.
    pub fn validate(sheet: &Sheet, list: &ValidationList, value: &CellValue) -> (b: bool)
        requires
            sheet.wf(),
        ensures
            b == list.accepts(*sheet, *value),
    {
        match &list.source {
            ValidationListSource::Selection(selection) => {
                ValidationList::validate_selection(sheet, selection, value)
            },
            ValidationListSource::List(texts) => {
                let shown = value.to_display();
                let mut i: usize = 0;
                while i < texts.len()
                    invariant
                        i <= texts@.len(),
                        list.source == ValidationListSource::List(*texts),
                        shown@ == value.display_text(),
                        forall|j: int| 0 <= j < i ==> (#[trigger] texts@[j])@ != shown@,
                    decreases texts.len() - i,
                {
                    if texts[i] == shown {
                        assert(texts@[i as int]@ == value.display_text());
                        return true;
                    }
                    i += 1;
                }
                false
            },
        }
    }

    /// Gets the drop down list: nothing unless the list is shown as a drop
    /// down; else the accepted texts, those of the selected cells, column by
    /// column and row by row, or those of the list.
    pub fn to_drop_down(sheet: &Sheet, list: &ValidationList) -> (r: Option<Vec<String>>)
        requires
            sheet.wf(),
        ensures
            !list.drop_down ==> r is None,
            list.drop_down ==> r is Some,
            list.drop_down ==> match list.source {
                ValidationListSource::Selection(selection) => exists|values: Seq<(Pos, CellValue)>|
                    #[trigger] sheet.is_selection(selection, values) && in_reading_order(values)
                        && texts_of(r->0@) == shown_texts(values),
                ValidationListSource::List(texts) => texts_of(r->0@) == texts_of(texts@),
            },
    {
        if !list.drop_down {
            return None;
        }
        match &list.source {
            ValidationListSource::Selection(selection) => {
                let values = sheet.selection(selection);
                let mut out: Vec<String> = Vec::new();
                let mut i: usize = 0;
                while i < values.len()
                    invariant
                        i <= values@.len(),
                        out@.len() == i,
                        forall|j: int| 0 <= j < i ==> (#[trigger] out@[j])@ == values@[j].1.display_text(),
                    decreases values.len() - i,
                {
                    out.push(values[i].1.to_display());
                    i += 1;
                }
                assert(texts_of(out@) =~= shown_texts(values@));
                Some(out)
            },
            ValidationListSource::List(texts) => {
                let mut out: Vec<String> = Vec::new();
                let mut i: usize = 0;
                while i < texts.len()
                    invariant
                        i <= texts@.len(),
                        out@.len() == i,
                        forall|j: int| 0 <= j < i ==> (#[trigger] out@[j])@ == texts@[j]@,
                    decreases texts.len() - i,
                {
                    out.push(texts[i].clone());
                    i += 1;
                }
                assert(texts_of(out@) =~= texts_of(texts@));
                Some(out)
            },
        }
    }
}

/// The texts, as sequences of characters.
pub open spec fn texts_of(list: Seq<String>) -> Seq<Seq<char>> {
    list.map_values(|s: String| s@)
}

} // verus!
