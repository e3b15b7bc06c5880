//! What a user has selected on a sheet.

use crate::grid::ids::SheetId;
use crate::pos::Pos;
use crate::rect::Rect;
use vstd::prelude::*;

verus! {

/// A selection on one sheet: everything, or whole rows, whole columns and
/// rectangles, with the cursor at `(x, y)`.
#[derive(Debug, PartialEq, Eq)]
pub struct Selection {
    pub sheet_id: SheetId,
    pub x: i64,
    pub y: i64,
    pub rects: Option<Vec<Rect>>,
    pub rows: Option<Vec<i64>>,
    pub columns: Option<Vec<i64>>,
    pub all: bool,
}

/// The items of an optional list; none where there is no list.
pub open spec fn items<T>(list: Option<Vec<T>>) -> Seq<T> {
    match list {
        Some(v) => v@,
        None => Seq::empty(),
    }
}

fn clone_list<T: Copy>(list: &Option<Vec<T>>) -> (r: Option<Vec<T>>)
    ensures
        r is Some == list is Some,
        items(r) == items(*list),
{
    match list {
        Some(v) => {
            let mut out: Vec<T> = Vec::new();
            let mut i: usize = 0;
            while i < v.len()
                invariant
                    i <= v@.len(),
                    out@ == v@.take(i as int),
                decreases v.len() - i,
            {
                out.push(v[i]);
                i += 1;
                assert(v@.take(i as int) == v@.take(i - 1).push(v@[i - 1]));
            }
            assert(v@.take(v@.len() as int) == v@);
            Some(out)
        },
        None => None,
    }
}

fn same_rects(a: &Option<Vec<Rect>>, b: &Option<Vec<Rect>>) -> (r: bool)
    ensures
        r == (a is Some == b is Some && items(*a) == items(*b)),
{
    match (a, b) {
        (Some(x), Some(y)) => {
            if x.len() != y.len() {
                return false;
            }
            let mut i: usize = 0;
            while i < x.len()
                invariant
                    i <= x@.len(),
                    x@.len() == y@.len(),
                    items(*a) == x@,
                    items(*b) == y@,
                    forall|j: int| 0 <= j < i ==> x@[j] == y@[j],
                decreases x.len() - i,
            {
                if x[i] != y[i] {
                    assert(items(*a)[i as int] != items(*b)[i as int]);
                    return false;
                }
                i += 1;
            }
            assert(x@ =~= y@);
            true
        },
        (None, None) => true,
        _ => false,
    }
}

fn same_numbers(a: &Option<Vec<i64>>, b: &Option<Vec<i64>>) -> (r: bool)
    ensures
        r == (a is Some == b is Some && items(*a) == items(*b)),
{
    match (a, b) {
        (Some(x), Some(y)) => {
            if x.len() != y.len() {
                return false;
            }
            let mut i: usize = 0;
            while i < x.len()
                invariant
                    i <= x@.len(),
                    x@.len() == y@.len(),
                    items(*a) == x@,
                    items(*b) == y@,
                    forall|j: int| 0 <= j < i ==> x@[j] == y@[j],
                decreases x.len() - i,
            {
                if x[i] != y[i] {
                    assert(items(*a)[i as int] != items(*b)[i as int]);
                    return false;
                }
                i += 1;
            }
            assert(x@ =~= y@);
            true
        },
        (None, None) => true,
        _ => false,
    }
}

impl Clone for Selection {
    fn clone(&self) -> (r: Self)
        ensures
            r.alike(*self),
    {
        Selection {
            sheet_id: self.sheet_id,
            x: self.x,
            y: self.y,
            rects: clone_list(&self.rects),
            rows: clone_list(&self.rows),
            columns: clone_list(&self.columns),
            all: self.all,
        }
    }
}

impl Selection {
    /// Both selections select the same, in the same way.
    pub open spec fn alike(self, other: Selection) -> bool {
        &&& self.sheet_id == other.sheet_id
        &&& self.x == other.x
        &&& self.y == other.y
        &&& self.all == other.all
        &&& self.rects is Some == other.rects is Some
        &&& items(self.rects) == items(other.rects)
        &&& self.rows is Some == other.rows is Some
        &&& items(self.rows) == items(other.rows)
        &&& self.columns is Some == other.columns is Some
        &&& items(self.columns) == items(other.columns)
    }

    /// Whether the cell at `pos` is selected: everything is, or its row or
    /// column is, or it lies in one of the rectangles.
    pub open spec fn spec_contains(self, pos: Pos) -> bool {
        ||| self.all
        ||| items(self.rows).contains(pos.y)
        ||| items(self.columns).contains(pos.x)
        ||| exists|i: int|
            0 <= i < items(self.rects).len() && (#[trigger] items(self.rects)[i]).spec_contains(pos)
    }

    /// Everything on the sheet.
    pub fn all(sheet_id: SheetId) -> (r: Selection)
        ensures
            r.sheet_id == sheet_id,
            r.all,
            r.x == 0 && r.y == 0,
            r.rects is None && r.rows is None && r.columns is None,
    {
        Selection { sheet_id, x: 0, y: 0, rects: None, rows: None, columns: None, all: true }
    }

    /// The single cell at `(x, y)`.
    pub fn pos(x: i64, y: i64, sheet_id: SheetId) -> (r: Selection)
        ensures
            r.sheet_id == sheet_id,
            !r.all,
            r.x == x && r.y == y,
            r.rows is None && r.columns is None,
            r.rects is Some && items(r.rects) == seq![Rect { min: Pos { x, y }, max: Pos { x, y } }],
            forall|p: Pos| r.spec_contains(p) == (p == Pos { x, y }),
    {
        let mut rects: Vec<Rect> = Vec::new();
        rects.push(Rect::single_pos(Pos { x, y }));
        let r = Selection {
            sheet_id,
            x,
            y,
            rects: Some(rects),
            rows: None,
            columns: None,
            all: false,
        };
        proof {
            assert forall|p: Pos| r.spec_contains(p) == (p == Pos { x, y }) by {
                if p == (Pos { x, y }) {
                    assert(items(r.rects)[0].spec_contains(p));
                }
            }
        }
        r
    }

    /// The cells of one rectangle.
    pub fn rect(rect: Rect, sheet_id: SheetId) -> (r: Selection)
        ensures
            r.sheet_id == sheet_id,
            !r.all,
            r.x == rect.min.x && r.y == rect.min.y,
            r.rows is None && r.columns is None,
            r.rects is Some && items(r.rects) == seq![rect],
    {
        let mut rects: Vec<Rect> = Vec::new();
        rects.push(rect);
        Selection {
            sheet_id,
            x: rect.min.x,
            y: rect.min.y,
            rects: Some(rects),
            rows: None,
            columns: None,
            all: false,
        }
    }

    /// Whether both selections select the same, in the same way.
    pub fn same(&self, other: &Selection) -> (b: bool)
        ensures
            b == self.alike(*other),
    {
        self.sheet_id == other.sheet_id && self.x == other.x && self.y == other.y && self.all
            == other.all && same_rects(&self.rects, &other.rects) && same_numbers(
            &self.rows,
            &other.rows,
        ) && same_numbers(&self.columns, &other.columns)
    }

    /// Whether the cell at `pos` is selected.
    pub fn contains_pos(&self, pos: Pos) -> (b: bool)
        ensures
            b == self.spec_contains(pos),
    {
        if self.all {
            return true;
        }
        if let Some(rows) = &self.rows {
            assert(items(self.rows) == rows@);
            let mut i: usize = 0;
            while i < rows.len()
                invariant
                    i <= rows@.len(),
                    items(self.rows) == rows@,
                    forall|j: int| 0 <= j < i ==> rows@[j] != pos.y,
                decreases rows.len() - i,
            {
                if rows[i] == pos.y {
                    assert(rows@.contains(pos.y));
                    return true;
                }
                i += 1;
            }
        }
        if let Some(columns) = &self.columns {
            assert(items(self.columns) == columns@);
            let mut i: usize = 0;
            while i < columns.len()
                invariant
                    i <= columns@.len(),
                    items(self.columns) == columns@,
                    forall|j: int| 0 <= j < i ==> columns@[j] != pos.x,
                decreases columns.len() - i,
            {
                if columns[i] == pos.x {
                    assert(columns@.contains(pos.x));
                    return true;
                }
                i += 1;
            }
        }
        if let Some(rects) = &self.rects {
            assert(items(self.rects) == rects@);
            let mut i: usize = 0;
            while i < rects.len()
                invariant
                    i <= rects@.len(),
                    items(self.rects) == rects@,
                    forall|j: int| 0 <= j < i ==> !(#[trigger] rects@[j]).spec_contains(pos),
                decreases rects.len() - i,
            {
                if rects[i].contains(pos) {
                    assert(items(self.rects)[i as int].spec_contains(pos));
                    return true;
                }
                i += 1;
            }
        }
        false
    }
}

} // verus!
