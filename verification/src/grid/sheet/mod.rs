//! One sheet: its columns, code runs and bounds.

pub mod code;
pub mod validations;

use crate::grid::borders::CellBorders;
use crate::grid::bounds::GridBounds;
use crate::grid::offsets::SheetOffsets;
use crate::grid::code::CodeRun;
use crate::grid::column::{is_span_of, Column};
use crate::grid::formatting::{CellFormat, FormatModel};
use crate::grid::ids::SheetId;
use crate::grid::sheet::validations::Validations;
use crate::selection::Selection;
use crate::grid::column::keys_between;
use crate::pos::Pos;
use crate::rect::Rect;
use crate::values::CellValue;
use std::collections::BTreeMap;
use vstd::prelude::*;
use vstd::std_specs::iter::IteratorSpec;

verus! {

broadcast use {vstd::std_specs::btree::group_btree_axioms, vstd::laws_cmp::group_laws_cmp};

/// A sheet of the grid. Columns come into being on the first write to them;
/// reading never creates one.
#[derive(Debug, PartialEq, Eq)]
pub struct Sheet {
    pub id: SheetId,
    pub name: String,
    pub color: Option<String>,
    /// The key that places the sheet among the others.
    pub order: String,
    pub columns: BTreeMap<i64, Column>,
    /// The code runs by the position of their code cell; no position twice.
    pub code_runs: Vec<(Pos, CodeRun)>,
    pub validations: Validations,
    pub offsets: SheetOffsets,
    pub borders: Vec<CellBorders>,
    /// The bounds of the cells that hold a value, as last recalculated.
    pub data_bounds: GridBounds,
    /// The bounds of the cells that hold a value or formatting, as last
    /// recalculated.
    pub format_bounds: GridBounds,
}

/// `x` is among the first `n` of the numbers.
pub open spec fn is_among(numbers: Seq<i64>, n: int, x: i64) -> bool {
    exists|a: int| 0 <= a < n && numbers[a] == x
}

/// `a` comes before `b` where cells are read column by column and, within
/// a column, row by row.
pub open spec fn pos_before(a: Pos, b: Pos) -> bool {
    a.x < b.x || (a.x == b.x && a.y < b.y)
}

/// The cells come column by column and, within a column, row by row, none
/// of them twice.
pub open spec fn in_reading_order(values: Seq<(Pos, CellValue)>) -> bool {
    forall|a: int, b: int|
        0 <= a < b < values.len() ==> pos_before((#[trigger] values[a]).0, (#[trigger] values[b]).0)
}

/// Both are absent, or both are there and alike.
pub open spec fn runs_alike(a: Option<CodeRun>, b: Option<CodeRun>) -> bool {
    match (a, b) {
        (Some(x), Some(y)) => x.alike(y),
        (None, None) => true,
        _ => false,
    }
}

/// `bounds` is the bounding rectangle of the cells that satisfy `cells`:
/// empty where there is none, else the rectangle that holds them all and has
/// one of them on each of its four sides.
pub open spec fn is_bounds_of(bounds: GridBounds, cells: spec_fn(Pos) -> bool) -> bool {
    match bounds {
        GridBounds::Empty => forall|p: Pos| !#[trigger] cells(p),
        GridBounds::NonEmpty(r) => {
            &&& r.wf()
            &&& forall|p: Pos| #[trigger] cells(p) ==> r.spec_contains(p)
            &&& exists|p: Pos| #[trigger] cells(p) && p.x == r.min.x
            &&& exists|p: Pos| #[trigger] cells(p) && p.x == r.max.x
            &&& exists|p: Pos| #[trigger] cells(p) && p.y == r.min.y
            &&& exists|p: Pos| #[trigger] cells(p) && p.y == r.max.y
        },
    }
}

/// Adding the first and last cell of a column's rows to bounds of other
/// cells gives the bounds of both together.
pub proof fn lemma_bounds_add_column(
    bounds: GridBounds,
    before: spec_fn(Pos) -> bool,
    after: spec_fn(Pos) -> bool,
    x: i64,
    span: Option<(i64, i64)>,
    rows: spec_fn(int) -> bool,
)
    requires
        is_bounds_of(bounds, before),
        is_span_of(span, rows),
        forall|p: Pos| #[trigger] after(p) == (before(p) || (p.x == x && rows(p.y as int))),
    ensures
        span is None ==> is_bounds_of(bounds, after),
        span matches Some((lo, hi)) ==> is_bounds_of(
            bounds.spec_add(Pos { x, y: lo }).spec_add(Pos { x, y: hi }),
            after,
        ),
{
    match span {
        None => {
            assert forall|p: Pos| #[trigger] after(p) == before(p) by {
                assert(!rows(p.y as int));
            }
            match bounds {
                GridBounds::Empty => {},
                GridBounds::NonEmpty(r) => {
                    let p1 = choose|p: Pos| #[trigger] before(p) && p.x == r.min.x;
                    assert(after(p1));
                    let p2 = choose|p: Pos| #[trigger] before(p) && p.x == r.max.x;
                    assert(after(p2));
                    let p3 = choose|p: Pos| #[trigger] before(p) && p.y == r.min.y;
                    assert(after(p3));
                    let p4 = choose|p: Pos| #[trigger] before(p) && p.y == r.max.y;
                    assert(after(p4));
                },
            }
        },
        Some((lo, hi)) => {
            let first = Pos { x, y: lo };
            let last = Pos { x, y: hi };
            assert(rows(lo as int) && rows(hi as int));
            assert(after(first));
            assert(after(last));
            let result = bounds.spec_add(first).spec_add(last);
            let r = result->NonEmpty_0;
            match bounds {
                GridBounds::Empty => {
                    assert forall|p: Pos| #[trigger] after(p) implies r.spec_contains(p) by {
                        assert(!before(p));
                        assert(rows(p.y as int));
                    }
                },
                GridBounds::NonEmpty(r0) => {
                    let p1 = choose|p: Pos| #[trigger] before(p) && p.x == r0.min.x;
                    assert(after(p1));
                    let p2 = choose|p: Pos| #[trigger] before(p) && p.x == r0.max.x;
                    assert(after(p2));
                    let p3 = choose|p: Pos| #[trigger] before(p) && p.y == r0.min.y;
                    assert(after(p3));
                    let p4 = choose|p: Pos| #[trigger] before(p) && p.y == r0.max.y;
                    assert(after(p4));
                    assert forall|p: Pos| #[trigger] after(p) implies r.spec_contains(p) by {
                        if before(p) {
                            assert(r0.spec_contains(p));
                        } else {
                            assert(rows(p.y as int));
                        }
                    }
                    assert(exists|p: Pos| #[trigger] after(p) && p.x == r.min.x) by {
                        if r.min.x == x {
                            assert(after(first) && first.x == r.min.x);
                        } else {
                            assert(after(p1) && p1.x == r.min.x);
                        }
                    }
                    assert(exists|p: Pos| #[trigger] after(p) && p.x == r.max.x) by {
                        if r.max.x == x {
                            assert(after(first) && first.x == r.max.x);
                        } else {
                            assert(after(p2) && p2.x == r.max.x);
                        }
                    }
                    assert(exists|p: Pos| #[trigger] after(p) && p.y == r.min.y) by {
                        if r.min.y == lo {
                            assert(after(first) && first.y == r.min.y);
                        } else {
                            assert(after(p3) && p3.y == r.min.y);
                        }
                    }
                    assert(exists|p: Pos| #[trigger] after(p) && p.y == r.max.y) by {
                        if r.max.y == hi {
                            assert(after(last) && last.y == r.max.y);
                        } else {
                            assert(after(p4) && p4.y == r.max.y);
                        }
                    }
                },
            }
        },
    }
}

impl Sheet {
    /// Every column is well formed and stored under its own coordinate, no
    /// two code runs share a position, every code run is well formed, no two
    /// validations share an id, and every validation is for cells of this
    /// sheet.
    pub open spec fn wf(self) -> bool {
        &&& forall|x: i64| #[trigger]
            self.columns@.contains_key(x) ==> self.columns@[x].wf() && self.columns@[x].x == x
        &&& forall|i: int, j: int|
            0 <= i < j < self.code_runs@.len() ==> (#[trigger] self.code_runs@[i]).0
                != (#[trigger] self.code_runs@[j]).0
        &&& forall|i: int| 0 <= i < self.code_runs@.len() ==> (#[trigger] self.code_runs@[i]).1.wf()
        &&& self.validations.wf()
        &&& forall|i: int|
            0 <= i < self.validations.validations@.len() ==> (
            #[trigger] self.validations.validations@[i]).selection.sheet_id == self.id
    }

    /// Whether the sheet is well formed: every column is, and sits under
    /// its own coordinate; no two code runs are for one position, and each is
    /// well formed; no two validations share an id, and each is for cells of
    /// this sheet.
    pub fn is_wf(&self) -> (b: bool)
        ensures
            b == self.wf(),
    {
        let xs = keys_between(&self.columns, i64::MIN, i64::MAX);
        let mut i: usize = 0;
        while i < xs.len()
            invariant
                i <= xs@.len(),
                forall|k: i64| #[trigger] xs@.contains(k) <==> self.columns@.contains_key(k),
                forall|j: int|
                    0 <= j < i ==> self.columns@[#[trigger] xs@[j]].wf() && self.columns@[xs@[j]].x
                        == xs@[j],
            decreases xs.len() - i,
        {
            let x = xs[i];
            assert(xs@.contains(x));
            match self.columns.get(&x) {
                Some(column) => {
                    if !column.is_wf() || column.x != x {
                        return false;
                    }
                },
                None => {},
            }
            i += 1;
        }
        proof {
            assert forall|x: i64| #[trigger] self.columns@.contains_key(x) implies self.columns@[x].wf()
                && self.columns@[x].x == x by {
                assert(xs@.contains(x));
                let j = choose|j: int| 0 <= j < xs@.len() && xs@[j] == x;
                assert(self.columns@[xs@[j]].wf());
            }
        }
        let n = self.code_runs.len();
        let mut j: usize = 0;
        while j < n
            invariant
                j <= n,
                n == self.code_runs@.len(),
                forall|a: int, b: int|
                    0 <= a < b < j ==> (#[trigger] self.code_runs@[a]).0 != (
                    #[trigger] self.code_runs@[b]).0,
                forall|a: int| 0 <= a < j ==> (#[trigger] self.code_runs@[a]).1.wf(),
            decreases n - j,
        {
            if !self.code_runs[j].1.is_wf() {
                return false;
            }
            let mut k: usize = 0;
            while k < j
                invariant
                    k <= j < n,
                    n == self.code_runs@.len(),
                    forall|a: int|
                        0 <= a < k ==> (#[trigger] self.code_runs@[a]).0 != self.code_runs@[j as int].0,
                decreases j - k,
            {
                if self.code_runs[k].0 == self.code_runs[j].0 {
                    return false;
                }
                k += 1;
            }
            j += 1;
        }
        if !self.validations.is_wf() {
            return false;
        }
        let m = self.validations.validations.len();
        let mut v: usize = 0;
        while v < m
            invariant
                v <= m,
                m == self.validations.validations@.len(),
                forall|a: int|
                    0 <= a < v ==> (#[trigger] self.validations.validations@[a]).selection.sheet_id
                        == self.id,
            decreases m - v,
        {
            if self.validations.validations[v].selection.sheet_id != self.id {
                return false;
            }
            v += 1;
        }
        true
    }

    /// The value that the cell at `pos` holds, if any. Blank cells hold none.
    pub open spec fn cell(self, pos: Pos) -> Option<CellValue> {
        if self.columns@.contains_key(pos.x) {
            self.columns@[pos.x].value_at(pos.y)
        } else {
            None
        }
    }

    /// The formatting of the cell at `pos`.
    pub open spec fn format_model(self, pos: Pos) -> FormatModel {
        if self.columns@.contains_key(pos.x) {
            self.columns@[pos.x].format_model(pos.y as int)
        } else {
            FormatModel::none()
        }
    }

    /// Whether the cell at `pos` carries any formatting.
    pub open spec fn formatted(self, pos: Pos) -> bool {
        self.columns@.contains_key(pos.x) && self.columns@[pos.x].formatted(pos.y as int)
    }

    /// The data bounds are those of the cells that hold a value, and the
    /// format bounds those of the cells that hold a value or formatting.
    pub open spec fn bounds_current(self) -> bool {
        &&& is_bounds_of(self.data_bounds, |p: Pos| self.cell(p) is Some)
        &&& is_bounds_of(self.format_bounds, |p: Pos| self.cell(p) is Some || self.formatted(p))
    }

    /// An empty sheet.
    pub fn new(id: SheetId, name: String, order: String) -> (sheet: Sheet)
        ensures
            sheet.wf(),
            sheet.id == id,
            sheet.name == name,
            sheet.order == order,
            sheet.color is None,
            sheet.columns@ == Map::<i64, Column>::empty(),
            sheet.code_runs@ == Seq::<(Pos, CodeRun)>::empty(),
            sheet.validations.validations@.len() == 0,
            sheet.offsets.column_widths@ == Map::<i64, u64>::empty(),
            sheet.offsets.row_heights@ == Map::<i64, u64>::empty(),
            sheet.borders@.len() == 0,
            sheet.data_bounds == GridBounds::Empty,
            sheet.format_bounds == GridBounds::Empty,
            sheet.bounds_current(),
    {
        Sheet {
            id,
            name,
            color: None,
            order,
            columns: BTreeMap::new(),
            code_runs: Vec::new(),
            validations: Validations::new(),
            offsets: SheetOffsets::new(),
            borders: Vec::new(),
            data_bounds: GridBounds::Empty,
            format_bounds: GridBounds::Empty,
        }
    }

    /// The column at `x`, where one has been written to.
    pub fn get_column(&self, x: i64) -> (r: Option<&Column>)
        ensures
            self.columns@.contains_key(x) ==> r == Some(&self.columns@[x]),
            !self.columns@.contains_key(x) ==> r is None,
    {
        self.columns.get(&x)
    }

    /// The value that the cell at `pos` holds, if any. A cell in a column
    /// that was never written to holds none.
    pub fn get_cell_value(&self, pos: Pos) -> (r: Option<CellValue>)
        ensures
            r == self.cell(pos),
    {
        match self.columns.get(&pos.x) {
            Some(column) => match column.get(pos.y) {
                Some(v) => Some(v.clone()),
                None => None,
            },
            None => None,
        }
    }

    /// Stores `value` at `pos` and returns what the cell held before. A blank
    /// value clears the cell; it does not create the column where there is
    /// none yet. The bounds are left as they are.
    pub fn set_cell_value(&mut self, pos: Pos, value: CellValue) -> (previous: Option<CellValue>)
        requires
            old(self).wf(),
        ensures
            final(self).wf(),
            previous == old(self).cell(pos),
            final(self).cell(pos) == if value == CellValue::Blank {
                None
            } else {
                Some(value)
            },
            forall|p: Pos| p != pos ==> #[trigger] final(self).cell(p) == old(self).cell(p),
            forall|p: Pos| #[trigger] final(self).format_model(p) == old(self).format_model(p),
            forall|p: Pos| #[trigger] final(self).formatted(p) == old(self).formatted(p),
            final(self).same_frame(*old(self)),
            value == CellValue::Blank && !old(self).columns@.contains_key(pos.x) ==> final(self).columns@ == old(self).columns@,
            final(self).columns@.dom() == if value == CellValue::Blank {
                old(self).columns@.dom()
            } else {
                old(self).columns@.dom().insert(pos.x)
            },
    {
        let is_blank = match value {
            CellValue::Blank => true,
            _ => false,
        };
        if is_blank && !self.columns.contains_key(&pos.x) {
            return None;
        }
        let mut column = match self.columns.remove(&pos.x) {
            Some(c) => c,
            None => Column::new(pos.x),
        };
        let previous = column.set(pos.y, value);
        self.columns.insert(pos.x, column);
        proof {
            if is_blank {
                assert(final(self).columns@.dom() =~= old(self).columns@.dom());
            } else {
                assert(final(self).columns@.dom() =~= old(self).columns@.dom().insert(pos.x));
            }
        }
        previous
    }

    /// Both sheets show the same: the same names, keys and colors, the same
    /// value and formatting in every cell, the same code run at every
    /// position, the same sizes and borders, and the same validation under
    /// every id. The stored bounds do not count, nor does the order in which
    /// code runs and validations are kept.
    pub open spec fn same_content(self, other: Sheet) -> bool {
        &&& self.id == other.id
        &&& self.name@ == other.name@
        &&& crate::grid::formatting::opt_text(self.color) == crate::grid::formatting::opt_text(
            other.color,
        )
        &&& self.order@ == other.order@
        &&& forall|p: Pos| #[trigger] self.cell(p) == other.cell(p)
        &&& forall|p: Pos| #[trigger] self.format_model(p) == other.format_model(p)
        &&& forall|p: Pos|
            runs_alike(#[trigger] self.code_run_at(p), other.code_run_at(p))
        &&& self.offsets.column_widths@ =~= other.offsets.column_widths@
        &&& self.offsets.row_heights@ =~= other.offsets.row_heights@
        &&& self.borders@ == other.borders@
        &&& forall|id: u128|
            crate::grid::sheet::validations::validations_alike(
                #[trigger] self.validations.by_id(id),
                other.validations.by_id(id),
            )
    }

    /// Every number in a cell or an output prints as itself.
    pub open spec fn numbers_storable(self) -> bool {
        &&& forall|x: i64| #[trigger]
            self.columns@.contains_key(x) ==> crate::grid::file::current::cells_wf(
                self.columns@[x].values@,
            )
        &&& crate::grid::file::current::runs_storable(self.code_runs@)
    }

    /// The sheet can be written to a file and read back as it is: every
    /// number in a cell or an output prints as itself, and there are no
    /// validations, which files do not hold.
    pub open spec fn storable(self) -> bool {
        self.numbers_storable() && self.validations.validations@.len() == 0
    }

    /// Whether every number in a cell or an output prints as itself.
    pub fn is_numbers_storable(&self) -> (b: bool)
        requires
            self.wf(),
        ensures
            b == self.numbers_storable(),
    {
        let xs = keys_between(&self.columns, i64::MIN, i64::MAX);
        let mut i: usize = 0;
        while i < xs.len()
            invariant
                i <= xs@.len(),
                self.wf(),
                forall|k: i64| #[trigger] xs@.contains(k) <==> self.columns@.contains_key(k),
                forall|j: int|
                    0 <= j < i ==> crate::grid::file::current::cells_wf(
                        self.columns@[#[trigger] xs@[j]].values@,
                    ),
            decreases xs.len() - i,
        {
            let x = xs[i];
            assert(xs@.contains(x));
            match self.columns.get(&x) {
                Some(column) => {
                    if !column.is_values_storable() {
                        return false;
                    }
                },
                None => {},
            }
            i += 1;
        }
        proof {
            assert forall|x: i64| #[trigger]
                self.columns@.contains_key(x) implies crate::grid::file::current::cells_wf(
                self.columns@[x].values@,
            ) by {
                assert(xs@.contains(x));
                let j = choose|j: int| 0 <= j < xs@.len() && xs@[j] == x;
                assert(crate::grid::file::current::cells_wf(self.columns@[xs@[j]].values@));
            }
        }
        let mut k: usize = 0;
        while k < self.code_runs.len()
            invariant
                k <= self.code_runs@.len(),
                self.wf(),
                forall|x: i64| #[trigger]
                    self.columns@.contains_key(x) ==> crate::grid::file::current::cells_wf(
                        self.columns@[x].values@,
                    ),
                forall|j: int|
                    0 <= j < k ==> crate::grid::file::current::result_storable(
                        (#[trigger] self.code_runs@[j]).1.result,
                    ),
            decreases self.code_runs.len() - k,
        {
            if !self.code_runs[k].1.is_result_storable() {
                return false;
            }
            k += 1;
        }
        true
    }

    /// A sheet that shows the same.
    pub fn duplicate(&self) -> (r: Sheet)
        requires
            self.wf(),
        ensures
            r.wf(),
            r.same_content(*self),
            r.id == self.id,
            r.name == self.name,
            r.order == self.order,
            r.color == self.color,
            r.data_bounds == self.data_bounds,
            r.format_bounds == self.format_bounds,
            self.storable() ==> r.storable(),
    {
        let xs = keys_between(&self.columns, i64::MIN, i64::MAX);
        let mut columns: BTreeMap<i64, Column> = BTreeMap::new();
        let mut i: usize = 0;
        while i < xs.len()
            invariant
                i <= xs@.len(),
                self.wf(),
                forall|k: i64| #[trigger] xs@.contains(k) <==> self.columns@.contains_key(k),
                forall|x: i64| #[trigger]
                    columns@.contains_key(x) <==> exists|j: int| 0 <= j < i && xs@[j] == x,
                forall|x: i64| #[trigger]
                    columns@.contains_key(x) ==> columns@[x].wf() && columns@[x].x == x
                        && columns@[x].values@ == self.columns@[x].values@ && forall|z: int|
                        #[trigger] columns@[x].format_model(z) == self.columns@[x].format_model(z),
            decreases xs.len() - i,
        {
            let x = xs[i];
            assert(xs@.contains(x));
            let ghost before = columns@;
            match self.columns.get(&x) {
                Some(column) => {
                    columns.insert(x, column.duplicate());
                },
                None => {},
            }
            i += 1;
            proof {
                assert forall|z: i64| #[trigger]
                    columns@.contains_key(z) <==> exists|j: int| 0 <= j < i && xs@[j] == z by {
                    if z == x {
                        assert(xs@[i - 1] == z);
                    } else {
                        if before.contains_key(z) {
                            let j = choose|j: int| 0 <= j < i - 1 && xs@[j] == z;
                            assert(0 <= j < i && xs@[j] == z);
                        }
                        if exists|j: int| 0 <= j < i && xs@[j] == z {
                            let j = choose|j: int| 0 <= j < i && xs@[j] == z;
                            assert(0 <= j < i - 1 && xs@[j] == z);
                        }
                    }
                }
            }
        }
        proof {
            assert forall|x: i64| #[trigger]
                columns@.contains_key(x) <==> self.columns@.contains_key(x) by {
                if columns@.contains_key(x) {
                    let j = choose|j: int| 0 <= j < i && xs@[j] == x;
                    assert(xs@.contains(x));
                }
                if self.columns@.contains_key(x) {
                    assert(xs@.contains(x));
                    let j = choose|j: int| 0 <= j < xs@.len() && xs@[j] == x;
                    assert(0 <= j < i && xs@[j] == x);
                }
            }
        }
        let mut code_runs: Vec<(Pos, CodeRun)> = Vec::new();
        let mut k: usize = 0;
        while k < self.code_runs.len()
            invariant
                k <= self.code_runs@.len(),
                self.wf(),
                code_runs@.len() == k,
                forall|j: int|
                    0 <= j < k ==> (#[trigger] code_runs@[j]).0 == self.code_runs@[j].0
                        && code_runs@[j].1.alike(self.code_runs@[j].1) && code_runs@[j].1.wf(),
            decreases self.code_runs.len() - k,
        {
            assert(self.code_runs@[k as int].1.wf());
            code_runs.push((self.code_runs[k].0, self.code_runs[k].1.clone()));
            k += 1;
        }
        let mut list: Vec<crate::grid::sheet::validations::validation::Validation> = Vec::new();
        let mut v: usize = 0;
        while v < self.validations.validations.len()
            invariant
                v <= self.validations.validations@.len(),
                list@.len() == v,
                forall|j: int|
                    0 <= j < v ==> (#[trigger] list@[j]).alike(self.validations.validations@[j]),
            decreases self.validations.validations.len() - v,
        {
            list.push(self.validations.validations[v].clone());
            v += 1;
        }
        let r = Sheet {
            id: self.id,
            name: self.name.clone(),
            color: crate::grid::code::clone_opt_string(&self.color),
            order: self.order.clone(),
            columns,
            code_runs,
            validations: Validations { validations: list },
            offsets: SheetOffsets {
                column_widths: self.offsets.column_widths.clone(),
                row_heights: self.offsets.row_heights.clone(),
            },
            borders: crate::grid::borders::clone_borders(&self.borders),
            data_bounds: self.data_bounds,
            format_bounds: self.format_bounds,
        };
        proof {
            assert forall|a: int, b: int| 0 <= a < b < r.code_runs@.len() implies (
            #[trigger] r.code_runs@[a]).0 != (#[trigger] r.code_runs@[b]).0 by {
                assert(self.code_runs@[a].0 != self.code_runs@[b].0);
            }
            assert forall|a: int, b: int| 0 <= a < b < r.validations.validations@.len() implies (
            #[trigger] r.validations.validations@[a]).id != (
            #[trigger] r.validations.validations@[b]).id by {
                assert(self.validations.validations@[a].id != self.validations.validations@[b].id);
            }
            assert forall|j: int| 0 <= j < r.validations.validations@.len() implies (
            #[trigger] r.validations.validations@[j]).selection.sheet_id == r.id by {
                assert(r.validations.validations@[j].alike(self.validations.validations@[j]));
            }
            assert forall|p: Pos| #[trigger] r.cell(p) == self.cell(p) by {}
            assert forall|p: Pos| #[trigger] r.format_model(p) == self.format_model(p) by {}
            assert forall|p: Pos| runs_alike(#[trigger] r.code_run_at(p), self.code_run_at(p)) by {
                crate::grid::sheet::code::lemma_run_at_alike(r.code_runs@, self.code_runs@, p);
            }
            assert forall|id: u128|
                crate::grid::sheet::validations::validations_alike(
                    #[trigger] r.validations.by_id(id),
                    self.validations.by_id(id),
                ) by {
                crate::grid::sheet::validations::lemma_validation_at_alike(
                    r.validations.validations@,
                    self.validations.validations@,
                    id,
                );
            }
        }
        r
    }

    /// Everything but the columns and the stored bounds is the same in both
    /// sheets.
    pub open spec fn same_meta(self, other: Sheet) -> bool {
        &&& self.id == other.id
        &&& self.name == other.name
        &&& self.color == other.color
        &&& self.order == other.order
        &&& self.code_runs == other.code_runs
        &&& self.validations == other.validations
        &&& self.offsets == other.offsets
        &&& self.borders == other.borders
    }

    /// Everything but columns is the same in both sheets.
    pub open spec fn same_frame(self, other: Sheet) -> bool {
        &&& self.id == other.id
        &&& self.name == other.name
        &&& self.color == other.color
        &&& self.order == other.order
        &&& self.code_runs == other.code_runs
        &&& self.validations == other.validations
        &&& self.offsets == other.offsets
        &&& self.borders == other.borders
        &&& self.data_bounds == other.data_bounds
        &&& self.format_bounds == other.format_bounds
    }

    /// Sets or clears one formatting attribute of the cell at `pos` and
    /// returns the attribute as it was before. Clearing does not create the
    /// column where there is none yet. The bounds are left as they are.
    pub fn set_format_cell(&mut self, pos: Pos, change: CellFormat) -> (previous: CellFormat)
        requires
            old(self).wf(),
        ensures
            final(self).wf(),
            previous.same_attribute(change),
            old(self).format_model(pos).agrees(previous),
            final(self).format_model(pos) == old(self).format_model(pos).with(change),
            forall|p: Pos| p != pos ==> #[trigger] final(self).format_model(p) == old(self).format_model(p),
            forall|p: Pos| #[trigger] final(self).cell(p) == old(self).cell(p),
            final(self).same_frame(*old(self)),
    {
        let mut column = match self.columns.remove(&pos.x) {
            Some(c) => c,
            None => Column::new(pos.x),
        };
        let previous = column.set_format(pos.y, change);
        self.columns.insert(pos.x, column);
        previous
    }

    /// The formatting attribute of the cell at `pos` that `kind` speaks of.
    pub fn get_format_cell(&self, pos: Pos, kind: &CellFormat) -> (r: CellFormat)
        requires
            self.wf(),
        ensures
            r.same_attribute(*kind),
            self.format_model(pos).agrees(r),
    {
        match self.columns.get(&pos.x) {
            Some(column) => column.get_format(pos.y, kind),
            None => kind.cleared(),
        }
    }

    /// `values` are the cells of the selection that hold a value, with what
    /// they hold.
    pub open spec fn is_selection(self, selection: Selection, values: Seq<(Pos, CellValue)>) -> bool {
        &&& forall|j: int|
            0 <= j < values.len() ==> selection.spec_contains((#[trigger] values[j]).0)
                && self.cell(values[j].0) == Some(values[j].1)
        &&& forall|p: Pos|
            selection.spec_contains(p) && (#[trigger] self.cell(p)) is Some ==> exists|j: int|
                0 <= j < values.len() && (#[trigger] values[j]).0 == p
    }

    /// The cells of the selection that hold a value, with what they hold,
    /// column by column and, within a column, row by row.
    pub fn selection(&self, selection: &Selection) -> (values: Vec<(Pos, CellValue)>)
        requires
            self.wf(),
        ensures
            self.is_selection(*selection, values@),
            in_reading_order(values@),
    {
        let mut out: Vec<(Pos, CellValue)> = Vec::new();
        let xs = keys_between(&self.columns, i64::MIN, i64::MAX);
        let mut i: usize = 0;
        while i < xs.len()
            invariant
                i <= xs@.len(),
                self.wf(),
                forall|k: i64| #[trigger] xs@.contains(k) <==> self.columns@.contains_key(k),
                forall|a: int, b: int| 0 <= a < b < xs@.len() ==> #[trigger] xs@[a] < #[trigger] xs@[b],
                in_reading_order(out@),
                forall|j: int|
                    0 <= j < out@.len() ==> selection.spec_contains((#[trigger] out@[j]).0)
                        && self.cell(out@[j].0) == Some(out@[j].1) && exists|a: int|
                        0 <= a < i && xs@[a] == out@[j].0.x,
                forall|p: Pos|
                    selection.spec_contains(p) && (#[trigger] self.cell(p)) is Some && (exists|
                        a: int,
                    | 0 <= a < i && xs@[a] == p.x) ==> exists|j: int|
                        0 <= j < out@.len() && (#[trigger] out@[j]).0 == p,
            decreases xs.len() - i,
        {
            let x = xs[i];
            assert(xs@.contains(x));
            match self.columns.get(&x) {
                Some(column) => {
                    let ys = keys_between(&column.values, i64::MIN, i64::MAX);
                    let ghost start = out@;
                    let mut k: usize = 0;
                    proof {
                        assert forall|j: int| 0 <= j < start.len() implies #[trigger] is_among(
                            xs@,
                            i as int,
                            start[j].0.x,
                        ) by {
                            assert(selection.spec_contains(out@[j].0));
                            let a = choose|a: int| 0 <= a < i && xs@[a] == out@[j].0.x;
                            assert(xs@[a] == start[j].0.x);
                        }
                    }
                    while k < ys.len()
                        invariant
                            k <= ys@.len(),
                            self.wf(),
                            i < xs@.len(),
                            x == xs@[i as int],
                            self.columns@.contains_key(x),
                            *column == self.columns@[x],
                            forall|y: i64| #[trigger]
                                ys@.contains(y) <==> column.values@.contains_key(y),
                            forall|a: int, b: int|
                                0 <= a < b < ys@.len() ==> #[trigger] ys@[a] < #[trigger] ys@[b],
                            forall|a: int, b: int|
                                0 <= a < b < xs@.len() ==> #[trigger] xs@[a] < #[trigger] xs@[b],
                            in_reading_order(out@),
                            forall|j: int|
                                0 <= j < start.len() ==> #[trigger] is_among(
                                    xs@,
                                    i as int,
                                    start[j].0.x,
                                ),
                            forall|j: int|
                                start.len() <= j < out@.len() ==> #[trigger] is_among(
                                    ys@,
                                    k as int,
                                    out@[j].0.y,
                                ),
                            start.len() <= out@.len(),
                            forall|j: int| 0 <= j < start.len() ==> out@[j] == start[j],
                            forall|j: int|
                                start.len() <= j < out@.len() ==> selection.spec_contains(
                                    (#[trigger] out@[j]).0,
                                ) && self.cell(out@[j].0) == Some(out@[j].1) && out@[j].0.x == x,
                            forall|p: Pos|
                                p.x == x && selection.spec_contains(p) && (#[trigger] self.cell(
                                    p,
                                )) is Some && (exists|b: int| 0 <= b < k && ys@[b] == p.y)
                                    ==> exists|j: int|
                                    0 <= j < out@.len() && (#[trigger] out@[j]).0 == p,
                        decreases ys.len() - k,
                    {
                        let y = ys[k];
                        assert(ys@.contains(y));
                        let pos = Pos { x, y };
                        let ghost prev = out@;
                        if selection.contains_pos(pos) {
                            match column.get(y) {
                                Some(v) => {
                                    out.push((pos, v.clone()));
                                },
                                None => {},
                            }
                        }
                        k += 1;
                        proof {
                            assert forall|j: int| start.len() <= j < out@.len() implies #[trigger] is_among(
                                ys@,
                                k as int,
                                out@[j].0.y,
                            ) by {
                                if j < prev.len() {
                                    assert(out@[j] == prev[j]);
                                    assert(is_among(ys@, k - 1, prev[j].0.y));
                                    let b = choose|b: int| 0 <= b < k - 1 && ys@[b] == prev[j].0.y;
                                    assert(0 <= b < k && ys@[b] == out@[j].0.y);
                                } else {
                                    assert(ys@[k - 1] == out@[j].0.y);
                                }
                            }
                            assert forall|a: int, b: int| 0 <= a < b < out@.len() implies pos_before(
                                (#[trigger] out@[a]).0,
                                (#[trigger] out@[b]).0,
                            ) by {
                                if b < prev.len() {
                                    assert(out@[a] == prev[a] && out@[b] == prev[b]);
                                } else {
                                    assert(out@[a] == prev[a]);
                                    assert(out@[b].0 == pos);
                                    if a < start.len() {
                                        assert(prev[a] == start[a]);
                                        assert(is_among(xs@, i as int, start[a].0.x));
                                        let c = choose|c: int| 0 <= c < i && xs@[c] == start[a].0.x;
                                        assert(xs@[c] < xs@[i as int]);
                                    } else {
                                        assert(is_among(ys@, k - 1, prev[a].0.y));
                                        let c = choose|c: int|
                                            0 <= c < k - 1 && ys@[c] == prev[a].0.y;
                                        assert(ys@[c] < ys@[k - 1]);
                                    }
                                }
                            }
                            assert forall|p: Pos|
                                p.x == x && selection.spec_contains(p) && (#[trigger] self.cell(
                                    p,
                                )) is Some && (exists|b: int| 0 <= b < k && ys@[b] == p.y) implies exists|
                                j: int,
                            | 0 <= j < out@.len() && (#[trigger] out@[j]).0 == p by {
                                let b = choose|b: int| 0 <= b < k && ys@[b] == p.y;
                                if b < k - 1 {
                                    let j = choose|j: int|
                                        0 <= j < prev.len() && (#[trigger] prev[j]).0 == p;
                                    assert(out@[j].0 == p);
                                } else {
                                    assert(p == pos);
                                    assert(out@[out@.len() - 1].0 == p);
                                }
                            }
                        }
                    }
                    proof {
                        assert forall|p: Pos|
                            selection.spec_contains(p) && (#[trigger] self.cell(p)) is Some && (
                            exists|a: int| 0 <= a < i + 1 && xs@[a] == p.x) implies exists|j: int|
                            0 <= j < out@.len() && (#[trigger] out@[j]).0 == p by {
                            if p.x == x {
                                assert(ys@.contains(p.y));
                                let b = choose|b: int| 0 <= b < ys@.len() && ys@[b] == p.y;
                                assert(0 <= b < k && ys@[b] == p.y);
                            } else {
                                let a = choose|a: int| 0 <= a < i + 1 && xs@[a] == p.x;
                                assert(0 <= a < i && xs@[a] == p.x);
                                let j = choose|j: int|
                                    0 <= j < start.len() && (#[trigger] start[j]).0 == p;
                                assert(out@[j].0 == p);
                            }
                        }
                        assert forall|j: int| 0 <= j < out@.len() implies selection.spec_contains(
                            (#[trigger] out@[j]).0,
                        ) && self.cell(out@[j].0) == Some(out@[j].1) && exists|a: int|
                            0 <= a < i + 1 && xs@[a] == out@[j].0.x by {
                            if j < start.len() {
                                assert(out@[j] == start[j]);
                                let a = choose|a: int| 0 <= a < i && xs@[a] == start[j].0.x;
                                assert(0 <= a < i + 1 && xs@[a] == out@[j].0.x);
                            } else {
                                assert(xs@[i as int] == out@[j].0.x);
                            }
                        }
                    }
                },
                None => {},
            }
            i += 1;
        }
        proof {
            assert forall|p: Pos|
                selection.spec_contains(p) && (#[trigger] self.cell(p)) is Some implies exists|
                j: int,
            | 0 <= j < out@.len() && (#[trigger] out@[j]).0 == p by {
                assert(xs@.contains(p.x));
                let a = choose|a: int| 0 <= a < xs@.len() && xs@[a] == p.x;
                assert(0 <= a < i && xs@[a] == p.x);
            }
        }
        out
    }

    /// The bounds as last recalculated: those of the values alone where
    /// `ignore_formatting` is set, else those of values and formatting.
    pub fn bounds(&self, ignore_formatting: bool) -> (r: GridBounds)
        ensures
            r == if ignore_formatting {
                self.data_bounds
            } else {
                self.format_bounds
            },
    {
        if ignore_formatting {
            self.data_bounds
        } else {
            self.format_bounds
        }
    }

    /// Computes both bounds anew from the columns.
    pub fn recalculate_bounds(&mut self)
        requires
            old(self).wf(),
        ensures
            final(self).wf(),
            final(self).bounds_current(),
            final(self).same_meta(*old(self)),
            final(self).columns == old(self).columns,
            final(self).code_runs == old(self).code_runs,
            final(self).validations == old(self).validations,
            final(self).offsets == old(self).offsets,
            final(self).borders == old(self).borders,
            final(self).id == old(self).id,
            final(self).name == old(self).name,
            final(self).color == old(self).color,
            final(self).order == old(self).order,
    {
        let mut data = GridBounds::Empty;
        let mut format = GridBounds::Empty;
        let keys = self.columns.keys();
        let ghost all = keys.remaining();
        let ghost me = *self;
        proof {
            vstd::std_specs::btree::axiom_spec_keys_iter(&self.columns);
        }
        for key in it: keys
            invariant
                it.seq() == all,
                all.unref().to_set() == me.columns@.dom(),
                me == *self,
                me.wf(),
                is_bounds_of(data, |p: Pos| me.cell(p) is Some && seen(all, it.index(), p.x)),
                is_bounds_of(
                    format,
                    |p: Pos| (me.cell(p) is Some || me.formatted(p)) && seen(all, it.index(), p.x),
                ),
        {
            let x = *key;
            proof {
                let i = it.index();
                assert(all.unref()[i] == x);
                assert(all.unref().to_set().contains(x));
            }
            match self.columns.get(&x) {
                Some(column) => {
                    let values = column.value_span();
                    let formats = column.format_span();
                    let both = crate::grid::column::join_span(values, formats);
                    let ghost i = it.index();
                    let ghost d_before = |p: Pos| me.cell(p) is Some && seen(all, i, p.x);
                    let ghost d_after = |p: Pos| me.cell(p) is Some && seen(all, i + 1, p.x);
                    let ghost d_rows = |y: int|
                        i64::MIN <= y <= i64::MAX && column.values@.contains_key(y as i64);
                    let ghost f_before = |p: Pos|
                        (me.cell(p) is Some || me.formatted(p)) && seen(all, i, p.x);
                    let ghost f_after = |p: Pos|
                        (me.cell(p) is Some || me.formatted(p)) && seen(all, i + 1, p.x);
                    let ghost f_rows = |y: int|
                        i64::MIN <= y <= i64::MAX && (column.values@.contains_key(y as i64)
                            || column.formatted(y));
                    proof {
                        assert(is_span_of(values, d_rows)) by {
                            if values is None {
                                assert forall|y: int| !#[trigger] d_rows(y) by {
                                    if i64::MIN <= y <= i64::MAX {
                                        assert(!column.values@.dom().contains(y as i64));
                                    }
                                }
                            }
                        }
                        assert(is_span_of(both, f_rows)) by {
                            let f_only = |z: int| column.formatted(z);
                            assert(is_span_of(formats, f_only));
                            match both {
                                None => {
                                    assert forall|y: int| !#[trigger] f_rows(y) by {
                                        assert(!d_rows(y));
                                        assert(!f_only(y));
                                    }
                                },
                                Some((lo, hi)) => {
                                    assert(f_rows(lo as int)) by {
                                        if values matches Some((a, b)) && a == lo {
                                            assert(d_rows(lo as int));
                                        } else {
                                            assert(f_only(lo as int));
                                        }
                                    }
                                    assert(f_rows(hi as int)) by {
                                        if values matches Some((a, b)) && b == hi {
                                            assert(d_rows(hi as int));
                                        } else {
                                            assert(f_only(hi as int));
                                        }
                                    }
                                    assert forall|y: int| #[trigger] f_rows(y) implies lo <= y
                                        <= hi by {
                                        if d_rows(y) {
                                        } else {
                                            assert(f_only(y));
                                        }
                                    }
                                },
                            }
                        }
                        assert forall|p: Pos| #[trigger]
                            d_after(p) == (d_before(p) || (p.x == x && d_rows(p.y as int))) by {
                            lemma_seen_step(all, i, p.x);
                        }
                        assert forall|p: Pos| #[trigger]
                            f_after(p) == (f_before(p) || (p.x == x && f_rows(p.y as int))) by {
                            lemma_seen_step(all, i, p.x);
                        }
                        lemma_bounds_add_column(data, d_before, d_after, x, values, d_rows);
                        lemma_bounds_add_column(format, f_before, f_after, x, both, f_rows);
                    }
                    match values {
                        Some((lo, hi)) => {
                            data.add(Pos { x, y: lo });
                            data.add(Pos { x, y: hi });
                        },
                        None => {},
                    }
                    match both {
                        Some((lo, hi)) => {
                            format.add(Pos { x, y: lo });
                            format.add(Pos { x, y: hi });
                        },
                        None => {},
                    }
                },
                None => {
                    assert(false);
                },
            }
        }
        self.data_bounds = data;
        self.format_bounds = format;
        proof {
            let n = all.len() as int;
            let now = *self;
            let d_all = |p: Pos| now.cell(p) is Some;
            let d_seen = |p: Pos| me.cell(p) is Some && seen(all, n, p.x);
            let f_all = |p: Pos| now.cell(p) is Some || now.formatted(p);
            let f_seen = |p: Pos| (me.cell(p) is Some || me.formatted(p)) && seen(all, n, p.x);
            assert forall|p: Pos| #[trigger] d_all(p) == d_seen(p) by {
                assert(now.cell(p) == me.cell(p));
                if me.cell(p) is Some {
                    lemma_seen_all(all, me.columns@.dom(), p.x);
                }
            }
            assert forall|p: Pos| #[trigger] f_all(p) == f_seen(p) by {
                assert(now.cell(p) == me.cell(p));
                assert(now.formatted(p) == me.formatted(p));
                if me.cell(p) is Some || me.formatted(p) {
                    lemma_seen_all(all, me.columns@.dom(), p.x);
                }
            }
            lemma_bounds_same_cells(data, d_seen, d_all);
            lemma_bounds_same_cells(format, f_seen, f_all);
        }
    }
}

/// Whether `x` is among the first `n` keys.
pub open spec fn seen(keys: Seq<&i64>, n: int, x: i64) -> bool {
    exists|i: int| 0 <= i < n && i < keys.len() && *(#[trigger] keys[i]) == x
}

proof fn lemma_seen_step(keys: Seq<&i64>, n: int, x: i64)
    requires
        0 <= n < keys.len(),
    ensures
        seen(keys, n + 1, x) == (seen(keys, n, x) || *keys[n] == x),
{
    if seen(keys, n + 1, x) {
        let i = choose|i: int| 0 <= i < n + 1 && i < keys.len() && *(#[trigger] keys[i]) == x;
        if i < n {
            assert(seen(keys, n, x));
        }
    }
    if seen(keys, n, x) {
        let i = choose|i: int| 0 <= i < n && i < keys.len() && *(#[trigger] keys[i]) == x;
        assert(0 <= i < n + 1 && *keys[i] == x);
    }
    if *keys[n] == x {
        assert(0 <= n < n + 1 && *keys[n] == x);
    }
}

proof fn lemma_seen_all(keys: Seq<&i64>, dom: Set<i64>, x: i64)
    requires
        keys.unref().to_set() == dom,
        dom.contains(x),
    ensures
        seen(keys, keys.len() as int, x),
{
    assert(keys.unref().to_set().contains(x));
    assert(keys.unref().contains(x));
    let i = choose|i: int| 0 <= i < keys.unref().len() && keys.unref()[i] == x;
    assert(*keys[i] == x);
}

/// Bounds of some cells are the bounds of any other description of the same
/// cells.
pub proof fn lemma_bounds_same_cells(
    bounds: GridBounds,
    a: spec_fn(Pos) -> bool,
    b: spec_fn(Pos) -> bool,
)
    requires
        is_bounds_of(bounds, a),
        forall|p: Pos| #[trigger] b(p) == a(p),
    ensures
        is_bounds_of(bounds, b),
{
    match bounds {
        GridBounds::Empty => {
            assert forall|p: Pos| !#[trigger] b(p) by {
                assert(b(p) == a(p));
            }
        },
        GridBounds::NonEmpty(r) => {
            let p1 = choose|p: Pos| #[trigger] a(p) && p.x == r.min.x;
            assert(b(p1) == a(p1));
            let p2 = choose|p: Pos| #[trigger] a(p) && p.x == r.max.x;
            assert(b(p2) == a(p2));
            let p3 = choose|p: Pos| #[trigger] a(p) && p.y == r.min.y;
            assert(b(p3) == a(p3));
            let p4 = choose|p: Pos| #[trigger] a(p) && p.y == r.max.y;
            assert(b(p4) == a(p4));
            assert forall|p: Pos| #[trigger] b(p) implies r.spec_contains(p) by {
                assert(b(p) == a(p));
            }
        },
    }
}

} // verus!
