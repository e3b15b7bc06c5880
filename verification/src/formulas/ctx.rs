//! The context in which a formula is evaluated.

use crate::formulas::cell_ref::{CellRef, RangeRef};
use crate::grid::sheets::{is_first_with_id, is_first_with_name, name_taken, no_sheet_with_id};
use crate::grid::Grid;
use crate::pos::{Pos, SheetPos};
use crate::rect::{Rect, SheetRect};
use crate::values::array::{
    is_common_len, is_least_common_len, lemma_flat_index_in_range, lemma_least_common_len_unique, no_common_len,
    operands_wf, size_error, Array, ArraySize, Value,
};
use crate::values::{Axis, CellValue, CodeResult, RunError, RunErrorMsg, Span, Spanned};
use std::collections::BTreeSet;
use vstd::prelude::*;
use vstd::string::StringExecFns;

verus! {

/// The greatest number of cells that a reference to a range may cover.
pub const CELL_RANGE_LIMIT: u64 = 1_000_000;

/// Formula execution context.
pub struct Ctx<'ctx> {
    /// Grid to access cells from.
    pub grid: &'ctx Grid,
    /// Position in the grid from which the formula is being evaluated.
    pub sheet_pos: SheetPos,
    /// Cells that have been accessed in evaluating the formula, each
    /// rectangle kept by the numbers of [`access_key`].
    pub cells_accessed: BTreeSet<(u128, i64, i64, i64, i64)>,
}

/// The numbers by which an accessed rectangle is kept: the id of its sheet,
/// then its corners.
pub open spec fn access_key(rect: SheetRect) -> (u128, i64, i64, i64, i64) {
    (rect.sheet_id.id, rect.min.x, rect.min.y, rect.max.x, rect.max.y)
}

/// The error for a reference that cannot be resolved.
pub open spec fn bad_reference(span: Span) -> RunError {
    RunErrorMsg::BadCellReference.spec_with_span(span)
}

/// The outcome is the error that the feature named is not available.
pub open spec fn is_unimplemented(
    r: CodeResult<Spanned<SheetRect>>,
    span: Span,
    what: Seq<char>,
) -> bool {
    match r {
        Ok(_) => false,
        Err(e) => e.span == Some(span) && match e.msg {
            RunErrorMsg::Unimplemented(w) => w@ == what,
            _ => false,
        },
    }
}

/// The error for a formula that reads its own cell.
pub open spec fn circular_reference(span: Span) -> RunError {
    RunErrorMsg::CircularReference.spec_with_span(span)
}

/// The cells that the operands offer at `(x, y)`, each with its operand's
/// place in the source.
pub open spec fn cells_at(operands: Seq<Spanned<Value>>, x: int, y: int) -> Seq<Spanned<CellValue>> {
    Seq::new(
        operands.len(),
        |i: int| Spanned { span: operands[i].span, inner: operands[i].inner.spec_get(x, y)->0 },
    )
}

/// `i` is the place of the first operand that is a tuple.
pub open spec fn is_first_tuple(operands: Seq<Spanned<Value>>, i: int) -> bool {
    &&& 0 <= i < operands.len()
    &&& operands[i].inner is Tuple
    &&& forall|j: int| 0 <= j < i ==> !((#[trigger] operands[j]).inner is Tuple)
}

/// No operand is a tuple.
pub open spec fn no_tuple(operands: Seq<Spanned<Value>>) -> bool {
    forall|j: int| 0 <= j < operands.len() ==> !((#[trigger] operands[j]).inner is Tuple)
}

/// `f` may yield `out` for the cells that the operands offer at `(x, y)`.
pub open spec fn applied<F: Fn(&Vec<Spanned<CellValue>>) -> CodeResult<CellValue>>(
    f: F,
    operands: Seq<Spanned<Value>>,
    x: int,
    y: int,
    out: CodeResult<CellValue>,
) -> bool {
    exists|args: Vec<Spanned<CellValue>>|
        args@ == cells_at(operands, x, y) && #[trigger] f.ensures((&args,), out)
}

/// `f` may yield a value for the cells that the operands offer at `(x, y)`.
pub open spec fn yields_at<F: Fn(&Vec<Spanned<CellValue>>) -> CodeResult<CellValue>>(
    f: F,
    operands: Seq<Spanned<Value>>,
    x: int,
    y: int,
) -> bool {
    exists|v: CellValue| applied(f, operands, x, y, Ok(v))
}

/// Going row by row through rows of `w` cells, `(x, y)` is the first place
/// where `f` fails, and it fails with `e`.
pub open spec fn fails_first_at<F: Fn(&Vec<Spanned<CellValue>>) -> CodeResult<CellValue>>(
    f: F,
    operands: Seq<Spanned<Value>>,
    w: int,
    x: int,
    y: int,
    e: RunError,
) -> bool {
    &&& 0 <= x < w
    &&& 0 <= y
    &&& applied(f, operands, x, y, Err(e))
    &&& forall|cx: int, cy: int|
        0 <= cx < w && (0 <= cy < y || (cy == y && 0 <= cx < x)) ==> #[trigger] yields_at(
            f,
            operands,
            cx,
            cy,
        )
}

/// The operands cannot be brought to one shape.
pub open spec fn no_common_size(operands: Seq<Spanned<Value>>) -> bool {
    no_common_len(operands, Axis::X) || no_common_len(operands, Axis::Y)
}

/// `e` is the error of applying `f` to the operands cell by cell: where the
/// operands cannot be brought to one shape, the error of their shapes, and
/// `f` is not looked at; else, where an operand is a tuple, the error of the
/// first tuple; else the error of the first cell, row by row, for which `f`
/// fails.
pub open spec fn zip_failed<F: Fn(&Vec<Spanned<CellValue>>) -> CodeResult<CellValue>>(
    f: F,
    operands: Seq<Spanned<Value>>,
    e: RunError,
) -> bool {
    if no_common_size(operands) {
        size_error(operands, e)
    } else if !no_tuple(operands) {
        tuple_error(operands, e)
    } else {
        exists|w: int, x: int, y: int|
            is_least_common_len(operands, Axis::X, w) && #[trigger] fails_first_at(
                f,
                operands,
                w,
                x,
                y,
                e,
            )
    }
}

/// `e` is the error for operands of which one is a tuple: a tuple is found
/// where an array is expected, at the place of the first tuple.
pub open spec fn tuple_error(operands: Seq<Spanned<Value>>, e: RunError) -> bool {
    exists|i: int| #[trigger]
        is_first_tuple(operands, i) && e.span == Some(operands[i].span) && e.msg.is_expected(
            "array"@,
            "tuple"@,
        )
}

/// Where the error of a tuple comes, an operand is a tuple.
pub proof fn lemma_tuple_error(operands: Seq<Spanned<Value>>, e: RunError)
    requires
        tuple_error(operands, e),
    ensures
        !no_tuple(operands),
{
    let i = choose|i: int| #[trigger]
        is_first_tuple(operands, i) && e.span == Some(operands[i].span) && e.msg.is_expected(
            "array"@,
            "tuple"@,
        );
    assert(operands[i].inner is Tuple);
}

/// The cells that the operands offer at `(x, y)`.
fn operand_cells(operands: &Vec<Spanned<Value>>, x: u32, y: u32) -> (r: CodeResult<
    Vec<Spanned<CellValue>>,
>)
    requires
        operands_wf(operands@),
    ensures
        match r {
            Ok(args) => no_tuple(operands@) && args@ == cells_at(operands@, x as int, y as int),
            Err(e) => tuple_error(operands@, e),
        },
{
    let mut args: Vec<Spanned<CellValue>> = Vec::new();
    let mut i: usize = 0;
    while i < operands.len()
        invariant
            i <= operands@.len(),
            operands_wf(operands@),
            args@.len() == i,
            forall|j: int| 0 <= j < i ==> !((#[trigger] operands@[j]).inner is Tuple),
            forall|j: int|
                0 <= j < i ==> #[trigger] args@[j] == cells_at(operands@, x as int, y as int)[j],
        decreases operands.len() - i,
    {
        match operands[i].inner.get(x, y) {
            Ok(v) => {
                args.push(Spanned { span: operands[i].span, inner: v.clone() });
            },
            Err(msg) => {
                assert(is_first_tuple(operands@, i as int));
                return Err(msg.with_span(operands[i].span));
            },
        }
        i += 1;
    }
    assert(args@ =~= cells_at(operands@, x as int, y as int));
    Ok(args)
}

impl<'ctx> Ctx<'ctx> {
    /// Constructs a context for evaluating a formula at `sheet_pos` in `grid`.
    pub fn new(grid: &'ctx Grid, sheet_pos: SheetPos) -> (ctx: Self)
        ensures
            ctx.grid == grid,
            ctx.sheet_pos == sheet_pos,
            ctx.accessed() == Set::<SheetRect>::empty(),
    {
        let ctx = Ctx { grid, sheet_pos, cells_accessed: BTreeSet::new() };
        assert(ctx.accessed() =~= Set::<SheetRect>::empty());
        ctx
    }

    /// The cells accessed so far.
    pub open spec fn accessed(self) -> Set<SheetRect> {
        Set::new(|rect: SheetRect| self.cells_accessed@.contains(access_key(rect)))
    }

    /// Whether the rectangle was accessed.
    pub fn has_accessed(&self, rect: SheetRect) -> (b: bool)
        ensures
            b == self.accessed().contains(rect),
    {
        broadcast use {vstd::std_specs::btree::group_btree_axioms, vstd::laws_cmp::group_laws_cmp};

        let key = (rect.sheet_id.id, rect.min.x, rect.min.y, rect.max.x, rect.max.y);
        self.cells_accessed.contains(&key)
    }

    /// The number of rectangles accessed.
    pub fn accessed_count(&self) -> (n: usize)
        ensures
            n == self.cells_accessed@.len(),
    {
        broadcast use {vstd::std_specs::btree::group_btree_axioms, vstd::laws_cmp::group_laws_cmp};

        self.cells_accessed.len()
    }

    /// The sheet that a reference speaks of: the first sheet with the name
    /// given, or the first with the id of the formula's sheet.
    pub open spec fn referred_sheet(self, sheet: Option<String>) -> Option<crate::grid::ids::SheetId> {
        match sheet {
            Some(name) => if name_taken(self.grid.sheets@, name@) {
                Some(
                    self.grid.sheets@[choose|i: int|
                        is_first_with_name(self.grid.sheets@, name@, i)].id,
                )
            } else {
                None
            },
            None => if no_sheet_with_id(self.grid.sheets@, self.sheet_pos.sheet_id) {
                None
            } else {
                Some(self.sheet_pos.sheet_id)
            },
        }
    }

    /// The cell that a reference means in this context; none where its sheet
    /// does not exist or the cell lies beyond the last coordinate.
    pub open spec fn spec_resolve_ref(self, ref_pos: CellRef) -> Option<SheetPos> {
        match (
            self.referred_sheet(ref_pos.sheet),
            ref_pos.spec_resolve_from(self.sheet_pos.spec_pos()),
        ) {
            (Some(sheet_id), Some(pos)) => Some(SheetPos { x: pos.x, y: pos.y, sheet_id }),
            _ => None,
        }
    }

    /// Resolves a cell reference relative to the position of the formula.
    pub fn resolve_ref(&self, ref_pos: &CellRef, span: Span) -> (r: CodeResult<Spanned<SheetPos>>)
        ensures
            self.spec_resolve_ref(*ref_pos) matches Some(at) ==> r == Ok::<
                Spanned<SheetPos>,
                RunError,
            >(Spanned { span, inner: at }),
            self.spec_resolve_ref(*ref_pos) is None ==> r == Err::<Spanned<SheetPos>, RunError>(
                bad_reference(span),
            ),
    {
        let sheet = match &ref_pos.sheet {
            Some(sheet_name) => self.grid.try_sheet_from_name(sheet_name.clone()),
            None => self.grid.try_sheet(self.sheet_pos.sheet_id),
        };
        let sheet_id = match sheet {
            Some(s) => {
                proof {
                    match &ref_pos.sheet {
                        Some(name) => {
                            let i = choose|i: int| #[trigger]
                                is_first_with_name(self.grid.sheets@, name@, i) && *s
                                    == self.grid.sheets@[i];
                            let k = choose|k: int| is_first_with_name(self.grid.sheets@, name@, k);
                            assert(i == k) by {
                                if i < k {
                                    assert(self.grid.sheets@[i].name@ != name@);
                                }
                                if k < i {
                                    assert(self.grid.sheets@[k].name@ != name@);
                                }
                            }
                        },
                        None => {
                            let i = choose|i: int| #[trigger]
                                is_first_with_id(self.grid.sheets@, self.sheet_pos.sheet_id, i)
                                    && *s == self.grid.sheets@[i];
                            assert(self.grid.sheets@[i].id == self.sheet_pos.sheet_id);
                        },
                    }
                }
                s.id
            },
            None => {
                return Err(RunErrorMsg::BadCellReference.with_span(span));
            },
        };
        match ref_pos.resolve_from(self.sheet_pos.pos()) {
            Some(pos) => Ok(Spanned { span, inner: pos.to_sheet_pos(sheet_id) }),
            None => Err(RunErrorMsg::BadCellReference.with_span(span)),
        }
    }

    /// Resolves a cell range reference relative to the position of the
    /// formula. Whole rows and whole columns are not available; a range of
    /// cells lies on the sheet of its first corner.
    pub fn resolve_range_ref(&self, range: &RangeRef, span: Span) -> (r: CodeResult<
        Spanned<SheetRect>,
    >)
        ensures
            match *range {
                RangeRef::RowRange { .. } => is_unimplemented(r, span, "row range"@),
                RangeRef::ColRange { .. } => is_unimplemented(r, span, "column range"@),
                RangeRef::CellRange { start, end } => match (
                    self.spec_resolve_ref(start),
                    self.spec_resolve_ref(end),
                ) {
                    (Some(a), Some(b)) => r matches Ok(found) && found.span == span
                        && found.inner.spec_rect() == Rect::spec_new_span(a.spec_pos(), b.spec_pos())
                        && found.inner.sheet_id == a.sheet_id,
                    _ => r == Err::<Spanned<SheetRect>, RunError>(bad_reference(span)),
                },
                RangeRef::Cell { pos } => match self.spec_resolve_ref(pos) {
                    Some(a) => r == Ok::<Spanned<SheetRect>, RunError>(
                        Spanned {
                            span,
                            inner: SheetRect {
                                min: a.spec_pos(),
                                max: a.spec_pos(),
                                sheet_id: a.sheet_id,
                            },
                        },
                    ),
                    None => r == Err::<Spanned<SheetRect>, RunError>(bad_reference(span)),
                },
            },
    {
        match range {
            RangeRef::RowRange { .. } => Err(
                RunErrorMsg::Unimplemented(String::from_str("row range")).with_span(span),
            ),
            RangeRef::ColRange { .. } => Err(
                RunErrorMsg::Unimplemented(String::from_str("column range")).with_span(span),
            ),
            RangeRef::CellRange { start, end } => {
                let sheet_pos_start = self.resolve_ref(start, span)?.inner;
                let sheet_pos_end = self.resolve_ref(end, span)?.inner;
                Ok(
                    Spanned {
                        span,
                        inner: SheetRect::new_pos_span(
                            sheet_pos_start.pos(),
                            sheet_pos_end.pos(),
                            sheet_pos_start.sheet_id,
                        ),
                    },
                )
            },
            RangeRef::Cell { pos } => {
                let sheet_pos = self.resolve_ref(pos, span)?.inner;
                Ok(Spanned { span, inner: SheetRect::single_sheet_pos(sheet_pos) })
            },
        }
    }

    /// Records that a cell was accessed.
    fn record_access(&mut self, rect: SheetRect)
        ensures
            final(self).grid == old(self).grid,
            final(self).sheet_pos == old(self).sheet_pos,
            final(self).accessed() == old(self).accessed().insert(rect),
    {
        broadcast use {vstd::std_specs::btree::group_btree_axioms, vstd::laws_cmp::group_laws_cmp};

        self.cells_accessed.insert(
            (rect.sheet_id.id, rect.min.x, rect.min.y, rect.max.x, rect.max.y),
        );
        assert(self.accessed() =~= old(self).accessed().insert(rect));
    }

    /// What a formula at this context's position reads at `sheet_pos`: an
    /// error where that is the formula's own cell or the sheet does not exist,
    /// else what the cell displays, blank where it displays nothing.
    pub open spec fn spec_get_cell(self, sheet_pos: SheetPos, span: Span) -> CodeResult<CellValue> {
        if sheet_pos == self.sheet_pos {
            Err(circular_reference(span))
        } else if no_sheet_with_id(self.grid.sheets@, sheet_pos.sheet_id) {
            Err(bad_reference(span))
        } else {
            let i = choose|i: int| is_first_with_id(self.grid.sheets@, sheet_pos.sheet_id, i);
            match self.grid.sheets@[i].spec_display_value(sheet_pos.spec_pos()) {
                Some(v) => Ok(v),
                None => Ok(CellValue::Blank),
            }
        }
    }

    /// Fetches the contents of the cell at `sheet_pos`, or returns an error
    /// in the case of a circular reference. Every other cell asked for is
    /// recorded as accessed, also where its sheet does not exist.
    pub fn get_cell(&mut self, sheet_pos: SheetPos, span: Span) -> (r: CodeResult<
        Spanned<CellValue>,
    >)
        requires
            old(self).grid.wf(),
        ensures
            final(self).grid == old(self).grid,
            final(self).sheet_pos == old(self).sheet_pos,
            match old(self).spec_get_cell(sheet_pos, span) {
                Ok(v) => r == Ok::<Spanned<CellValue>, RunError>(Spanned { span, inner: v }),
                Err(e) => r == Err::<Spanned<CellValue>, RunError>(e),
            },
            sheet_pos == old(self).sheet_pos ==> final(self).accessed() == old(self).accessed(),
            sheet_pos != old(self).sheet_pos ==> final(self).accessed() == old(self).accessed().insert(
                SheetRect {
                    min: sheet_pos.spec_pos(),
                    max: sheet_pos.spec_pos(),
                    sheet_id: sheet_pos.sheet_id,
                },
            ),
    {
        if sheet_pos == self.sheet_pos {
            return Err(RunErrorMsg::CircularReference.with_span(span));
        }
        self.record_access(SheetRect::single_sheet_pos(sheet_pos));
        let sheet = match self.grid.try_sheet(sheet_pos.sheet_id) {
            Some(s) => s,
            None => {
                return Err(RunErrorMsg::BadCellReference.with_span(span));
            },
        };
        proof {
            let i = choose|i: int| #[trigger]
                is_first_with_id(self.grid.sheets@, sheet_pos.sheet_id, i) && *sheet
                    == self.grid.sheets@[i];
            let k = choose|k: int| is_first_with_id(self.grid.sheets@, sheet_pos.sheet_id, k);
            assert(i == k) by {
                if i < k {
                    assert(self.grid.sheets@[i].id != sheet_pos.sheet_id);
                }
                if k < i {
                    assert(self.grid.sheets@[k].id != sheet_pos.sheet_id);
                }
            }
            assert(sheet.wf());
        }
        let value = match sheet.display_value(sheet_pos.pos()) {
            Some(v) => v,
            None => CellValue::Blank,
        };
        Ok(Spanned { span, inner: value })
    }

    /// Going row by row, the cell `dx` columns and `dy` rows from the first
    /// corner of the rectangle is the first that cannot be read, and `e` is
    /// the error of reading it.
    pub open spec fn unreadable_first(
        self,
        sheet_rect: SheetRect,
        span: Span,
        dx: int,
        dy: int,
        e: RunError,
    ) -> bool {
        &&& 0 <= dx < sheet_rect.spec_rect().spec_width()
        &&& 0 <= dy < sheet_rect.spec_rect().spec_height()
        &&& self.spec_get_cell(cell_of(sheet_rect, dx, dy), span) == Err::<CellValue, RunError>(e)
        &&& forall|cx: int, cy: int|
            0 <= cx < sheet_rect.spec_rect().spec_width() && (0 <= cy < dy || (cy == dy && 0 <= cx
                < dx)) ==> (#[trigger] self.spec_get_cell(cell_of(sheet_rect, cx, cy), span)) is Ok
    }

    /// The values of the cells of a rectangle as an array, row by row. A
    /// rectangle of more than [`CELL_RANGE_LIMIT`] cells is refused. The
    /// first cell, going row by row, that cannot be read ends the evaluation
    /// with its error; every cell read until then is recorded as accessed.
    pub fn get_cell_array(&mut self, sheet_rect: SheetRect, span: Span) -> (r: CodeResult<
        Spanned<Array>,
    >)
        requires
            old(self).grid.wf(),
            sheet_rect.wf(),
        ensures
            final(self).grid == old(self).grid,
            final(self).sheet_pos == old(self).sheet_pos,
            old(self).accessed().subset_of(final(self).accessed()),
            match r {
                Ok(found) => {
                    &&& rect_cells(sheet_rect) <= CELL_RANGE_LIMIT
                    &&& found.span == span
                    &&& found.inner.wf()
                    &&& found.inner.spec_size().w == sheet_rect.spec_rect().spec_width()
                    &&& found.inner.spec_size().h == sheet_rect.spec_rect().spec_height()
                    &&& forall|dx: int, dy: int|
                        0 <= dx < found.inner.spec_size().w && 0 <= dy < found.inner.spec_size().h
                            ==> old(self).spec_get_cell(cell_of(sheet_rect, dx, dy), span) == Ok::<
                            CellValue,
                            RunError,
                        >(#[trigger] found.inner.cell(dx, dy))
                    &&& forall|dx: int, dy: int|
                        0 <= dx < found.inner.spec_size().w && 0 <= dy < found.inner.spec_size().h
                            ==> final(self).accessed().contains(
                            #[trigger] single_rect(cell_of(sheet_rect, dx, dy)),
                        )
                },
                Err(e) => {
                    ||| rect_cells(sheet_rect) > CELL_RANGE_LIMIT && e
                        == RunErrorMsg::ArrayTooBig.spec_with_span(span) && final(self).accessed()
                        == old(self).accessed()
                    ||| rect_cells(sheet_rect) <= CELL_RANGE_LIMIT && exists|dx: int, dy: int|
                        #[trigger] old(self).unreadable_first(sheet_rect, span, dx, dy, e)
                },
            },
    {
        let w: i128 = (sheet_rect.max.x as i128) - (sheet_rect.min.x as i128) + 1;
        let h: i128 = (sheet_rect.max.y as i128) - (sheet_rect.min.y as i128) + 1;
        if w > CELL_RANGE_LIMIT as i128 || h > CELL_RANGE_LIMIT as i128 {
            proof {
                assert(w * h > CELL_RANGE_LIMIT) by (nonlinear_arith)
                    requires
                        w >= 1,
                        h >= 1,
                        w > CELL_RANGE_LIMIT || h > CELL_RANGE_LIMIT,
                ;
            }
            return Err(RunErrorMsg::ArrayTooBig.with_span(span));
        }
        assert(w * h <= 1_000_000 * 1_000_000) by (nonlinear_arith)
            requires
                1 <= w <= 1_000_000,
                1 <= h <= 1_000_000,
        ;
        if w * h > CELL_RANGE_LIMIT as i128 {
            return Err(RunErrorMsg::ArrayTooBig.with_span(span));
        }
        let size = ArraySize { w: w as u32, h: h as u32 };
        let ghost start = *self;
        let mut values: Vec<CellValue> = Vec::new();
        let mut dy: u32 = 0;
        while dy < size.h
            invariant
                dy <= size.h,
                size.wf(),
                size.w == sheet_rect.spec_rect().spec_width(),
                size.h == sheet_rect.spec_rect().spec_height(),
                sheet_rect.wf(),
                rect_cells(sheet_rect) <= CELL_RANGE_LIMIT,
                start == *old(self),
                start.grid.wf(),
                self.grid == start.grid,
                self.sheet_pos == start.sheet_pos,
                start.accessed().subset_of(self.accessed()),
                values@.len() == dy * size.w,
                forall|cx: int, cy: int|
                    0 <= cx < size.w && 0 <= cy < dy ==> start.spec_get_cell(
                        cell_of(sheet_rect, cx, cy),
                        span,
                    ) == Ok::<CellValue, RunError>(#[trigger] values@[size.flat_index(cx, cy)]),
                forall|cx: int, cy: int|
                    0 <= cx < size.w && 0 <= cy < dy ==> self.accessed().contains(
                        #[trigger] single_rect(cell_of(sheet_rect, cx, cy)),
                    ),
            decreases size.h - dy,
        {
            let mut dx: u32 = 0;
            while dx < size.w
                invariant
                    dx <= size.w,
                    dy < size.h,
                    size.wf(),
                    size.w == sheet_rect.spec_rect().spec_width(),
                    size.h == sheet_rect.spec_rect().spec_height(),
                    sheet_rect.wf(),
                    rect_cells(sheet_rect) <= CELL_RANGE_LIMIT,
                    start == *old(self),
                    start.grid.wf(),
                    self.grid == start.grid,
                    self.sheet_pos == start.sheet_pos,
                    start.accessed().subset_of(self.accessed()),
                    values@.len() == dy * size.w + dx,
                    forall|cx: int, cy: int|
                        0 <= cx < size.w && 0 <= cy < dy ==> start.spec_get_cell(
                            cell_of(sheet_rect, cx, cy),
                            span,
                        ) == Ok::<CellValue, RunError>(#[trigger] values@[size.flat_index(cx, cy)]),
                    forall|cx: int|
                        0 <= cx < dx ==> start.spec_get_cell(
                            cell_of(sheet_rect, cx, dy as int),
                            span,
                        ) == Ok::<CellValue, RunError>(
                            #[trigger] values@[size.flat_index(cx, dy as int)],
                        ),
                    forall|cx: int, cy: int|
                        0 <= cx < size.w && 0 <= cy < dy ==> self.accessed().contains(
                            #[trigger] single_rect(cell_of(sheet_rect, cx, cy)),
                        ),
                    forall|cx: int|
                        0 <= cx < dx ==> self.accessed().contains(
                            #[trigger] single_rect(cell_of(sheet_rect, cx, dy as int)),
                        ),
                decreases size.w - dx,
            {
                let at = SheetPos {
                    x: ((sheet_rect.min.x as i128) + (dx as i128)) as i64,
                    y: ((sheet_rect.min.y as i128) + (dy as i128)) as i64,
                    sheet_id: sheet_rect.sheet_id,
                };
                assert(at == cell_of(sheet_rect, dx as int, dy as int));
                let ghost before = values@;
                let ghost mid = *self;
                assert(mid.spec_get_cell(at, span) == start.spec_get_cell(at, span));
                match self.get_cell(at, span) {
                    Ok(v) => {
                        values.push(v.inner);
                        proof {
                            assert forall|cx: int, cy: int|
                                0 <= cx < size.w && 0 <= cy < dy implies start.spec_get_cell(
                                cell_of(sheet_rect, cx, cy),
                                span,
                            ) == Ok::<CellValue, RunError>(
                                #[trigger] values@[size.flat_index(cx, cy)],
                            ) by {
                                lemma_index_before_row(size, cx, cy, dy as int);
                                assert(values@[size.flat_index(cx, cy)] == before[size.flat_index(
                                    cx,
                                    cy,
                                )]);
                            }
                            assert forall|cx: int| 0 <= cx < dx + 1 implies start.spec_get_cell(
                                cell_of(sheet_rect, cx, dy as int),
                                span,
                            ) == Ok::<CellValue, RunError>(
                                #[trigger] values@[size.flat_index(cx, dy as int)],
                            ) by {
                                if cx < dx {
                                    assert(values@[size.flat_index(cx, dy as int)]
                                        == before[size.flat_index(cx, dy as int)]);
                                }
                            }
                            assert forall|cx: int, cy: int|
                                0 <= cx < size.w && 0 <= cy < dy implies self.accessed().contains(
                                #[trigger] single_rect(cell_of(sheet_rect, cx, cy)),
                            ) by {
                                assert(mid.accessed().contains(
                                    single_rect(cell_of(sheet_rect, cx, cy)),
                                ));
                            }
                            assert forall|cx: int| 0 <= cx < dx + 1 implies self.accessed().contains(
                            #[trigger] single_rect(cell_of(sheet_rect, cx, dy as int))) by {
                                if cx < dx {
                                    assert(mid.accessed().contains(
                                        single_rect(cell_of(sheet_rect, cx, dy as int)),
                                    ));
                                }
                            }
                        }
                    },
                    Err(e) => {
                        proof {
                            assert(start.spec_get_cell(
                                cell_of(sheet_rect, dx as int, dy as int),
                                span,
                            ) == Err::<CellValue, RunError>(e));
                            assert forall|cx: int, cy: int|
                                0 <= cx < sheet_rect.spec_rect().spec_width() && (0 <= cy < dy || (
                                cy == dy && 0 <= cx < dx)) implies (#[trigger] start.spec_get_cell(
                                cell_of(sheet_rect, cx, cy),
                                span,
                            )) is Ok by {
                                assert(start.spec_get_cell(cell_of(sheet_rect, cx, cy), span)
                                    == Ok::<CellValue, RunError>(
                                    values@[size.flat_index(cx, cy)],
                                ));
                            }
                            assert(start.unreadable_first(
                                sheet_rect,
                                span,
                                dx as int,
                                dy as int,
                                e,
                            ));
                        }
                        return Err(e);
                    },
                }
                dx += 1;
            }
            proof {
                assert((dy + 1) * size.w == dy * size.w + size.w) by (nonlinear_arith);
            }
            dy += 1;
        }
        assert(size.h * size.w == size.w * size.h) by (nonlinear_arith);
        match Array::new_row_major(size, values) {
            Ok(a) => Ok(Spanned { span, inner: a }),
            Err(e) => Err(e),
        }
    }

    /// Evaluates a function once for each corresponding set of values from
    /// `arrays`.
    ///
    /// Many functions work on arrays by zipping the arrays and then mapping
    /// the function across corresponding sets of inputs. The operands are
    /// brought to the smallest shape that the shape of each of them divides
    /// along both axes, a shorter operand being repeated; an operand that is
    /// no array counts as a single cell. Where that shape is a single cell,
    /// the result is a single value, not an array of one cell. Operands
    /// that cannot be brought to one shape are refused before the function
    /// is called at all, and a tuple among them before any cell is looked
    /// at. The first error that the function returns, going row by row, ends
    /// the evaluation.
    pub fn zip_map<F: Fn(&Vec<Spanned<CellValue>>) -> CodeResult<CellValue>>(
        &mut self,
        arrays: &Vec<Spanned<Value>>,
        f: F,
    ) -> (r: CodeResult<Value>)
        requires
            operands_wf(arrays@),
            forall|args: Vec<Spanned<CellValue>>|
                args@.len() == arrays@.len() ==> #[trigger] f.requires((&args,)),
        ensures
            *final(self) == *old(self),
            match r {
                Ok(Value::Single(v)) => is_least_common_len(arrays@, Axis::X, 1)
                    && is_least_common_len(arrays@, Axis::Y, 1) && no_tuple(arrays@) && applied(
                    f,
                    arrays@,
                    0,
                    0,
                    Ok(v),
                ),
                Ok(Value::Array(a)) => {
                    &&& a.wf()
                    &&& a.spec_size() != (ArraySize { w: 1, h: 1 })
                    &&& is_least_common_len(arrays@, Axis::X, a.spec_size().w as int)
                    &&& is_least_common_len(arrays@, Axis::Y, a.spec_size().h as int)
                    &&& no_tuple(arrays@)
                    &&& forall|x: int, y: int|
                        0 <= x < a.spec_size().w && 0 <= y < a.spec_size().h ==> applied(
                            f,
                            arrays@,
                            x,
                            y,
                            Ok(#[trigger] a.cell(x, y)),
                        )
                },
                Ok(Value::Tuple(_)) => false,
                Err(e) => zip_failed(f, arrays@, e),
            },
            r is Err ==> {
                ||| no_common_len(arrays@, Axis::X)
                ||| no_common_len(arrays@, Axis::Y)
                ||| !no_tuple(arrays@)
                ||| exists|args: Vec<Spanned<CellValue>>, out: CodeResult<CellValue>|
                    #[trigger] f.ensures((&args,), out) && out is Err
            },
    {
        let size = Value::common_array_size(arrays)?;
        proof {
            assert(is_common_len(arrays@, Axis::X, size.w as int));
            assert(is_common_len(arrays@, Axis::Y, size.h as int));
            assert(!no_common_size(arrays@));
        }
        if size.w == 1 && size.h == 1 {
            let args = match operand_cells(arrays, 0, 0) {
                Ok(args) => args,
                Err(e) => {
                    proof {
                        lemma_tuple_error(arrays@, e);
                    }
                    return Err(e);
                },
            };
            match f(&args) {
                Ok(v) => {
                    return Ok(Value::Single(v));
                },
                Err(e) => {
                    assert(applied(f, arrays@, 0, 0, Err(e)));
                    assert(fails_first_at(f, arrays@, 1, 0, 0, e));
                    return Err(e);
                },
            }
        }
        let mut values: Vec<CellValue> = Vec::new();
        let mut y: u32 = 0;
        while y < size.h
            invariant
                y <= size.h,
                size.wf(),
                !no_common_size(arrays@),
                is_least_common_len(arrays@, Axis::X, size.w as int),
                operands_wf(arrays@),
                forall|args: Vec<Spanned<CellValue>>|
                    args@.len() == arrays@.len() ==> #[trigger] f.requires((&args,)),
                values@.len() == y * size.w,
                y > 0 ==> no_tuple(arrays@),
                forall|cx: int, cy: int|
                    0 <= cx < size.w && 0 <= cy < y ==> applied(
                        f,
                        arrays@,
                        cx,
                        cy,
                        Ok(#[trigger] values@[size.flat_index(cx, cy)]),
                    ),
            decreases size.h - y,
        {
            let mut x: u32 = 0;
            while x < size.w
                invariant
                    x <= size.w,
                    y < size.h,
                    size.wf(),
                    !no_common_size(arrays@),
                    is_least_common_len(arrays@, Axis::X, size.w as int),
                    operands_wf(arrays@),
                    forall|args: Vec<Spanned<CellValue>>|
                        args@.len() == arrays@.len() ==> #[trigger] f.requires((&args,)),
                    values@.len() == y * size.w + x,
                    y > 0 || x > 0 ==> no_tuple(arrays@),
                    forall|cx: int, cy: int|
                        0 <= cx < size.w && 0 <= cy < y ==> applied(
                            f,
                            arrays@,
                            cx,
                            cy,
                            Ok(#[trigger] values@[size.flat_index(cx, cy)]),
                        ),
                    forall|cx: int|
                        0 <= cx < x ==> applied(
                            f,
                            arrays@,
                            cx,
                            y as int,
                            Ok(#[trigger] values@[size.flat_index(cx, y as int)]),
                        ),
                decreases size.w - x,
            {
                let args = match operand_cells(arrays, x, y) {
                    Ok(args) => args,
                    Err(e) => {
                        proof {
                            lemma_tuple_error(arrays@, e);
                        }
                        return Err(e);
                    },
                };
                let ghost before = values@;
                match f(&args) {
                    Ok(v) => {
                        values.push(v);
                        proof {
                            assert(applied(f, arrays@, x as int, y as int, Ok(v)));
                            assert forall|cx: int, cy: int|
                                0 <= cx < size.w && 0 <= cy < y implies applied(
                                f,
                                arrays@,
                                cx,
                                cy,
                                Ok(#[trigger] values@[size.flat_index(cx, cy)]),
                            ) by {
                                lemma_index_before_row(size, cx, cy, y as int);
                                assert(values@[size.flat_index(cx, cy)] == before[size.flat_index(
                                    cx,
                                    cy,
                                )]);
                            }
                            assert forall|cx: int| 0 <= cx < x + 1 implies applied(
                                f,
                                arrays@,
                                cx,
                                y as int,
                                Ok(#[trigger] values@[size.flat_index(cx, y as int)]),
                            ) by {
                                if cx < x {
                                    assert(values@[size.flat_index(cx, y as int)]
                                        == before[size.flat_index(cx, y as int)]);
                                }
                            }
                        }
                    },
                    Err(e) => {
                        proof {
                            assert(applied(f, arrays@, x as int, y as int, Err(e)));
                            assert forall|cx: int, cy: int|
                                0 <= cx < size.w && (0 <= cy < y || (cy == y && 0 <= cx < x))
                                implies #[trigger] yields_at(f, arrays@, cx, cy) by {
                                assert(applied(
                                    f,
                                    arrays@,
                                    cx,
                                    cy,
                                    Ok(values@[size.flat_index(cx, cy)]),
                                ));
                            }
                            assert(fails_first_at(
                                f,
                                arrays@,
                                size.w as int,
                                x as int,
                                y as int,
                                e,
                            ));
                        }
                        return Err(e);
                    },
                }
                x += 1;
            }
            proof {
                assert((y + 1) * size.w == y * size.w + size.w) by (nonlinear_arith);
            }
            y += 1;
        }
        assert(size.h * size.w == size.w * size.h) by (nonlinear_arith);
        match Array::new_row_major(size, values) {
            Ok(a) => {
                proof {
                    assert forall|cx: int, cy: int|
                        0 <= cx < a.spec_size().w && 0 <= cy < a.spec_size().h implies applied(
                        f,
                        arrays@,
                        cx,
                        cy,
                        Ok(#[trigger] a.cell(cx, cy)),
                    ) by {
                        assert(a.cell(cx, cy) == values@[size.flat_index(cx, cy)]);
                    }
                }
                Ok(Value::Array(a))
            },
            Err(e) => Err(e),
        }
    }
}

/// The number of cells of a rectangle.
pub open spec fn rect_cells(rect: SheetRect) -> int {
    rect.spec_rect().spec_width() * rect.spec_rect().spec_height()
}

/// The cell `dx` columns and `dy` rows from the first corner of a rectangle.
pub open spec fn cell_of(rect: SheetRect, dx: int, dy: int) -> SheetPos {
    SheetPos { x: (rect.min.x + dx) as i64, y: (rect.min.y + dy) as i64, sheet_id: rect.sheet_id }
}

/// The rectangle of one cell.
pub open spec fn single_rect(at: SheetPos) -> SheetRect {
    SheetRect { min: at.spec_pos(), max: at.spec_pos(), sheet_id: at.sheet_id }
}

/// A formula that reads its own cell gets the error of a circular reference,
/// whatever the grid holds.
pub proof fn lemma_own_cell_is_circular(ctx: Ctx, span: Span)
    ensures
        ctx.spec_get_cell(ctx.sheet_pos, span) == Err::<CellValue, RunError>(
            circular_reference(span),
        ),
{
}

/// A row of `w` cells and a column of `h` cells are brought to the shape of
/// `w` by `h` cells, and at `(x, y)` offer the row's cell `x` and the
/// column's cell `y`.
pub proof fn lemma_row_with_column(operands: Seq<Spanned<Value>>, row: Array, column: Array)
    requires
        operands.len() == 2,
        operands[0].inner == Value::Array(row),
        operands[1].inner == Value::Array(column),
        row.wf(),
        column.wf(),
        row.spec_size().h == 1,
        column.spec_size().w == 1,
    ensures
        is_least_common_len(operands, Axis::X, row.spec_size().w as int),
        is_least_common_len(operands, Axis::Y, column.spec_size().h as int),
        forall|x: int, y: int|
            0 <= x < row.spec_size().w && 0 <= y < column.spec_size().h ==> #[trigger] cells_at(
                operands,
                x,
                y,
            ) == seq![
                Spanned { span: operands[0].span, inner: row.cell(x, 0) },
                Spanned { span: operands[1].span, inner: column.cell(0, y) },
            ],
{
    let w = row.spec_size().w as int;
    let h = column.spec_size().h as int;
    assert(is_common_len(operands, Axis::X, w)) by {
        assert(w % w == 0) by (nonlinear_arith)
            requires
                w > 0,
        ;
        assert(w % 1 == 0);
    }
    assert(is_common_len(operands, Axis::Y, h)) by {
        assert(h % h == 0) by (nonlinear_arith)
            requires
                h > 0,
        ;
        assert(h % 1 == 0);
    }
    assert forall|m: int| 0 < m < w implies !#[trigger] is_common_len(operands, Axis::X, m) by {
        assert(m % w == m) by (nonlinear_arith)
            requires
                0 < m < w,
        ;
        assert(crate::values::array::len_along(operands[0].inner, Axis::X) == w);
    }
    assert forall|m: int| 0 < m < h implies !#[trigger] is_common_len(operands, Axis::Y, m) by {
        assert(m % h == m) by (nonlinear_arith)
            requires
                0 < m < h,
        ;
        assert(crate::values::array::len_along(operands[1].inner, Axis::Y) == h);
    }
    assert forall|x: int, y: int| 0 <= x < w && 0 <= y < h implies #[trigger] cells_at(
        operands,
        x,
        y,
    ) == seq![
        Spanned { span: operands[0].span, inner: row.cell(x, 0) },
        Spanned { span: operands[1].span, inner: column.cell(0, y) },
    ] by {
        assert(x % w == x) by (nonlinear_arith)
            requires
                0 <= x < w,
        ;
        assert(y % h == y) by (nonlinear_arith)
            requires
                0 <= y < h,
        ;
        assert(y % 1 == 0);
        assert(x % 1 == 0);
        assert(cells_at(operands, x, y) =~= seq![
            Spanned { span: operands[0].span, inner: row.cell(x, 0) },
            Spanned { span: operands[1].span, inner: column.cell(0, y) },
        ]);
    }
}

/// A cell of an earlier row comes before the cells of row `y`.
proof fn lemma_index_before_row(size: ArraySize, cx: int, cy: int, y: int)
    requires
        0 <= cx < size.w,
        0 <= cy < y,
    ensures
        0 <= size.flat_index(cx, cy) < y * size.w,
{
    assert(cx + cy * size.w < y * size.w) by (nonlinear_arith)
        requires
            0 <= cx < size.w,
            0 <= cy < y,
    ;
    assert(0 <= cx + cy * size.w) by (nonlinear_arith)
        requires
            0 <= cx,
            0 <= cy,
            size.w >= 0,
    ;
}

} // verus!
