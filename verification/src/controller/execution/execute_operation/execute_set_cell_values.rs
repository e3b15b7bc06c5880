//! Setting the values and the formatting of the cells of a rectangle.

use crate::grid::formatting::CellFormat;
use crate::grid::sheet::Sheet;
use crate::pos::Pos;
use crate::rect::Rect;
use crate::values::array::{lemma_flat_index_in_range, Array, ArraySize};
use crate::values::CellValue;
use vstd::prelude::*;

verus! {

/// What a cell holds when it is given `value`: nothing where the value is
/// blank.
pub open spec fn held(value: CellValue) -> Option<CellValue> {
    if value == CellValue::Blank {
        None
    } else {
        Some(value)
    }
}

/// What a cell holds as a value: blank where it holds nothing.
pub open spec fn value_of(cell: Option<CellValue>) -> CellValue {
    match cell {
        Some(v) => v,
        None => CellValue::Blank,
    }
}

/// The rectangle has the size of the array.
pub open spec fn rect_fits(rect: Rect, size: ArraySize) -> bool {
    rect.wf() && rect.spec_width() == size.w && rect.spec_height() == size.h
}

/// `after` is `before` with the cells of `rect` given the values of the
/// array, cell by cell: a blank value clears its cell.
pub open spec fn values_set(before: Sheet, rect: Rect, values: Array, after: Sheet) -> bool {
    &&& forall|p: Pos|
        #[trigger] after.cell(p) == if rect.spec_contains(p) {
            held(values.cell(p.x - rect.min.x, p.y - rect.min.y))
        } else {
            before.cell(p)
        }
    &&& forall|p: Pos| #[trigger] after.format_model(p) == before.format_model(p)
    &&& after.same_meta(before)
}

/// `old_values` holds what the cells of `rect` held in `before`, blank for
/// a cell that held nothing.
pub open spec fn values_kept(before: Sheet, rect: Rect, old_values: Array) -> bool {
    &&& old_values.wf()
    &&& rect_fits(rect, old_values.spec_size())
    &&& forall|dx: int, dy: int|
        0 <= dx < old_values.spec_size().w && 0 <= dy < old_values.spec_size().h
            ==> #[trigger] old_values.cell(dx, dy) == value_of(
            before.cell(Pos { x: (rect.min.x + dx) as i64, y: (rect.min.y + dy) as i64 }),
        )
}

/// Whether the rectangle has the size given.
pub fn fits(rect: &Rect, size: ArraySize) -> (b: bool)
    ensures
        b == rect_fits(*rect, size),
{
    rect.min.x <= rect.max.x && rect.min.y <= rect.max.y && (rect.max.x as i128) - (
    rect.min.x as i128) + 1 == size.w as i128 && (rect.max.y as i128) - (rect.min.y as i128) + 1
        == size.h as i128
}

/// Gives the cells of `rect` the values of the array and returns what they
/// held before. The bounds are computed anew.
pub fn set_values(sheet: &mut Sheet, rect: Rect, values: &Array) -> (old_values: Array)
    requires
        old(sheet).wf(),
        values.wf(),
        rect_fits(rect, values.spec_size()),
    ensures
        final(sheet).wf(),
        final(sheet).bounds_current(),
        values_set(*old(sheet), rect, *values, *final(sheet)),
        values_kept(*old(sheet), rect, old_values),
{
    let size = values.size();
    let ghost start = *sheet;
    let mut kept: Vec<CellValue> = Vec::new();
    let mut dy: u32 = 0;
    while dy < size.h
        invariant
            dy <= size.h,
            size == values.spec_size(),
            values.wf(),
            rect_fits(rect, size),
            sheet.wf(),
            start.wf(),
            start == *old(sheet),
            sheet.same_meta(start),
            kept@.len() == dy * size.w,
            forall|p: Pos| #[trigger] sheet.format_model(p) == start.format_model(p),
            forall|p: Pos|
                #[trigger] sheet.cell(p) == if rect.spec_contains(p) && p.y - rect.min.y < dy {
                    held(values.cell(p.x - rect.min.x, p.y - rect.min.y))
                } else {
                    start.cell(p)
                },
            forall|cx: int, cy: int|
                0 <= cx < size.w && 0 <= cy < dy ==> #[trigger] kept@[size.flat_index(cx, cy)]
                    == value_of(
                    start.cell(Pos { x: (rect.min.x + cx) as i64, y: (rect.min.y + cy) as i64 }),
                ),
        decreases size.h - dy,
    {
        let mut dx: u32 = 0;
        while dx < size.w
            invariant
                dx <= size.w,
                dy < size.h,
                size == values.spec_size(),
                values.wf(),
                rect_fits(rect, size),
                sheet.wf(),
                start.wf(),
                start == *old(sheet),
                sheet.same_meta(start),
                kept@.len() == dy * size.w + dx,
                forall|p: Pos| #[trigger] sheet.format_model(p) == start.format_model(p),
                forall|p: Pos|
                    #[trigger] sheet.cell(p) == if rect.spec_contains(p) && (p.y - rect.min.y < dy
                        || (p.y - rect.min.y == dy && p.x - rect.min.x < dx)) {
                        held(values.cell(p.x - rect.min.x, p.y - rect.min.y))
                    } else {
                        start.cell(p)
                    },
                forall|cx: int, cy: int|
                    0 <= cx < size.w && 0 <= cy < dy ==> #[trigger] kept@[size.flat_index(cx, cy)]
                        == value_of(
                        start.cell(
                            Pos { x: (rect.min.x + cx) as i64, y: (rect.min.y + cy) as i64 },
                        ),
                    ),
                forall|cx: int|
                    0 <= cx < dx ==> #[trigger] kept@[size.flat_index(cx, dy as int)] == value_of(
                        start.cell(
                            Pos { x: (rect.min.x + cx) as i64, y: (rect.min.y + dy) as i64 },
                        ),
                    ),
            decreases size.w - dx,
        {
            let pos = Pos {
                x: ((rect.min.x as i128) + (dx as i128)) as i64,
                y: ((rect.min.y as i128) + (dy as i128)) as i64,
            };
            let value = match values.get(dx, dy) {
                Ok(v) => v.clone(),
                Err(_) => CellValue::Blank,
            };
            let ghost mid = *sheet;
            let ghost before = kept@;
            let previous = sheet.set_cell_value(pos, value);
            kept.push(
                match previous {
                    Some(v) => v,
                    None => CellValue::Blank,
                },
            );
            proof {
                assert forall|p: Pos| #[trigger] sheet.format_model(p) == start.format_model(p) by {
                    assert(mid.format_model(p) == start.format_model(p));
                }
                assert forall|p: Pos|
                    #[trigger] sheet.cell(p) == if rect.spec_contains(p) && (p.y - rect.min.y < dy
                        || (p.y - rect.min.y == dy && p.x - rect.min.x < dx + 1)) {
                        held(values.cell(p.x - rect.min.x, p.y - rect.min.y))
                    } else {
                        start.cell(p)
                    } by {
                    if p != pos {
                        assert(sheet.cell(p) == mid.cell(p));
                    }
                }
                assert forall|cx: int, cy: int| 0 <= cx < size.w && 0 <= cy < dy implies #[trigger] kept@[size.flat_index(
                    cx,
                    cy,
                )] == value_of(
                    start.cell(Pos { x: (rect.min.x + cx) as i64, y: (rect.min.y + cy) as i64 }),
                ) by {
                    lemma_row_before(size, cx, cy, dy as int);
                    assert(kept@[size.flat_index(cx, cy)] == before[size.flat_index(cx, cy)]);
                }
                assert forall|cx: int| 0 <= cx < dx + 1 implies #[trigger] kept@[size.flat_index(
                    cx,
                    dy as int,
                )] == value_of(
                    start.cell(Pos { x: (rect.min.x + cx) as i64, y: (rect.min.y + dy) as i64 }),
                ) by {
                    if cx < dx {
                        assert(kept@[size.flat_index(cx, dy as int)] == before[size.flat_index(
                            cx,
                            dy as int,
                        )]);
                    } else {
                        assert(mid.cell(pos) == start.cell(pos));
                    }
                }
            }
            dx += 1;
        }
        proof {
            assert((dy + 1) * size.w == dy * size.w + size.w) by (nonlinear_arith);
        }
        dy += 1;
    }
    let ghost done = *sheet;
    sheet.recalculate_bounds();
    proof {
        assert forall|p: Pos|
            #[trigger] sheet.cell(p) == if rect.spec_contains(p) {
                held(values.cell(p.x - rect.min.x, p.y - rect.min.y))
            } else {
                start.cell(p)
            } by {
            assert(sheet.cell(p) == done.cell(p));
        }
        assert forall|p: Pos| #[trigger] sheet.format_model(p) == start.format_model(p) by {
            assert(sheet.format_model(p) == done.format_model(p));
        }
    }
    assert(size.h * size.w == size.w * size.h) by (nonlinear_arith);
    match Array::new_row_major(size, kept) {
        Ok(a) => a,
        Err(_) => Array::from_cell(CellValue::Blank),
    }
}

/// A cell of an earlier row comes before the cells of row `y`.
pub proof fn lemma_row_before(size: ArraySize, cx: int, cy: int, y: int)
    requires
        0 <= cx < size.w,
        0 <= cy < y,
    ensures
        0 <= size.flat_index(cx, cy) < y * size.w,
{
    assert(cx + cy * size.w < y * size.w) by (nonlinear_arith)
        requires
            0 <= cx < size.w,
            0 <= cy < y,
    ;
    assert(0 <= cx + cy * size.w) by (nonlinear_arith)
        requires
            0 <= cx,
            0 <= cy,
            size.w >= 0,
    ;
}

} // verus!
