//! Setting the formatting of the cells of a rectangle.

use crate::grid::formatting::CellFormat;
use crate::grid::sheet::Sheet;
use crate::pos::Pos;
use crate::rect::Rect;
use vstd::prelude::*;

verus! {

/// The place of the cell `p` of the rectangle, counting row by row.
pub open spec fn index_in(rect: Rect, p: Pos) -> int {
    (p.y - rect.min.y) * rect.spec_width() + (p.x - rect.min.x)
}

/// The rectangle has as many cells as there are changes.
pub open spec fn rect_holds(rect: Rect, n: int) -> bool {
    rect.wf() && rect.spec_width() * rect.spec_height() == n
}

/// A cell of the rectangle has its place among the cells of the rectangle.
pub proof fn lemma_index_in_range(rect: Rect, p: Pos)
    requires
        rect.wf(),
        rect.spec_contains(p),
    ensures
        0 <= index_in(rect, p) < rect.spec_width() * rect.spec_height(),
{
    let w = rect.spec_width();
    let h = rect.spec_height();
    let dx = p.x - rect.min.x;
    let dy = p.y - rect.min.y;
    assert(0 <= dy * w + dx < w * h) by (nonlinear_arith)
        requires
            0 <= dx < w,
            0 <= dy < h,
    ;
}

/// Two cells of the rectangle with the same place are the same cell.
pub proof fn lemma_index_in_injective(rect: Rect, p: Pos, q: Pos)
    requires
        rect.wf(),
        rect.spec_contains(p),
        rect.spec_contains(q),
        index_in(rect, p) == index_in(rect, q),
    ensures
        p == q,
{
    let w = rect.spec_width();
    let a = p.y - rect.min.y;
    let b = q.y - rect.min.y;
    let c = p.x - rect.min.x;
    let d = q.x - rect.min.x;
    assert(a == b) by (nonlinear_arith)
        requires
            a * w + c == b * w + d,
            0 <= c < w,
            0 <= d < w,
    ;
}

/// `after` is `before` with one formatting attribute of each cell of `rect`
/// changed as `formats` says, cell by cell.
pub open spec fn formats_set(before: Sheet, rect: Rect, formats: Seq<CellFormat>, after: Sheet) -> bool {
    &&& forall|p: Pos|
        #[trigger] after.format_model(p) == if rect.spec_contains(p) {
            before.format_model(p).with(formats[index_in(rect, p)])
        } else {
            before.format_model(p)
        }
    &&& forall|p: Pos| #[trigger] after.cell(p) == before.cell(p)
    &&& after.same_meta(before)
}

/// `previous` holds, for each cell of `rect`, the attribute that `formats`
/// changes there with the value that it had in `before`.
pub open spec fn formats_kept(
    before: Sheet,
    rect: Rect,
    formats: Seq<CellFormat>,
    previous: Seq<CellFormat>,
) -> bool {
    &&& previous.len() == formats.len()
    &&& forall|p: Pos|
        rect.spec_contains(p) ==> (#[trigger] previous[index_in(rect, p)]).same_attribute(
            formats[index_in(rect, p)],
        ) && before.format_model(p).agrees(previous[index_in(rect, p)])
}

/// Whether the rectangle has `n` cells.
pub fn holds(rect: &Rect, n: usize) -> (b: bool)
    ensures
        b == rect_holds(*rect, n as int),
{
    if rect.min.x > rect.max.x || rect.min.y > rect.max.y {
        return false;
    }
    let w: i128 = (rect.max.x as i128) - (rect.min.x as i128) + 1;
    let h: i128 = (rect.max.y as i128) - (rect.min.y as i128) + 1;
    let n = n as i128;
    if w > n || h > n {
        proof {
            assert(w * h != n) by (nonlinear_arith)
                requires
                    w >= 1,
                    h >= 1,
                    w > n || h > n,
            ;
        }
        return false;
    }
    assert(w * h <= 0xffff_ffff_ffff_ffff * 0xffff_ffff_ffff_ffff) by (nonlinear_arith)
        requires
            1 <= w <= 0xffff_ffff_ffff_ffff,
            1 <= h <= 0xffff_ffff_ffff_ffff,
    ;
    (w as u128) * (h as u128) == n as u128
}

/// Changes one formatting attribute of each cell of `rect` and returns the
/// attributes as they were. The bounds are computed anew.
pub fn set_formats(sheet: &mut Sheet, rect: Rect, formats: &Vec<CellFormat>) -> (previous: Vec<
    CellFormat,
>)
    requires
        old(sheet).wf(),
        rect_holds(rect, formats@.len() as int),
    ensures
        final(sheet).wf(),
        final(sheet).bounds_current(),
        formats_set(*old(sheet), rect, formats@, *final(sheet)),
        formats_kept(*old(sheet), rect, formats@, previous@),
{
    let ghost start = *sheet;
    let ghost w = rect.spec_width();
    let mut kept: Vec<CellFormat> = Vec::new();
    let mut x = rect.min.x;
    let mut y = rect.min.y;
    let mut i: usize = 0;
    while i < formats.len()
        invariant
            i <= formats@.len(),
            rect_holds(rect, formats@.len() as int),
            w == rect.spec_width(),
            sheet.wf(),
            start == *old(sheet),
            sheet.same_meta(start),
            kept@.len() == i,
            i < formats@.len() ==> rect.spec_contains(Pos { x, y }) && index_in(rect, Pos { x, y })
                == i,
            forall|p: Pos| #[trigger] sheet.cell(p) == start.cell(p),
            forall|p: Pos|
                #[trigger] sheet.format_model(p) == if rect.spec_contains(p) && index_in(rect, p)
                    < i {
                    start.format_model(p).with(formats@[index_in(rect, p)])
                } else {
                    start.format_model(p)
                },
            forall|p: Pos|
                rect.spec_contains(p) && index_in(rect, p) < i ==> (#[trigger] kept@[index_in(
                    rect,
                    p,
                )]).same_attribute(formats@[index_in(rect, p)]) && start.format_model(p).agrees(
                    kept@[index_in(rect, p)],
                ),
        decreases formats.len() - i,
    {
        let pos = Pos { x, y };
        let ghost mid = *sheet;
        let ghost before = kept@;
        let change = formats[i].duplicate();
        let was = sheet.set_format_cell(pos, change);
        kept.push(was);
        proof {
            assert forall|p: Pos| #[trigger] sheet.cell(p) == start.cell(p) by {
                assert(mid.cell(p) == start.cell(p));
            }
            assert forall|p: Pos|
                #[trigger] sheet.format_model(p) == if rect.spec_contains(p) && index_in(rect, p)
                    < i + 1 {
                    start.format_model(p).with(formats@[index_in(rect, p)])
                } else {
                    start.format_model(p)
                } by {
                if p == pos {
                    assert(mid.format_model(p) == start.format_model(p));
                } else {
                    assert(sheet.format_model(p) == mid.format_model(p));
                    if rect.spec_contains(p) && index_in(rect, p) == i {
                        lemma_index_in_injective(rect, p, pos);
                    }
                }
            }
            assert forall|p: Pos| rect.spec_contains(p) && index_in(rect, p) < i + 1 implies (
            #[trigger] kept@[index_in(rect, p)]).same_attribute(formats@[index_in(rect, p)])
                && start.format_model(p).agrees(kept@[index_in(rect, p)]) by {
                lemma_index_in_range(rect, p);
                if index_in(rect, p) < i {
                    assert(kept@[index_in(rect, p)] == before[index_in(rect, p)]);
                } else {
                    lemma_index_in_injective(rect, p, pos);
                    assert(mid.format_model(pos) == start.format_model(pos));
                }
            }
        }
        i += 1;
        if i < formats.len() {
            proof {
                assert(i < w * rect.spec_height());
                if x == rect.max.x {
                    assert(y < rect.max.y) by (nonlinear_arith)
                        requires
                            (y - rect.min.y) * w + (x - rect.min.x) + 1 < w * rect.spec_height(),
                            x - rect.min.x == w - 1,
                            w >= 1,
                            rect.spec_height() == rect.max.y - rect.min.y + 1,
                            y <= rect.max.y,
                    ;
                    assert((y + 1 - rect.min.y) * w + 0 == (y - rect.min.y) * w + (w - 1) + 1)
                        by (nonlinear_arith);
                }
            }
            if x == rect.max.x {
                x = rect.min.x;
                y = y + 1;
            } else {
                x = x + 1;
            }
        }
    }
    let ghost done = *sheet;
    sheet.recalculate_bounds();
    proof {
        assert forall|p: Pos|
            #[trigger] sheet.format_model(p) == if rect.spec_contains(p) {
                start.format_model(p).with(formats@[index_in(rect, p)])
            } else {
                start.format_model(p)
            } by {
            assert(sheet.format_model(p) == done.format_model(p));
            if rect.spec_contains(p) {
                lemma_index_in_range(rect, p);
            }
        }
        assert forall|p: Pos| #[trigger] sheet.cell(p) == start.cell(p) by {
            assert(sheet.cell(p) == done.cell(p));
        }
        assert forall|p: Pos| rect.spec_contains(p) implies (#[trigger] kept@[index_in(
            rect,
            p,
        )]).same_attribute(formats@[index_in(rect, p)]) && start.format_model(p).agrees(
            kept@[index_in(rect, p)],
        ) by {
            lemma_index_in_range(rect, p);
        }
    }
    kept
}

} // verus!
