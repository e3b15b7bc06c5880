//! Rectangles of cells.

use crate::grid::ids::SheetId;
use crate::pos::{Pos, SheetPos};
use vstd::prelude::*;

verus! {

/// An inclusive rectangle of cells, from `min` to `max`.
#[derive(Clone, Copy, Debug, PartialEq, Eq, Hash, Structural)]
pub struct Rect {
    pub min: Pos,
    pub max: Pos,
}

pub open spec fn min_int(a: int, b: int) -> int {
    if a <= b {
        a
    } else {
        b
    }
}

pub open spec fn max_int(a: int, b: int) -> int {
    if a >= b {
        a
    } else {
        b
    }
}

fn min_i64(a: i64, b: i64) -> (r: i64)
    ensures
        r == min_int(a as int, b as int),
{
    if a <= b {
        a
    } else {
        b
    }
}

fn max_i64(a: i64, b: i64) -> (r: i64)
    ensures
        r == max_int(a as int, b as int),
{
    if a >= b {
        a
    } else {
        b
    }
}

impl Rect {
    /// `min` is not beyond `max` on either axis.
    pub open spec fn wf(self) -> bool {
        self.min.x <= self.max.x && self.min.y <= self.max.y
    }

    /// Whether `pos` lies inside the rectangle.
    pub open spec fn spec_contains(&self, pos: Pos) -> bool {
        self.min.x <= pos.x <= self.max.x && self.min.y <= pos.y <= self.max.y
    }

    /// Number of columns covered.
    pub open spec fn spec_width(self) -> int {
        self.max.x - self.min.x + 1
    }

    /// Number of rows covered.
    pub open spec fn spec_height(self) -> int {
        self.max.y - self.min.y + 1
    }

    /// Width and height both fit a `u32`.
    pub open spec fn fits_u32(self) -> bool {
        self.wf() && self.spec_width() <= u32::MAX && self.spec_height() <= u32::MAX
    }

    /// The smallest rectangle that holds both corners.
    pub open spec fn spec_new_span(a: Pos, b: Pos) -> Rect {
        Rect {
            min: Pos { x: min_int(a.x as int, b.x as int) as i64, y: min_int(a.y as int, b.y as int) as i64 },
            max: Pos { x: max_int(a.x as int, b.x as int) as i64, y: max_int(a.y as int, b.y as int) as i64 },
        }
    }

    /// The smallest rectangle that holds `self` and `pos`.
    pub open spec fn spec_extend_to(self, pos: Pos) -> Rect {
        Rect {
            min: Pos {
                x: min_int(self.min.x as int, pos.x as int) as i64,
                y: min_int(self.min.y as int, pos.y as int) as i64,
            },
            max: Pos {
                x: max_int(self.max.x as int, pos.x as int) as i64,
                y: max_int(self.max.y as int, pos.y as int) as i64,
            },
        }
    }

    /// The rectangle widened to reach column `x`.
    pub open spec fn spec_extend_x(self, x: i64) -> Rect {
        Rect {
            min: Pos { x: min_int(self.min.x as int, x as int) as i64, y: self.min.y },
            max: Pos { x: max_int(self.max.x as int, x as int) as i64, y: self.max.y },
        }
    }

    /// The rectangle widened to reach row `y`.
    pub open spec fn spec_extend_y(self, y: i64) -> Rect {
        Rect {
            min: Pos { x: self.min.x, y: min_int(self.min.y as int, y as int) as i64 },
            max: Pos { x: self.max.x, y: max_int(self.max.y as int, y as int) as i64 },
        }
    }

    /// The smallest rectangle that holds both rectangles.
    pub open spec fn spec_union(self, other: Rect) -> Rect {
        self.spec_extend_to(other.min).spec_extend_to(other.max)
    }

    /// Whether the two rectangles share a cell.
    pub open spec fn spec_intersects(&self, other: Rect) -> bool {
        !(other.max.x < self.min.x || other.min.x > self.max.x || other.max.y < self.min.y
            || other.min.y > self.max.y)
    }

    pub fn new_span(a: Pos, b: Pos) -> (r: Rect)
        ensures
            r == Rect::spec_new_span(a, b),
            r.wf(),
    {
        Rect {
            min: Pos { x: min_i64(a.x, b.x), y: min_i64(a.y, b.y) },
            max: Pos { x: max_i64(a.x, b.x), y: max_i64(a.y, b.y) },
        }
    }

    /// The rectangle spanned by the corners `(x0, y0)` and `(x1, y1)`.
    pub fn new(x0: i64, y0: i64, x1: i64, y1: i64) -> (r: Rect)
        ensures
            r == Rect::spec_new_span(Pos { x: x0, y: y0 }, Pos { x: x1, y: y1 }),
            r.wf(),
    {
        Rect::new_span(Pos { x: x0, y: y0 }, Pos { x: x1, y: y1 })
    }

    pub fn single_pos(pos: Pos) -> (r: Rect)
        ensures
            r == (Rect { min: pos, max: pos }),
            r.wf(),
    {
        Rect { min: pos, max: pos }
    }

    pub fn extend_to(&mut self, pos: Pos)
        ensures
            *final(self) == old(self).spec_extend_to(pos),
            old(self).wf() ==> final(self).wf(),
    {
        self.min.x = min_i64(self.min.x, pos.x);
        self.min.y = min_i64(self.min.y, pos.y);
        self.max.x = max_i64(self.max.x, pos.x);
        self.max.y = max_i64(self.max.y, pos.y);
    }

    pub fn extend_x(&mut self, x: i64)
        ensures
            *final(self) == old(self).spec_extend_x(x),
    {
        self.min.x = min_i64(self.min.x, x);
        self.max.x = max_i64(self.max.x, x);
    }

    pub fn extend_y(&mut self, y: i64)
        ensures
            *final(self) == old(self).spec_extend_y(y),
    {
        self.min.y = min_i64(self.min.y, y);
        self.max.y = max_i64(self.max.y, y);
    }

    pub fn union(&self, other: &Rect) -> (r: Rect)
        ensures
            r == self.spec_union(*other),
    {
        let mut r = *self;
        r.extend_to(other.min);
        r.extend_to(other.max);
        r
    }

    #[verifier::when_used_as_spec(spec_contains)]
    pub fn contains(&self, pos: Pos) -> (b: bool)
        ensures
            b == self.spec_contains(pos),
    {
        self.min.x <= pos.x && pos.x <= self.max.x && self.min.y <= pos.y && pos.y <= self.max.y
    }

    #[verifier::when_used_as_spec(spec_intersects)]
    pub fn intersects(&self, other: Rect) -> (b: bool)
        ensures
            b == self.spec_intersects(other),
    {
        !(other.max.x < self.min.x || other.min.x > self.max.x || other.max.y < self.min.y
            || other.min.y > self.max.y)
    }

    pub fn width(&self) -> (w: u32)
        requires
            self.fits_u32(),
        ensures
            w == self.spec_width(),
    {
        ((self.max.x as i128) - (self.min.x as i128) + 1) as u32
    }

    pub fn height(&self) -> (h: u32)
        requires
            self.fits_u32(),
        ensures
            h == self.spec_height(),
    {
        ((self.max.y as i128) - (self.min.y as i128) + 1) as u32
    }
}

/// The union holds every cell of both rectangles and stays well formed.
pub proof fn lemma_union_covers(a: Rect, b: Rect, pos: Pos)
    requires
        a.wf(),
        b.wf(),
    ensures
        a.spec_union(b).wf(),
        a.spec_contains(pos) || b.spec_contains(pos) ==> a.spec_union(b).spec_contains(pos),
{
}

/// An inclusive rectangle of cells on one sheet.
#[derive(Clone, Copy, Debug, PartialEq, Eq, Hash, Structural)]
pub struct SheetRect {
    pub min: Pos,
    pub max: Pos,
    pub sheet_id: SheetId,
}

impl SheetRect {
    /// The rectangle without its sheet.
    pub open spec fn spec_rect(&self) -> Rect {
        Rect { min: self.min, max: self.max }
    }

    pub open spec fn wf(self) -> bool {
        self.spec_rect().wf()
    }

    pub open spec fn spec_contains(&self, pos: SheetPos) -> bool {
        self.sheet_id == pos.sheet_id && self.spec_rect().spec_contains(pos.spec_pos())
    }

    pub open spec fn spec_intersects(&self, other: SheetRect) -> bool {
        self.sheet_id == other.sheet_id && self.spec_rect().spec_intersects(other.spec_rect())
    }

    #[verifier::when_used_as_spec(spec_rect)]
    pub fn rect(&self) -> (r: Rect)
        ensures
            r == self.spec_rect(),
    {
        Rect { min: self.min, max: self.max }
    }

    pub fn new_pos_span(a: Pos, b: Pos, sheet_id: SheetId) -> (r: SheetRect)
        ensures
            r.spec_rect() == Rect::spec_new_span(a, b),
            r.sheet_id == sheet_id,
            r.wf(),
    {
        let rect = Rect::new_span(a, b);
        SheetRect { min: rect.min, max: rect.max, sheet_id }
    }

    pub fn single_sheet_pos(pos: SheetPos) -> (r: SheetRect)
        ensures
            r == (SheetRect { min: pos.spec_pos(), max: pos.spec_pos(), sheet_id: pos.sheet_id }),
            r.wf(),
    {
        SheetRect { min: pos.pos(), max: pos.pos(), sheet_id: pos.sheet_id }
    }

    pub fn single_pos(pos: Pos, sheet_id: SheetId) -> (r: SheetRect)
        ensures
            r == (SheetRect { min: pos, max: pos, sheet_id }),
            r.wf(),
    {
        SheetRect { min: pos, max: pos, sheet_id }
    }

    pub fn from_rect(rect: Rect, sheet_id: SheetId) -> (r: SheetRect)
        ensures
            r == (SheetRect { min: rect.min, max: rect.max, sheet_id }),
    {
        SheetRect { min: rect.min, max: rect.max, sheet_id }
    }

    #[verifier::when_used_as_spec(spec_contains)]
    pub fn contains(&self, pos: SheetPos) -> (b: bool)
        ensures
            b == self.spec_contains(pos),
    {
        self.sheet_id.id == pos.sheet_id.id && self.rect().contains(pos.pos())
    }

    #[verifier::when_used_as_spec(spec_intersects)]
    pub fn intersects(&self, other: SheetRect) -> (b: bool)
        ensures
            b == self.spec_intersects(other),
    {
        self.sheet_id.id == other.sheet_id.id && self.rect().intersects(other.rect())
    }
}

} // verus!
