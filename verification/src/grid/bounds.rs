//! Bounding rectangles of populated cells.

use crate::pos::Pos;
use crate::rect::Rect;
use vstd::prelude::*;

verus! {

/// A bounding rectangle as origin and extent.
#[derive(Debug, PartialEq, Eq, Structural)]
pub struct BoundsRect {
    pub x: i64,
    pub y: i64,
    pub width: u32,
    pub height: u32,
}

/// The bounds of a set of cells: nothing, or the smallest rectangle that
/// holds them all.
#[derive(Debug, Copy, Clone, PartialEq, Eq, Hash, Structural)]
pub enum GridBounds {
    Empty,
    NonEmpty(Rect),
}

impl Default for GridBounds {
    fn default() -> (r: Self)
        ensures
            r == GridBounds::Empty,
    {
        GridBounds::Empty
    }
}

impl GridBounds {
    /// Whether `pos` lies within the bounds.
    pub open spec fn covers(self, pos: Pos) -> bool {
        match self {
            GridBounds::Empty => false,
            GridBounds::NonEmpty(rect) => rect.spec_contains(pos),
        }
    }

    /// Empty, or a well-formed rectangle.
    pub open spec fn wf(self) -> bool {
        match self {
            GridBounds::Empty => true,
            GridBounds::NonEmpty(rect) => rect.wf(),
        }
    }

    /// The bounds after `pos` has been added.
    pub open spec fn spec_add(self, pos: Pos) -> GridBounds {
        match self {
            GridBounds::Empty => GridBounds::NonEmpty(Rect { min: pos, max: pos }),
            GridBounds::NonEmpty(rect) => GridBounds::NonEmpty(rect.spec_extend_to(pos)),
        }
    }

    /// The bounds after `rect` has been added.
    pub open spec fn spec_add_rect(self, rect: Rect) -> GridBounds {
        match self {
            GridBounds::Empty => GridBounds::NonEmpty(rect),
            GridBounds::NonEmpty(r) => GridBounds::NonEmpty(r.spec_union(rect)),
        }
    }

    /// The smallest bounds that hold both.
    pub open spec fn spec_merge(a: GridBounds, b: GridBounds) -> GridBounds {
        match (a, b) {
            (GridBounds::Empty, r) => r,
            (r, GridBounds::Empty) => r,
            (GridBounds::NonEmpty(a), GridBounds::NonEmpty(b)) => GridBounds::NonEmpty(
                a.spec_union(b),
            ),
        }
    }

    pub fn from_rect(rect: Rect) -> (r: GridBounds)
        ensures
            r == GridBounds::NonEmpty(rect),
    {
        GridBounds::NonEmpty(rect)
    }

    pub fn is_empty(&self) -> (b: bool)
        ensures
            b == (*self == GridBounds::Empty),
    {
        match self {
            GridBounds::Empty => true,
            GridBounds::NonEmpty(_) => false,
        }
    }

    pub fn clear(&mut self)
        ensures
            *final(self) == GridBounds::Empty,
    {
        *self = GridBounds::Empty;
    }

    pub fn add(&mut self, pos: Pos)
        ensures
            *final(self) == old(self).spec_add(pos),
    {
        match *self {
            GridBounds::Empty => {
                *self = GridBounds::NonEmpty(Rect::single_pos(pos));
            },
            GridBounds::NonEmpty(rect) => {
                let mut rect = rect;
                rect.extend_to(pos);
                *self = GridBounds::NonEmpty(rect);
            },
        }
    }

    pub fn add_rect(&mut self, rect: Rect)
        ensures
            *final(self) == old(self).spec_add_rect(rect),
    {
        match *self {
            GridBounds::Empty => {
                *self = GridBounds::NonEmpty(rect);
            },
            GridBounds::NonEmpty(r) => {
                *self = GridBounds::NonEmpty(r.union(&rect));
            },
        }
    }

    pub fn merge(a: Self, b: Self) -> (r: Self)
        ensures
            r == GridBounds::spec_merge(a, b),
    {
        match (a, b) {
            (GridBounds::Empty, r) => r,
            (r, GridBounds::Empty) => r,
            (GridBounds::NonEmpty(a), GridBounds::NonEmpty(b)) => GridBounds::NonEmpty(
                a.union(&b),
            ),
        }
    }

    pub fn to_bounds_rect(&self) -> (r: Option<BoundsRect>)
        requires
            *self matches GridBounds::NonEmpty(rect) ==> rect.fits_u32(),
        ensures
            *self == GridBounds::Empty ==> r is None,
            *self matches GridBounds::NonEmpty(rect) ==> r == Some(
                BoundsRect {
                    x: rect.min.x,
                    y: rect.min.y,
                    width: rect.spec_width() as u32,
                    height: rect.spec_height() as u32,
                },
            ),
    {
        match self {
            GridBounds::Empty => None,
            GridBounds::NonEmpty(rect) => Some(
                BoundsRect {
                    x: rect.min.x,
                    y: rect.min.y,
                    width: rect.width(),
                    height: rect.height(),
                },
            ),
        }
    }

    pub fn to_rect(&self) -> (r: Option<Rect>)
        ensures
            *self == GridBounds::Empty ==> r is None,
            *self matches GridBounds::NonEmpty(rect) ==> r == Some(rect),
    {
        match self {
            GridBounds::Empty => None,
            GridBounds::NonEmpty(rect) => Some(*rect),
        }
    }

    /// Widens the bounds to column `x`; empty bounds stay empty.
    pub fn extend_x(&mut self, x: i64)
        ensures
            *old(self) == GridBounds::Empty ==> *final(self) == GridBounds::Empty,
            *old(self) matches GridBounds::NonEmpty(rect) ==> *final(self) == GridBounds::NonEmpty(
                rect.spec_extend_x(x),
            ),
    {
        match *self {
            GridBounds::Empty => {},
            GridBounds::NonEmpty(rect) => {
                let mut rect = rect;
                rect.extend_x(x);
                *self = GridBounds::NonEmpty(rect);
            },
        }
    }

    /// Widens the bounds to row `y`; empty bounds stay empty.
    pub fn extend_y(&mut self, y: i64)
        ensures
            *old(self) == GridBounds::Empty ==> *final(self) == GridBounds::Empty,
            *old(self) matches GridBounds::NonEmpty(rect) ==> *final(self) == GridBounds::NonEmpty(
                rect.spec_extend_y(y),
            ),
    {
        match *self {
            GridBounds::Empty => {},
            GridBounds::NonEmpty(rect) => {
                let mut rect = rect;
                rect.extend_y(y);
                *self = GridBounds::NonEmpty(rect);
            },
        }
    }
}

/// Merged bounds cover exactly what either side covered or lies between them:
/// every cell of `a` and of `b` is covered, and merging is commutative.
pub proof fn lemma_merge_covers(a: GridBounds, b: GridBounds, pos: Pos)
    requires
        a.wf(),
        b.wf(),
    ensures
        GridBounds::spec_merge(a, b).wf(),
        a.covers(pos) || b.covers(pos) ==> GridBounds::spec_merge(a, b).covers(pos),
        GridBounds::spec_merge(a, b) == GridBounds::spec_merge(b, a),
{
}

} // verus!
