//! References to cells in the source of a formula.

use crate::pos::Pos;
use vstd::prelude::*;

verus! {

/// One coordinate of a reference: counted from the cell that holds the
/// formula, or fixed.
#[derive(Clone, Copy, Debug, PartialEq, Eq, Hash, Structural)]
pub enum CellRefCoord {
    Relative(i64),
    Absolute(i64),
}

/// A reference to a cell, on the sheet named or on the sheet of the formula.
#[derive(Debug, PartialEq, Eq)]
pub struct CellRef {
    pub sheet: Option<String>,
    pub x: CellRefCoord,
    pub y: CellRefCoord,
}

/// A reference to a range of cells.
#[derive(Debug, PartialEq, Eq)]
#[allow(inconsistent_fields)]
pub enum RangeRef {
    RowRange { start: CellRefCoord, end: CellRefCoord },
    ColRange { start: CellRefCoord, end: CellRefCoord },
    CellRange { start: CellRef, end: CellRef },
    Cell { pos: CellRef },
}

impl CellRefCoord {
    /// The coordinate meant when the formula sits at `base`; none where it
    /// lies beyond the last coordinate.
    pub open spec fn spec_resolve_from(self, base: i64) -> Option<i64> {
        match self {
            CellRefCoord::Relative(delta) => if i64::MIN <= base + delta <= i64::MAX {
                Some((base + delta) as i64)
            } else {
                None
            },
            CellRefCoord::Absolute(coord) => Some(coord),
        }
    }

    pub fn resolve_from(&self, base: i64) -> (r: Option<i64>)
        ensures
            r == self.spec_resolve_from(base),
    {
        match self {
            CellRefCoord::Relative(delta) => base.checked_add(*delta),
            CellRefCoord::Absolute(coord) => Some(*coord),
        }
    }
}

impl CellRef {
    /// The position meant when the formula sits at `base`.
    pub open spec fn spec_resolve_from(self, base: Pos) -> Option<Pos> {
        match (self.x.spec_resolve_from(base.x), self.y.spec_resolve_from(base.y)) {
            (Some(x), Some(y)) => Some(Pos { x, y }),
            _ => None,
        }
    }

    pub fn resolve_from(&self, base: Pos) -> (r: Option<Pos>)
        ensures
            r == self.spec_resolve_from(base),
    {
        match (self.x.resolve_from(base.x), self.y.resolve_from(base.y)) {
            (Some(x), Some(y)) => Some(Pos { x, y }),
            _ => None,
        }
    }
}

} // verus!
