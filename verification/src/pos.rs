//! Cell coordinates.

use crate::grid::ids::SheetId;
use vstd::prelude::*;

verus! {

/// A cell position on a sheet. Coordinates may be negative.
#[derive(Clone, Copy, Debug, PartialEq, Eq, Hash, Structural)]
pub struct Pos {
    pub x: i64,
    pub y: i64,
}

/// A cell position together with the sheet it lies on.
#[derive(Clone, Copy, Debug, PartialEq, Eq, Hash, Structural)]
pub struct SheetPos {
    pub x: i64,
    pub y: i64,
    pub sheet_id: SheetId,
}

impl Pos {
    pub fn new(x: i64, y: i64) -> (pos: Pos)
        ensures
            pos == (Pos { x, y }),
    {
        Pos { x, y }
    }

    /// Attaches a sheet to the position.
    pub fn to_sheet_pos(&self, sheet_id: SheetId) -> (r: SheetPos)
        ensures
            r == (SheetPos { x: self.x, y: self.y, sheet_id }),
    {
        SheetPos { x: self.x, y: self.y, sheet_id }
    }
}

impl SheetPos {
    pub fn new(x: i64, y: i64, sheet_id: SheetId) -> (r: SheetPos)
        ensures
            r == (SheetPos { x, y, sheet_id }),
    {
        SheetPos { x, y, sheet_id }
    }

    /// The position without its sheet.
    pub open spec fn spec_pos(&self) -> Pos {
        Pos { x: self.x, y: self.y }
    }

    #[verifier::when_used_as_spec(spec_pos)]
    pub fn pos(&self) -> (r: Pos)
        ensures
            r == self.spec_pos(),
    {
        Pos { x: self.x, y: self.y }
    }
}

} // verus!
