//! The borders of cells.

use vstd::prelude::*;

verus! {

/// The line of one side of a cell.
#[derive(Debug, PartialEq, Eq)]
pub struct BorderStyle {
    pub color: String,
    pub line: String,
}

/// The borders of the four sides of the cell at `(x, y)`.
#[derive(Debug, PartialEq, Eq)]
pub struct CellBorders {
    pub x: i64,
    pub y: i64,
    pub top: Option<BorderStyle>,
    pub left: Option<BorderStyle>,
    pub bottom: Option<BorderStyle>,
    pub right: Option<BorderStyle>,
}

fn clone_style(style: &Option<BorderStyle>) -> (r: Option<BorderStyle>)
    ensures
        r == *style,
{
    match style {
        Some(s) => Some(BorderStyle { color: s.color.clone(), line: s.line.clone() }),
        None => None,
    }
}

impl Clone for CellBorders {
    fn clone(&self) -> (r: Self)
        ensures
            r == *self,
    {
        CellBorders {
            x: self.x,
            y: self.y,
            top: clone_style(&self.top),
            left: clone_style(&self.left),
            bottom: clone_style(&self.bottom),
            right: clone_style(&self.right),
        }
    }
}

/// A copy of a list of borders.
pub fn clone_borders(borders: &Vec<CellBorders>) -> (r: Vec<CellBorders>)
    ensures
        r@ == borders@,
{
    let mut out: Vec<CellBorders> = Vec::new();
    let mut i: usize = 0;
    while i < borders.len()
        invariant
            i <= borders@.len(),
            out@ == borders@.take(i as int),
        decreases borders.len() - i,
    {
        out.push(borders[i].clone());
        i += 1;
        assert(borders@.take(i as int) == borders@.take(i - 1).push(borders@[i - 1]));
    }
    assert(borders@.take(borders@.len() as int) == borders@);
    out
}

} // verus!
