//! Storage for the cells of an array, inline while the array is one cell.

use crate::values::CellValue;
use smallvec::SmallVec;
use vstd::prelude::*;

verus! {

/// The cells of an array, in the order they were pushed.
#[verifier::external_body]
#[derive(Debug, PartialEq, Eq)]
pub struct CellBuffer {
    inner: SmallVec<[CellValue; 1]>,
}

/// The cells that a buffer holds, first to last.
pub uninterp spec fn buffer_cells(buffer: CellBuffer) -> Seq<CellValue>;

impl View for CellBuffer {
    type V = Seq<CellValue>;

    open spec fn view(&self) -> Seq<CellValue> {
        buffer_cells(*self)
    }
}

impl Clone for CellBuffer {
    /// `SmallVec::clone`: a buffer with clones of the same cells in the same
    /// order.
    #[verifier::external_body]
    fn clone(&self) -> (r: Self)
        ensures
            buffer_cells(r) == buffer_cells(*self),
    {
        CellBuffer { inner: self.inner.clone() }
    }
}

impl CellBuffer {
    /// `SmallVec::new`: a buffer that holds nothing.
    #[verifier::external_body]
    pub(crate) fn new() -> (buffer: CellBuffer)
        ensures
            buffer_cells(buffer) == Seq::<CellValue>::empty(),
    {
        CellBuffer { inner: SmallVec::new() }
    }

    /// `SmallVec::push`: appends `value` behind the cells already held.
    #[verifier::external_body]
    pub(crate) fn push(&mut self, value: CellValue)
        ensures
            buffer_cells(*final(self)) == buffer_cells(*old(self)).push(value),
    {
        self.inner.push(value)
    }

    /// `SmallVec::len`: the number of cells held.
    #[verifier::external_body]
    pub(crate) fn len(&self) -> (n: usize)
        ensures
            n == buffer_cells(*self).len(),
    {
        self.inner.len()
    }

    /// Indexing a `SmallVec`: the cell at place `i`.
    #[verifier::external_body]
    pub(crate) fn get(&self, i: usize) -> (cell: &CellValue)
        requires
            i < buffer_cells(*self).len(),
        ensures
            *cell == buffer_cells(*self)[i as int],
    {
        &self.inner[i]
    }
}

} // verus!
