//! The widths of columns and heights of rows that differ from the default.

use std::collections::BTreeMap;
use vstd::prelude::*;

verus! {

broadcast use {vstd::std_specs::btree::group_btree_axioms, vstd::laws_cmp::group_laws_cmp};

/// Sizes by column and by row, each as the bits of a 64-bit float. A column
/// or row without an entry has the default size.
#[derive(Debug, PartialEq, Eq)]
pub struct SheetOffsets {
    pub column_widths: BTreeMap<i64, u64>,
    pub row_heights: BTreeMap<i64, u64>,
}

/// The entry of a map, if there is one.
pub open spec fn entry_of(map: Map<i64, u64>, key: i64) -> Option<u64> {
    if map.contains_key(key) {
        Some(map[key])
    } else {
        None
    }
}

/// The map with the entry set, or removed where `value` is `None`.
pub open spec fn with_entry(map: Map<i64, u64>, key: i64, value: Option<u64>) -> Map<i64, u64> {
    match value {
        Some(v) => map.insert(key, v),
        None => map.remove(key),
    }
}

fn set_entry(map: &mut BTreeMap<i64, u64>, key: i64, value: Option<u64>) -> (previous: Option<u64>)
    ensures
        previous == entry_of(old(map)@, key),
        final(map)@ == with_entry(old(map)@, key, value),
{
    match value {
        Some(v) => map.insert(key, v),
        None => map.remove(&key),
    }
}

impl SheetOffsets {
    pub fn new() -> (r: SheetOffsets)
        ensures
            r.column_widths@ == Map::<i64, u64>::empty(),
            r.row_heights@ == Map::<i64, u64>::empty(),
    {
        SheetOffsets { column_widths: BTreeMap::new(), row_heights: BTreeMap::new() }
    }

    /// The width of column `x`, where it is not the default.
    pub fn column_width(&self, x: i64) -> (r: Option<u64>)
        ensures
            r == entry_of(self.column_widths@, x),
    {
        match self.column_widths.get(&x) {
            Some(v) => Some(*v),
            None => None,
        }
    }

    /// The height of row `y`, where it is not the default.
    pub fn row_height(&self, y: i64) -> (r: Option<u64>)
        ensures
            r == entry_of(self.row_heights@, y),
    {
        match self.row_heights.get(&y) {
            Some(v) => Some(*v),
            None => None,
        }
    }

    /// Sets the width of column `x`, or makes it the default again. Returns
    /// the width before.
    pub fn set_column_width(&mut self, x: i64, width: Option<u64>) -> (previous: Option<u64>)
        ensures
            previous == entry_of(old(self).column_widths@, x),
            final(self).column_widths@ == with_entry(old(self).column_widths@, x, width),
            final(self).row_heights@ == old(self).row_heights@,
    {
        set_entry(&mut self.column_widths, x, width)
    }

    /// Sets the height of row `y`, or makes it the default again. Returns the
    /// height before.
    pub fn set_row_height(&mut self, y: i64, height: Option<u64>) -> (previous: Option<u64>)
        ensures
            previous == entry_of(old(self).row_heights@, y),
            final(self).row_heights@ == with_entry(old(self).row_heights@, y, height),
            final(self).column_widths@ == old(self).column_widths@,
    {
        set_entry(&mut self.row_heights, y, height)
    }
}

} // verus!
