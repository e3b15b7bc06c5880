//! Compute and storage engine of a collaborative spreadsheet: sparse sheet
//! storage, atomic operations with undo, formula evaluation helpers,
//! sequence reconciliation and the versioned file schema.

pub mod controller;
pub mod formulas;
pub mod grid;
pub mod multiplayer;
pub mod order;
pub mod pos;
pub mod rect;
pub mod selection;
pub mod sql;
pub mod test_util;
pub mod text;
pub mod values;
