//! The operations that change a grid.

pub mod code_cell;
pub mod operation;
