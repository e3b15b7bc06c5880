//! Evaluation of formulas.

pub mod cell_ref;
pub mod ctx;
pub mod functions;
