//! The functions that formulas can call.

pub mod args;
pub mod call;
pub mod string;
