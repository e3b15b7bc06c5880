//! Grid files of version 1.5.

pub mod file;
pub mod schema;
