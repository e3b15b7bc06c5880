//! Grid files of version 1.6.

pub mod file;
pub mod schema;
