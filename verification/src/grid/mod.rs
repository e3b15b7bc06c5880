//! The grid: sheets, columns and their bounds.

pub mod borders;
pub mod bounds;
pub mod code;
pub mod column;
pub mod file;
pub mod formatting;
pub mod ids;
pub mod legacy;
pub mod offsets;
pub mod order_key;
pub mod sheet;
pub mod sheets;
pub mod track;

pub use sheets::Grid;
