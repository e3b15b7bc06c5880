//! The sequencer of a document: the server gives every transaction a place
//! in one order, keeps the transactions that are not yet part of a
//! checkpoint, and folds them into checkpoints.

pub mod file;
pub mod message;
pub mod state;
