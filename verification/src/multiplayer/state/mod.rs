//! The state of the sequencer.

pub mod transaction_queue;
