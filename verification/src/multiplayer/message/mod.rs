//! Messages between a client and the sequencer.

pub mod request;
