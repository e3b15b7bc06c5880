//! The execution of operations.

pub mod determinism;
pub mod execute_operation;
pub mod laws;
pub mod receive_multiplayer_operations;
pub mod run;
