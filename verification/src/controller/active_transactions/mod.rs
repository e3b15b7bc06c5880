//! Transactions in progress.

pub mod pending_transaction;
pub mod transaction_name;
pub mod unsaved_transactions;
