//! What a user can do.

pub mod validations;
