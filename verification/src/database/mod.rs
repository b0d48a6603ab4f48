//! The errors of the database layer.

pub mod errors;
