//! The storage engine: an append-only log of instructions, indexed in memory.

pub mod executor;
pub mod kvkey;
pub mod kvvalue;
pub mod chain_height;
pub mod transaction_manager;
pub mod ecc;
pub mod instruction;
pub mod log_version;
pub mod errors;
pub mod kv_model;
pub mod kv;
pub mod kv_laws;
pub mod history_laws;
pub mod sequence_laws;
pub mod log_pointer;
pub mod buffer_parser;
pub mod instruction_iterator;
pub mod preferences;
pub mod persistence_laws;
