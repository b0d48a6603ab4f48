//! ImmuxDB: a log-structured key-value store with snapshot-isolated transactions,
//! grouped units of content, predicates and an append-only instruction log.

pub mod utils;
pub mod storage;
pub mod constants;
pub mod system_error;
pub mod server;
pub mod database;
