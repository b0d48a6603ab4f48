//! Constants of the storage engine and of its wire and file formats.

use vstd::prelude::*;

verus! {

/// Keys longer than this many bytes are refused.
pub const MAX_KEY_LENGTH: usize = 8192;

/// The largest transaction id that can be handed out.
pub const MAX_TRANSACTION_ID: u64 = 0xffff_ffff_ffff_ffff;

/// Marks the beginning of an instruction pack.
pub const INSTRUCTION_PACK_MAGIC: [u8; 4] = [0xB1, 0x0C, 0xDA, 0x7A];

/// Version of the serialization format of instruction packs.
pub const INSTRUCTION_PACK_VERSION: u8 = 0x01;

pub const HTTP_SERVER_DEFAULT_PORT: u16 = 6324;
pub const TCP_SERVER_DEFAULT_PORT: u16 = 5213;

/// The name of the instruction log in the data directory.
pub const MAIN_LOG_FILENAME: &'static str = "instruction_log.imm";

/// The address the servers listen on.
pub const SERVER_END_POINT: &'static str = "127.0.0.1";

/// The query that names a height to revert to.
pub const HEIGHT: &'static str = "height";

/// The query that commits a transaction.
pub const COMMIT_TRANSACTION_KEY_WORD: &'static str = "commit";

/// The query that aborts a transaction.
pub const ABORT_TRANSACTION_KEY_WORD: &'static str = "abort";

/// The path segment that opens the transactional routes.
pub const URL_TRANSACTIONS_KEY_WORD: &'static str = ".transactions";

/// The path segment that asks for the journal.
pub const URL_JOURNAL_KEY_WORD: &'static str = ".journal";

} // verus!
