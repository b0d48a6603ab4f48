# immuxsys

A log-structured key-value store with snapshot-isolated transactions, grouped units of
content, predicates over them, and an append-only instruction log protected by error
correction. The library is written in Verus: every function in `src/` carries a contract
that the verifier proves, and the laws of the store are proof functions.

## Layout

- `src/utils/` — byte and text helpers, varints, decimal numerals, length-prefixed framing.
- `src/storage/` — keys and values, chain heights, transaction ids, error correction
  (`ecc`), instructions and their packs, the log iterator, the engine (`kv`) with its model
  (`kv_model`) and laws (`kv_laws`, `persistence_laws`), preferences.
- `src/storage/executor/` — groupings, unit keys, units of content, predicates, filters,
  commands and outcomes with their byte forms, the executor over the engine, and the
  round-trip laws of the byte forms (`*_laws`).
- `src/server/` — server errors, TCP responses, HTTP routing (`server`).
- `src/database/` — the errors of the database layer.
- `tests/` — tests run against the compiled library.
- `app/` — the command line and the HTTP server: reading and writing the log file, reading
  units and numbers from text, and printing.

## Laws

Reads give back writes, transactions are isolated until they commit, aborts and removals do
what they say (`storage/kv_laws.rs`); every operation keeps the engine what replaying its log
gives, and reopening the bytes of the log gives back every committed read
(`storage/persistence_laws.rs`); over sequences of operations, a revert gives back an earlier
write, a transaction's writes stay out of committed reads until it commits, its abort discards
them, its commit publishes its last write of each key, and reopening ends every unfinished
transaction (`storage/sequence_laws.rs`); a transaction is live exactly when a call made it
live since it was last removed (`law_transaction_live_after_history`); every byte form reads back as what was written
(`lemma_*_roundtrip`); every unit read from bytes holds each key once in each of its maps
(`storage/executor/unit_content_laws.rs`). The laws are stated over the engine's model; a
well-formed `LogKeyValueStore` or `Executor` gives its model's well-formedness through
`lemma_wf_model`, so they apply to the store a caller holds.
