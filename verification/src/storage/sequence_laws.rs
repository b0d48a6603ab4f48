//! What holds of the storage engine across sequences of operations: a revert gives back an
//! earlier write whatever came between, a transaction's writes stay out of committed reads
//! until it commits and vanish if it aborts, and its last write of each key is what it
//! publishes.

use vstd::prelude::*;
use crate::storage::errors::KVError;
use crate::storage::instruction::InstructionView;
use crate::storage::kv_laws::{
    law_abort_changes_no_committed_read, law_commit_publishes, law_revert_one_then_get,
    law_set_in_transaction_then_get, law_transactional_remove_is_isolated, law_transactional_set_is_isolated,
};
use crate::storage::kv_model::{
    lemma_read_snapshot_extends, not_alive_error, pointer_of, snapshot_below, spec_abort, spec_affected_keys, spec_commit, spec_abort_each, spec_find, spec_get, spec_loaded, spec_read_snapshot, spec_remove_all,
    spec_remove_one, spec_revert_all, spec_revert_one, spec_set, spec_start_transaction, spec_store_wf,
    StoreView,
};

verus! {

/// An operation on the engine, with plain values for its arguments.
pub enum StoreOp {
    Write(Seq<u8>, Seq<u8>, Option<u64>),
    RevertOne(Seq<u8>, u64, Option<u64>),
    RemoveOne(Seq<u8>, Option<u64>),
    RemoveAll,
    RevertAll(u64),
    StartTransaction,
    Commit(u64),
    Abort(u64),
}

/// The engine after one operation, whether it succeeded or not.
pub open spec fn spec_step(v: StoreView, op: StoreOp) -> StoreView {
    match op {
        StoreOp::Write(k, x, t) => spec_set(v, k, x, t).0,
        StoreOp::RevertOne(k, h, t) => spec_revert_one(v, k, h, t).0,
        StoreOp::RemoveOne(k, t) => spec_remove_one(v, k, t).0,
        StoreOp::RemoveAll => spec_remove_all(v).0,
        StoreOp::RevertAll(h) => spec_revert_all(v, h).0,
        StoreOp::StartTransaction => spec_start_transaction(v).0,
        StoreOp::Commit(t) => spec_commit(v, t).0,
        StoreOp::Abort(t) => spec_abort(v, t).0,
    }
}

/// The engine after the operations, one after another.
pub open spec fn spec_run(v: StoreView, ops: Seq<StoreOp>) -> StoreView
    decreases ops.len(),
{
    if ops.len() == 0 {
        v
    } else {
        spec_step(spec_run(v, ops.drop_last()), ops.last())
    }
}

/// Each engine on the way through the operations, the first and the last included, keeps what
/// `spec_store_wf` says; every engine a caller holds does (`lemma_wf_model`).
pub open spec fn run_wf(v: StoreView, ops: Seq<StoreOp>) -> bool {
    forall|i: int| 0 <= i <= ops.len() ==> spec_store_wf(#[trigger] spec_run(v, ops.take(i)))
}

/// An operation keeps the log it finds, and at most appends to it.
pub proof fn law_step_keeps_log(v: StoreView, op: StoreOp)
    ensures
        spec_step(v, op).log.len() >= v.log.len(),
        spec_step(v, op).log.subrange(0, v.log.len() as int) == v.log,
{
    let w = spec_step(v, op);
    assert(w.log == v.log || exists|i: InstructionView| w.log == v.log.push(i));
    if w.log != v.log {
        let i = choose|i: InstructionView| w.log == v.log.push(i);
        assert(w.log.subrange(0, v.log.len() as int) =~= v.log);
    } else {
        assert(w.log.subrange(0, v.log.len() as int) =~= v.log);
    }
}

/// Operations, one after another, keep the log they find, and at most append to it.
pub proof fn law_run_keeps_log(v: StoreView, ops: Seq<StoreOp>)
    ensures
        spec_run(v, ops).log.len() >= v.log.len(),
        spec_run(v, ops).log.subrange(0, v.log.len() as int) == v.log,
    decreases ops.len(),
{
    if ops.len() > 0 {
        let u = spec_run(v, ops.drop_last());
        law_run_keeps_log(v, ops.drop_last());
        law_step_keeps_log(u, ops.last());
        let w = spec_run(v, ops);
        assert(w.log.subrange(0, v.log.len() as int) =~= u.log.subrange(0, u.log.len() as int).subrange(0, v.log.len() as int));
    }
}

/// A value set outside any transaction is what reverting its key to the height of that set
/// gives back, whatever operations came between.
pub proof fn law_revert_gives_back_earlier_write(v: StoreView, key: Seq<u8>, value: Seq<u8>, ops: Seq<StoreOp>)
    requires
        spec_set(v, key, value, None).1 is Ok,
        spec_store_wf(spec_run(spec_set(v, key, value, None).0, ops)),
        spec_revert_one(spec_run(spec_set(v, key, value, None).0, ops), key, v.log.len() as u64, None).1 is Ok,
    ensures
        spec_get(
            spec_revert_one(spec_run(spec_set(v, key, value, None).0, ops), key, v.log.len() as u64, None).0,
            key,
            None,
        ) == Ok::<Option<Seq<u8>>, KVError>(Some(value)),
{
    let w = spec_set(v, key, value, None).0;
    let u = spec_run(w, ops);
    assert(w.log == v.log.push(InstructionView::Put { key, value }));
    law_run_keeps_log(w, ops);
    let h = v.log.len() as u64;
    assert(u.log.len() <= usize::MAX);
    assert(h == v.log.len());
    assert(u.log[h as int] == u.log.subrange(0, w.log.len() as int)[h as int]);
    assert(u.log[h as int] == InstructionView::Put { key, value });
    law_revert_one_then_get(u, key, h);
    assert(spec_find(u.log, key, h) == Ok::<Option<Seq<u8>>, KVError>(Some(value)));
}

/// A revert to a height above the height counter is refused and changes nothing.
pub proof fn law_revert_above_height_refused(v: StoreView, key: Seq<u8>, height: u64, t: Option<u64>)
    requires
        key.len() <= crate::constants::MAX_KEY_LENGTH,
        height > v.current_height,
    ensures
        spec_revert_one(v, key, height, t) == (v, Err::<(), KVError>(KVError::RevertOutOfRange)),
{
}

/// Whether the operation succeeds on the engine.
pub open spec fn spec_step_ok(v: StoreView, op: StoreOp) -> bool {
    match op {
        StoreOp::Write(k, x, t) => spec_set(v, k, x, t).1 is Ok,
        StoreOp::RevertOne(k, h, t) => spec_revert_one(v, k, h, t).1 is Ok,
        StoreOp::RemoveOne(k, t) => spec_remove_one(v, k, t).1 is Ok,
        StoreOp::RemoveAll => spec_remove_all(v).1 is Ok,
        StoreOp::RevertAll(h) => spec_revert_all(v, h).1 is Ok,
        StoreOp::StartTransaction => spec_start_transaction(v).1 is Ok,
        StoreOp::Commit(t) => spec_commit(v, t).1 is Ok,
        StoreOp::Abort(t) => spec_abort(v, t).1 is Ok,
    }
}

/// Each of the operations succeeds on the engine it finds.
pub open spec fn run_ok(v: StoreView, ops: Seq<StoreOp>) -> bool {
    forall|i: int| 0 <= i < ops.len() ==> spec_step_ok(#[trigger] spec_run(v, ops.take(i)), ops[i])
}

/// Whether every operation is a write or a removal inside transaction `t`.
pub open spec fn writes_in(ops: Seq<StoreOp>, t: u64) -> bool {
    forall|i: int| 0 <= i < ops.len() ==> match #[trigger] ops[i] {
        StoreOp::Write(_, _, Some(x)) => x == t,
        StoreOp::RemoveOne(_, Some(x)) => x == t,
        _ => false,
    }
}

/// The engine after the first `n + 1` operations is the engine after the first `n`, with
/// operation `n` run on it.
proof fn lemma_run_take_step(v: StoreView, ops: Seq<StoreOp>, n: int)
    requires
        0 <= n < ops.len(),
    ensures
        spec_run(v, ops.take(n + 1)) == spec_step(spec_run(v, ops.take(n)), ops[n]),
{
    assert(ops.take(n + 1).drop_last() =~= ops.take(n));
    assert(ops.take(n + 1).last() == ops[n]);
}

/// Successful writes and removals inside a transaction change no committed read.
proof fn lemma_writes_keep_committed(v: StoreView, ops: Seq<StoreOp>, t: u64, key: Seq<u8>, n: int)
    requires
        0 <= n <= ops.len(),
        run_wf(v, ops),
        run_ok(v, ops),
        writes_in(ops, t),
    ensures
        spec_get(spec_run(v, ops.take(n)), key, None) == spec_get(v, key, None),
    decreases n,
{
    if n == 0 {
        assert(ops.take(0) =~= Seq::<StoreOp>::empty());
    } else {
        lemma_writes_keep_committed(v, ops, t, key, n - 1);
        let u = spec_run(v, ops.take(n - 1));
        lemma_run_take_step(v, ops, n - 1);
        assert(spec_store_wf(u));
        assert(spec_step_ok(u, ops[n - 1]));
        match ops[n - 1] {
            StoreOp::Write(k, x, Some(_)) => {
                law_transactional_set_is_isolated(u, k, x, t, key);
            },
            StoreOp::RemoveOne(k, Some(_)) => {
                law_transactional_remove_is_isolated(u, k, t, key);
            },
            _ => {},
        }
    }
}

/// Writes and removals inside a transaction, then its abort, leave every committed read as it
/// was before them, and the transaction can be neither committed nor aborted again.
pub proof fn law_abort_discards_writes(v: StoreView, ops: Seq<StoreOp>, t: u64, key: Seq<u8>)
    requires
        run_wf(v, ops),
        run_ok(v, ops),
        writes_in(ops, t),
        spec_abort(spec_run(v, ops), t).1 is Ok,
    ensures
        spec_get(spec_abort(spec_run(v, ops), t).0, key, None) == spec_get(v, key, None),
        spec_commit(spec_abort(spec_run(v, ops), t).0, t).1 == Err::<(), KVError>(not_alive_error()),
        spec_abort(spec_abort(spec_run(v, ops), t).0, t).1 == Err::<(), KVError>(not_alive_error()),
{
    lemma_writes_keep_committed(v, ops, t, key, ops.len() as int);
    assert(ops.take(ops.len() as int) =~= ops);
    let u = spec_run(v, ops);
    assert(spec_store_wf(spec_run(v, ops.take(ops.len() as int))));
    law_abort_changes_no_committed_read(u, t, key);
}

/// Writes and removals inside a transaction change no committed read while it is live.
pub proof fn law_writes_stay_uncommitted(v: StoreView, ops: Seq<StoreOp>, t: u64, key: Seq<u8>)
    requires
        run_wf(v, ops),
        run_ok(v, ops),
        writes_in(ops, t),
    ensures
        spec_get(spec_run(v, ops), key, None) == spec_get(v, key, None),
{
    lemma_writes_keep_committed(v, ops, t, key, ops.len() as int);
    assert(ops.take(ops.len() as int) =~= ops);
}

/// Whether every operation is a write inside transaction `t`.
pub open spec fn sets_in(ops: Seq<StoreOp>, t: u64) -> bool {
    forall|i: int| 0 <= i < ops.len() ==> (#[trigger] ops[i] matches StoreOp::Write(_, _, Some(x)) && x == t)
}

/// A write inside a transaction leaves what it reads for every other key as it was.
proof fn lemma_set_keeps_other_reads(v: StoreView, key: Seq<u8>, value: Seq<u8>, t: u64, other: Seq<u8>)
    requires
        spec_store_wf(v),
        spec_set(v, key, value, Some(t)).1 is Ok,
        other != key,
    ensures
        spec_get(spec_set(v, key, value, Some(t)).0, other, Some(t)) == spec_get(v, other, Some(t)),
{
    let w = spec_set(v, key, value, Some(t)).0;
    let s = v.transaction_manager.transactions[t].snapshot;
    let x = InstructionView::TransactionalSet { key, value, transaction_id: t };
    assert(snapshot_below(s, v.log.len()));
    let s2 = w.transaction_manager.transactions[t].snapshot;
    assert(s2.contains_key(other) == s.contains_key(other));
    assert(s2.contains_key(other) ==> s2[other] == s[other]);
    lemma_read_snapshot_extends(v.log, x, s, other, Some(t));
    assert(spec_read_snapshot(w.log, s2, other, Some(t)) == spec_read_snapshot(w.log, s, other, Some(t)));
}

/// From the last write of `key` inside the transaction on, the transaction reads that write's
/// value for it, has the key among those it wrote, and points it somewhere.
proof fn lemma_last_write_read(v: StoreView, ops: Seq<StoreOp>, t: u64, key: Seq<u8>, value: Seq<u8>, j: int, n: int)
    requires
        run_wf(v, ops),
        run_ok(v, ops),
        sets_in(ops, t),
        0 <= j < n <= ops.len(),
        ops[j] == StoreOp::Write(key, value, Some(t)),
        forall|m: int| j < m < ops.len() ==> (#[trigger] ops[m])->Write_0 != key,
    ensures
        spec_get(spec_run(v, ops.take(n)), key, Some(t)) == Ok::<Option<Seq<u8>>, KVError>(Some(value)),
        spec_affected_keys(spec_run(v, ops.take(n)).transaction_manager, t).contains(key),
        pointer_of(spec_run(v, ops.take(n)).snapshot, key, Some(t)) is Some,
    decreases n,
{
    let u = spec_run(v, ops.take(n - 1));
    lemma_run_take_step(v, ops, n - 1);
    assert(spec_store_wf(u));
    assert(spec_step_ok(u, ops[n - 1]));
    let w = spec_run(v, ops.take(n));
    if n - 1 == j {
        law_set_in_transaction_then_get(u, key, value, t);
        assert(u.transaction_manager.transactions.contains_key(t));
        let keys = u.transaction_manager.transactions[t].affected_keys.push(key);
        assert(keys[keys.len() - 1] == key);
    } else {
        lemma_last_write_read(v, ops, t, key, value, j, n - 1);
        assert(ops[n - 1] matches StoreOp::Write(_, _, Some(x)) && x == t);
        let k2 = ops[n - 1]->Write_0;
        let x2 = ops[n - 1]->Write_1;
        assert(ops[n - 1] == StoreOp::Write(k2, x2, Some(t)));
        assert(k2 != key);
        lemma_set_keeps_other_reads(u, k2, x2, t, key);
        let before = spec_affected_keys(u.transaction_manager, t);
        let a = choose|a: int| 0 <= a < before.len() && before[a] == key;
        assert(spec_affected_keys(w.transaction_manager, t) == before.push(k2));
        assert(spec_affected_keys(w.transaction_manager, t)[a] == key);
    }
}

/// Writes inside a transaction, then its commit: the committed read of each key it wrote gives
/// the value of its last write of that key.
pub proof fn law_commit_publishes_last_writes(v: StoreView, ops: Seq<StoreOp>, t: u64, key: Seq<u8>, value: Seq<u8>, j: int)
    requires
        run_wf(v, ops),
        run_ok(v, ops),
        sets_in(ops, t),
        0 <= j < ops.len(),
        ops[j] == StoreOp::Write(key, value, Some(t)),
        forall|m: int| j < m < ops.len() ==> (#[trigger] ops[m])->Write_0 != key,
        spec_commit(spec_run(v, ops), t).1 is Ok,
    ensures
        spec_get(spec_commit(spec_run(v, ops), t).0, key, None) == Ok::<Option<Seq<u8>>, KVError>(Some(value)),
{
    lemma_last_write_read(v, ops, t, key, value, j, ops.len() as int);
    assert(ops.take(ops.len() as int) =~= ops);
    let u = spec_run(v, ops);
    assert(spec_store_wf(spec_run(v, ops.take(ops.len() as int))));
    law_commit_publishes(u, t, key);
}

/// Aborting, one after another, exactly the live transactions, each once, leaves none live:
/// none of them can be committed or aborted after.
pub proof fn law_abort_each_ends_all(u: StoreView, ids: Seq<u64>, t: u64)
    requires
        ids.no_duplicates(),
        forall|x: u64| u.transaction_manager.transactions.contains_key(x) <==> ids.contains(x),
        spec_abort_each(u, ids).1 is Ok,
    ensures
        !spec_abort_each(u, ids).0.transaction_manager.transactions.contains_key(t),
        spec_commit(spec_abort_each(u, ids).0, t).1 == Err::<(), KVError>(not_alive_error()),
        spec_abort(spec_abort_each(u, ids).0, t).1 == Err::<(), KVError>(not_alive_error()),
    decreases ids.len(),
{
    if ids.len() == 0 {
        if u.transaction_manager.transactions.contains_key(t) {
            assert(ids.contains(t));
        }
    } else {
        let first = ids[0];
        let next = spec_abort(u, first).0;
        let rest = ids.subrange(1, ids.len() as int);
        assert(ids.contains(first));
        assert forall|x: u64| next.transaction_manager.transactions.contains_key(x) <==> rest.contains(x) by {
            if rest.contains(x) {
                let a = choose|a: int| 0 <= a < rest.len() && rest[a] == x;
                assert(ids[a + 1] == x);
                assert(ids.contains(x));
                assert(x != first);
            }
            if next.transaction_manager.transactions.contains_key(x) {
                assert(x != first);
                assert(ids.contains(x));
                let a = choose|a: int| 0 <= a < ids.len() && ids[a] == x;
                assert(a != 0);
                assert(rest[a - 1] == x);
            }
        }
        assert(rest.no_duplicates()) by {
            assert forall|a: int, b: int| 0 <= a < rest.len() && 0 <= b < rest.len() && a != b implies rest[a] != rest[b] by {
                assert(rest[a] == ids[a + 1] && rest[b] == ids[b + 1]);
            }
        }
        law_abort_each_ends_all(next, rest, t);
    }
}

/// Opening a log aborts the transactions it leaves unfinished: where the opened engine is the
/// loaded one with exactly its live transactions aborted, as `LogKeyValueStore::open` ensures,
/// no transaction of the log can be committed or aborted after, and every committed read gives
/// what it gave in the engine that wrote the log.
pub proof fn law_reopen_ends_unfinished_transactions(
    v: StoreView,
    mode: crate::storage::ecc::ECCMode,
    version: (u8, u8, u8),
    ids: Seq<u64>,
    t: u64,
    key: Seq<u8>,
)
    requires
        spec_store_wf(v),
        crate::storage::persistence_laws::replays_to_itself(v),
        crate::storage::persistence_laws::log_bytes_read_back(v),
        ids.no_duplicates(),
        spec_loaded(v.log_bytes, mode, version) matches Ok(loaded) && (forall|x: u64|
            loaded.transaction_manager.transactions.contains_key(x) <==> ids.contains(x))
            && spec_abort_each(loaded, ids).1 is Ok,
    ensures
        spec_loaded(v.log_bytes, mode, version) matches Ok(loaded) && {
            &&& spec_commit(spec_abort_each(loaded, ids).0, t).1 == Err::<(), KVError>(not_alive_error())
            &&& spec_get(spec_abort_each(loaded, ids).0, key, None) == spec_get(v, key, None)
        },
{
    let loaded = spec_loaded(v.log_bytes, mode, version).unwrap();
    law_abort_each_ends_all(loaded, ids, t);
    crate::storage::persistence_laws::law_reopen_keeps_committed_reads(v, mode, version, ids, key);
}

} // verus!
