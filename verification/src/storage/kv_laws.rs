//! What holds of the storage engine across its operations: reads give back writes,
//! transactions are isolated until they commit, and aborts, removals and reverts do what they
//! say. Each law is stated over the engine's model, which the operations of
//! `LogKeyValueStore` follow exactly.

use vstd::prelude::*;
use crate::storage::errors::KVError;
use crate::storage::instruction::InstructionView;
use crate::storage::kv_model::{
    lemma_read_pointer_extends, lemma_read_snapshot_extends, not_alive_error, pointer_of,
    snapshot_below, spec_abort, spec_affected_keys, spec_commit, spec_find, spec_get,
    spec_read_pointer, spec_read_snapshot, spec_remove_all, spec_remove_one, spec_revert_all,
    spec_revert_one, spec_set, spec_start_transaction, spec_store_wf, SnapshotView, StoreView,
};

verus! {

/// Reading through a snapshot whose committed pointers are those of another gives what the
/// other gives, where both point below the end of the log.
proof fn lemma_same_committed_read(log: Seq<InstructionView>, a: SnapshotView, b: SnapshotView, key: Seq<u8>)
    requires
        pointer_of(a, key, None) == pointer_of(b, key, None),
    ensures
        spec_read_snapshot(log, a, key, None) == spec_read_snapshot(log, b, key, None),
{
}

/// A value set outside any transaction is what a committed read of its key gives next.
pub proof fn law_set_then_get(v: StoreView, key: Seq<u8>, value: Seq<u8>)
    requires
        spec_store_wf(v),
        spec_set(v, key, value, None).1 is Ok,
    ensures
        spec_get(spec_set(v, key, value, None).0, key, None) == Ok::<Option<Seq<u8>>, KVError>(Some(value)),
{
}

/// A value set inside a live transaction is what that transaction reads for its key next.
pub proof fn law_set_in_transaction_then_get(v: StoreView, key: Seq<u8>, value: Seq<u8>, t: u64)
    requires
        spec_store_wf(v),
        spec_set(v, key, value, Some(t)).1 is Ok,
    ensures
        spec_get(spec_set(v, key, value, Some(t)).0, key, Some(t)) == Ok::<Option<Seq<u8>>, KVError>(Some(value)),
{
}

/// A write inside a transaction changes no committed read, whatever the key.
pub proof fn law_transactional_set_is_isolated(v: StoreView, key: Seq<u8>, value: Seq<u8>, t: u64, other: Seq<u8>)
    requires
        spec_store_wf(v),
        spec_set(v, key, value, Some(t)).1 is Ok,
    ensures
        spec_get(spec_set(v, key, value, Some(t)).0, other, None) == spec_get(v, other, None),
{
    let w = spec_set(v, key, value, Some(t)).0;
    let x = InstructionView::TransactionalSet { key, value, transaction_id: t };
    lemma_read_snapshot_extends(v.log, x, v.snapshot, other, None);
    assert(pointer_of(w.snapshot, other, None) == pointer_of(v.snapshot, other, None));
    lemma_same_committed_read(w.log, w.snapshot, v.snapshot, other);
}

/// A removal inside a transaction changes no committed read, whatever the key.
pub proof fn law_transactional_remove_is_isolated(v: StoreView, key: Seq<u8>, t: u64, other: Seq<u8>)
    requires
        spec_store_wf(v),
        spec_remove_one(v, key, Some(t)).1 is Ok,
    ensures
        spec_get(spec_remove_one(v, key, Some(t)).0, other, None) == spec_get(v, other, None),
{
    let w = spec_remove_one(v, key, Some(t)).0;
    let x = InstructionView::TransactionalRemoveOne { key, transaction_id: t };
    lemma_read_snapshot_extends(v.log, x, v.snapshot, other, None);
    assert(pointer_of(w.snapshot, other, None) == pointer_of(v.snapshot, other, None));
    lemma_same_committed_read(w.log, w.snapshot, v.snapshot, other);
}

/// A removal outside any transaction leaves its key without a value.
pub proof fn law_remove_then_get(v: StoreView, key: Seq<u8>)
    requires
        spec_store_wf(v),
        spec_remove_one(v, key, None).1 is Ok,
    ensures
        spec_get(spec_remove_one(v, key, None).0, key, None) == Ok::<Option<Seq<u8>>, KVError>(None),
{
}

/// Reverting a key outside any transaction gives it the state the log gave it at the height
/// named (a height at the end of the log names the revert itself, and is refused on reading).
pub proof fn law_revert_one_then_get(v: StoreView, key: Seq<u8>, height: u64)
    requires
        spec_store_wf(v),
        spec_revert_one(v, key, height, None).1 is Ok,
    ensures
        spec_get(spec_revert_one(v, key, height, None).0, key, None) == (if height >= v.log.len() {
            Err::<Option<Seq<u8>>, KVError>(KVError::RevertOutOfRange)
        } else {
            spec_find(v.log, key, height)
        }),
{
    let x = InstructionView::RevertOne { key, height };
    if height < v.log.len() {
        crate::storage::kv_model::lemma_find_extends(v.log, x, key, height);
    }
}

/// Committing a transaction makes what it read for each key it wrote the committed state of
/// that key.
pub proof fn law_commit_publishes(v: StoreView, t: u64, key: Seq<u8>)
    requires
        spec_store_wf(v),
        spec_commit(v, t).1 is Ok,
        spec_affected_keys(v.transaction_manager, t).contains(key),
        pointer_of(v.snapshot, key, Some(t)) is Some,
    ensures
        spec_get(spec_commit(v, t).0, key, None) == spec_get(v, key, Some(t)),
{
    let w = spec_commit(v, t).0;
    let h = v.snapshot[key][Some(t)];
    assert(v.transaction_manager.transactions.contains_key(t));
    let ts = v.transaction_manager.transactions[t].snapshot;
    assert(pointer_of(ts, key, Some(t)) == pointer_of(v.snapshot, key, Some(t)));
    assert(w.snapshot[key][None] == h);
    lemma_read_pointer_extends(v.log, InstructionView::TransactionCommit { transaction_id: t }, h);
}

/// Committing a transaction leaves the committed state of the keys it did not write as it was.
pub proof fn law_commit_leaves_other_keys(v: StoreView, t: u64, key: Seq<u8>)
    requires
        spec_store_wf(v),
        spec_commit(v, t).1 is Ok,
        !spec_affected_keys(v.transaction_manager, t).contains(key),
    ensures
        spec_get(spec_commit(v, t).0, key, None) == spec_get(v, key, None),
{
    let w = spec_commit(v, t).0;
    lemma_read_snapshot_extends(v.log, InstructionView::TransactionCommit { transaction_id: t }, v.snapshot, key, None);
    assert(pointer_of(w.snapshot, key, None) == pointer_of(v.snapshot, key, None));
    lemma_same_committed_read(w.log, w.snapshot, v.snapshot, key);
}

/// Aborting a transaction changes no committed read.
pub proof fn law_abort_changes_no_committed_read(v: StoreView, t: u64, key: Seq<u8>)
    requires
        spec_store_wf(v),
        spec_abort(v, t).1 is Ok,
    ensures
        spec_get(spec_abort(v, t).0, key, None) == spec_get(v, key, None),
{
    let w = spec_abort(v, t).0;
    lemma_read_snapshot_extends(v.log, InstructionView::TransactionAbort { transaction_id: t }, v.snapshot, key, None);
    assert(pointer_of(w.snapshot, key, None) == pointer_of(v.snapshot, key, None));
    lemma_same_committed_read(w.log, w.snapshot, v.snapshot, key);
}

/// Committing a transaction changes nothing that another live transaction reads.
pub proof fn law_commit_is_invisible_to_others(v: StoreView, t: u64, other: u64, key: Seq<u8>)
    requires
        spec_store_wf(v),
        spec_commit(v, t).1 is Ok,
        other != t,
        v.transaction_manager.transactions.contains_key(other),
    ensures
        spec_get(spec_commit(v, t).0, key, Some(other)) == spec_get(v, key, Some(other)),
{
    let s = v.transaction_manager.transactions[other].snapshot;
    assert(snapshot_below(s, v.log.len()));
    lemma_read_snapshot_extends(v.log, InstructionView::TransactionCommit { transaction_id: t }, s, key, Some(other));
}

/// A committed write changes nothing that a live transaction reads.
pub proof fn law_committed_set_is_invisible_to_transactions(v: StoreView, key: Seq<u8>, value: Seq<u8>, t: u64, other: Seq<u8>)
    requires
        spec_store_wf(v),
        spec_set(v, key, value, None).1 is Ok,
        v.transaction_manager.transactions.contains_key(t),
    ensures
        spec_get(spec_set(v, key, value, None).0, other, Some(t)) == spec_get(v, other, Some(t)),
{
    let s = v.transaction_manager.transactions[t].snapshot;
    assert(snapshot_below(s, v.log.len()));
    lemma_read_snapshot_extends(v.log, InstructionView::Put { key, value }, s, other, Some(t));
}

/// After everything is removed, no key has a value and no transaction is live.
pub proof fn law_remove_all_empties(v: StoreView, key: Seq<u8>, t: u64)
    requires
        spec_store_wf(v),
        spec_remove_all(v).1 is Ok,
    ensures
        spec_get(spec_remove_all(v).0, key, None) == Ok::<Option<Seq<u8>>, KVError>(None),
        spec_commit(spec_remove_all(v).0, t).1 == Err::<(), KVError>(not_alive_error()),
        spec_abort(spec_remove_all(v).0, t).1 == Err::<(), KVError>(not_alive_error()),
{
}

/// After everything is reverted, no transaction is live.
pub proof fn law_revert_all_ends_transactions(v: StoreView, height: u64, t: u64)
    requires
        spec_store_wf(v),
        spec_revert_all(v, height).1 is Ok,
    ensures
        spec_commit(spec_revert_all(v, height).0, t).1 == Err::<(), KVError>(not_alive_error()),
        spec_abort(spec_revert_all(v, height).0, t).1 == Err::<(), KVError>(not_alive_error()),
{
}

/// A transaction that is not live can be neither committed nor aborted, and refusing it
/// changes nothing.
pub proof fn law_dead_transaction_refused(v: StoreView, t: u64)
    requires
        !v.transaction_manager.transactions.contains_key(t),
    ensures
        spec_commit(v, t) == (v, Err::<(), KVError>(not_alive_error())),
        spec_abort(v, t) == (v, Err::<(), KVError>(not_alive_error())),
        spec_get(v, Seq::empty(), Some(t)) == Err::<Option<Seq<u8>>, KVError>(not_alive_error()),
{
}

/// A new transaction gets the id after the last one handed out, and reads what is committed,
/// where the engine holds no pointer for that id yet.
pub proof fn law_start_transaction_reads_committed(v: StoreView, key: Seq<u8>)
    requires
        spec_store_wf(v),
        spec_start_transaction(v).1 is Ok,
        forall|k: Seq<u8>| #[trigger] pointer_of(v.snapshot, k, Some((v.transaction_manager.current_transaction_id + 1) as u64)) is None,
    ensures
        spec_start_transaction(v).1 == Ok::<u64, KVError>((v.transaction_manager.current_transaction_id + 1) as u64),
        spec_get(spec_start_transaction(v).0, key, Some((v.transaction_manager.current_transaction_id + 1) as u64)) == spec_get(v, key, None),
{
    let t = (v.transaction_manager.current_transaction_id + 1) as u64;
    assert(pointer_of(v.snapshot, key, Some(t)) is None);
    lemma_read_snapshot_extends(v.log, InstructionView::TransactionStart { transaction_id: t }, v.snapshot, key, None);
}

/// Every live transaction has an id already handed out: none above the last id given.
pub open spec fn ids_handed_out(v: StoreView) -> bool {
    forall|t: u64| #[trigger] v.transaction_manager.transactions.contains_key(t)
        ==> t <= v.transaction_manager.current_transaction_id
}

/// A new transaction gets an id that no live transaction holds, above every id handed out so
/// far; afterwards every live id is still one handed out.
pub proof fn law_start_transaction_is_fresh(v: StoreView)
    requires
        ids_handed_out(v),
        spec_start_transaction(v).1 is Ok,
    ensures
        ({
            let (w, r) = spec_start_transaction(v);
            let t = r->Ok_0;
            &&& t > v.transaction_manager.current_transaction_id
            &&& !v.transaction_manager.transactions.contains_key(t)
            &&& w.transaction_manager.transactions.contains_key(t)
            &&& w.transaction_manager.current_transaction_id == t
            &&& ids_handed_out(w)
        }),
{
}

/// A committed transaction is no longer live and cannot be committed or aborted again; the
/// last id handed out stays as it was.
pub proof fn law_commit_ends_transaction(v: StoreView, t: u64)
    requires
        ids_handed_out(v),
        spec_commit(v, t).1 is Ok,
    ensures
        ({
            let w = spec_commit(v, t).0;
            &&& !w.transaction_manager.transactions.contains_key(t)
            &&& w.transaction_manager.current_transaction_id == v.transaction_manager.current_transaction_id
            &&& ids_handed_out(w)
            &&& spec_commit(w, t).1 == Err::<(), KVError>(not_alive_error())
            &&& spec_abort(w, t).1 == Err::<(), KVError>(not_alive_error())
        }),
{
}

/// An aborted transaction is no longer live and cannot be committed or aborted again; the last
/// id handed out stays as it was.
pub proof fn law_abort_ends_transaction(v: StoreView, t: u64)
    requires
        ids_handed_out(v),
        spec_abort(v, t).1 is Ok,
    ensures
        ({
            let w = spec_abort(v, t).0;
            &&& !w.transaction_manager.transactions.contains_key(t)
            &&& w.transaction_manager.current_transaction_id == v.transaction_manager.current_transaction_id
            &&& ids_handed_out(w)
            &&& spec_commit(w, t).1 == Err::<(), KVError>(not_alive_error())
            &&& spec_abort(w, t).1 == Err::<(), KVError>(not_alive_error())
        }),
{
}

/// An ended transaction stays dead through any later start: the new transaction's id is
/// another one.
pub proof fn law_ended_transaction_is_not_restarted(v: StoreView, t: u64)
    requires
        ids_handed_out(v),
        !v.transaction_manager.transactions.contains_key(t),
        t <= v.transaction_manager.current_transaction_id,
        spec_start_transaction(v).1 is Ok,
    ensures
        spec_start_transaction(v).1 != Ok::<u64, KVError>(t),
        !spec_start_transaction(v).0.transaction_manager.transactions.contains_key(t),
{
}

/// Writes, removals and reverts keep every live id one that was handed out, and hand out none.
pub proof fn law_changes_keep_ids_handed_out(v: StoreView, key: Seq<u8>, value: Seq<u8>, height: u64, t: Option<u64>)
    requires
        ids_handed_out(v),
    ensures
        ids_handed_out(spec_set(v, key, value, t).0),
        ids_handed_out(spec_remove_one(v, key, t).0),
        ids_handed_out(spec_revert_one(v, key, height, t).0),
        ids_handed_out(spec_remove_all(v).0),
        ids_handed_out(spec_revert_all(v, height).0),
        spec_set(v, key, value, t).0.transaction_manager.current_transaction_id == v.transaction_manager.current_transaction_id,
        spec_remove_one(v, key, t).0.transaction_manager.current_transaction_id == v.transaction_manager.current_transaction_id,
        spec_revert_one(v, key, height, t).0.transaction_manager.current_transaction_id == v.transaction_manager.current_transaction_id,
{
}

/// The committed read of `key` after an operation that appends at most one instruction and
/// keeps every committed pointer of the key is the one before it.
proof fn lemma_committed_read_kept(v: StoreView, w: StoreView, key: Seq<u8>)
    requires
        spec_store_wf(v),
        w.log == v.log || exists|i: InstructionView| w.log == v.log.push(i),
        pointer_of(w.snapshot, key, None) == pointer_of(v.snapshot, key, None),
    ensures
        spec_get(w, key, None) == spec_get(v, key, None),
{
    if w.log != v.log {
        let i = choose|i: InstructionView| w.log == v.log.push(i);
        lemma_read_snapshot_extends(v.log, i, v.snapshot, key, None);
    }
    lemma_same_committed_read(w.log, w.snapshot, v.snapshot, key);
}

/// A write, revert or removal inside a transaction changes no committed read, of any key,
/// whether it succeeds or is refused.
pub proof fn law_transactional_changes_keep_committed(
    v: StoreView,
    key: Seq<u8>,
    value: Seq<u8>,
    height: u64,
    t: u64,
    other: Seq<u8>,
)
    requires
        spec_store_wf(v),
    ensures
        spec_get(spec_set(v, key, value, Some(t)).0, other, None) == spec_get(v, other, None),
        spec_get(spec_revert_one(v, key, height, Some(t)).0, other, None) == spec_get(v, other, None),
        spec_get(spec_remove_one(v, key, Some(t)).0, other, None) == spec_get(v, other, None),
{
    lemma_committed_read_kept(v, spec_set(v, key, value, Some(t)).0, other);
    lemma_committed_read_kept(v, spec_revert_one(v, key, height, Some(t)).0, other);
    lemma_committed_read_kept(v, spec_remove_one(v, key, Some(t)).0, other);
}

} // verus!
