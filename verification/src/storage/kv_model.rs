//! The model of the storage engine: what reading the log gives, and what committing and
//! aborting do to a snapshot, stated over views.

use vstd::prelude::*;
use crate::constants::MAX_KEY_LENGTH;
use crate::storage::chain_height::ChainHeightError;
use crate::storage::ecc::ECCMode;
use crate::storage::errors::KVError;
use crate::storage::instruction::{spec_pack, InstructionError, InstructionView};
use crate::storage::instruction_iterator::spec_log_packs;
use crate::storage::log_version::LogVersionError;
use crate::storage::transaction_manager::{
    key_pointers, TransactionManagerError, TransactionManagerView, TransactionView,
};

verus! {

/// A snapshot as the contracts see it: for each key, the height its state stands at, for
/// committed data (`None`) and for each transaction that wrote it.
pub type SnapshotView = Map<Seq<u8>, Map<Option<u64>, u64>>;

/// The state `key` has according to the log up to and including `height`: the value of the
/// last instruction at or below `height` that decides it, following reverts to the height they
/// name. Transactional instructions are passed over. A revert that names its own height or a
/// later one is refused.
pub open spec fn spec_find(log: Seq<InstructionView>, key: Seq<u8>, height: u64) -> Result<Option<Seq<u8>>, KVError>
    decreases height,
{
    if height >= log.len() {
        Err(KVError::RevertOutOfRange)
    } else {
        match log[height as int] {
            InstructionView::Put { key: k, value } => {
                if k == key {
                    Ok(Some(value))
                } else if height == 0 {
                    Err(KVError::ChainHeightError(ChainHeightError::NegativeChainHeight))
                } else {
                    spec_find(log, key, (height - 1) as u64)
                }
            },
            InstructionView::RevertOne { key: k, height: target } => {
                if k == key {
                    if target >= height {
                        Err(KVError::RevertOutOfRange)
                    } else {
                        spec_find(log, key, target)
                    }
                } else if height == 0 {
                    Err(KVError::ChainHeightError(ChainHeightError::NegativeChainHeight))
                } else {
                    spec_find(log, key, (height - 1) as u64)
                }
            },
            InstructionView::RevertAll { height: target } => {
                if target >= height {
                    Err(KVError::RevertOutOfRange)
                } else {
                    spec_find(log, key, target)
                }
            },
            InstructionView::RemoveOne { key: k } => {
                if k == key {
                    Ok(None)
                } else if height == 0 {
                    Err(KVError::ChainHeightError(ChainHeightError::NegativeChainHeight))
                } else {
                    spec_find(log, key, (height - 1) as u64)
                }
            },
            InstructionView::RemoveAll => Ok(None),
            _ => {
                if height == 0 {
                    Err(KVError::ChainHeightError(ChainHeightError::NegativeChainHeight))
                } else {
                    spec_find(log, key, (height - 1) as u64)
                }
            },
        }
    }
}

/// The state that the instruction at `height` gives the key it is about: its value for a set,
/// what the reverted height held for a revert (a revert to its own height or a later one is
/// refused), none for a removal.
pub open spec fn spec_read_pointer(log: Seq<InstructionView>, height: u64) -> Result<Option<Seq<u8>>, KVError> {
    if height >= log.len() {
        Err(KVError::PointToUnexpectedInstruction)
    } else {
        match log[height as int] {
            InstructionView::Put { value, .. } => Ok(Some(value)),
            InstructionView::TransactionalSet { value, .. } => Ok(Some(value)),
            InstructionView::RevertOne { key, height: target } => {
                if target >= height {
                    Err(KVError::RevertOutOfRange)
                } else {
                    spec_find(log, key, target)
                }
            },
            InstructionView::TransactionalRevertOne { key, height: target, .. } => {
                if target >= height {
                    Err(KVError::RevertOutOfRange)
                } else {
                    spec_find(log, key, target)
                }
            },
            InstructionView::RemoveOne { .. } => Ok(None),
            InstructionView::TransactionalRemoveOne { .. } => Ok(None),
            _ => Err(KVError::PointToUnexpectedInstruction),
        }
    }
}

/// What reading `key` through `snap` gives, for committed data (`None`) or inside a
/// transaction: the transaction's own pointer where it has one, else the committed one.
pub open spec fn spec_read_snapshot(log: Seq<InstructionView>, snap: SnapshotView, key: Seq<u8>, t: Option<u64>) -> Result<Option<Seq<u8>>, KVError> {
    if !snap.contains_key(key) {
        Ok(None)
    } else if snap[key].contains_key(t) {
        spec_read_pointer(log, snap[key][t])
    } else if t is Some && snap[key].contains_key(None) {
        spec_read_pointer(log, snap[key][None])
    } else {
        Ok(None)
    }
}

/// Every height in `snap` is below `n`.
pub open spec fn snapshot_below(snap: SnapshotView, n: nat) -> bool {
    forall|k: Seq<u8>, t: Option<u64>| #[trigger] snap.contains_key(k) && #[trigger] snap[k].contains_key(t) ==> snap[k][t] < n
}

/// `key` points at `height` for `t`, in `snap`.
pub open spec fn spec_point(snap: SnapshotView, key: Seq<u8>, t: Option<u64>, height: u64) -> SnapshotView {
    snap.insert(key, key_pointers(snap, key).insert(t, height))
}

/// Committing `t` for one key: the transaction's pointer becomes the committed one.
pub open spec fn spec_commit_key(snap: SnapshotView, key: Seq<u8>, t: u64) -> SnapshotView {
    if snap.contains_key(key) && snap[key].contains_key(Some(t)) {
        snap.insert(key, snap[key].insert(None, snap[key][Some(t)]).remove(Some(t)))
    } else {
        snap
    }
}

/// Committing `t` for each of `keys` in turn.
pub open spec fn spec_commit_keys(snap: SnapshotView, keys: Seq<Seq<u8>>, t: u64) -> SnapshotView
    decreases keys.len(),
{
    if keys.len() == 0 {
        snap
    } else {
        spec_commit_key(spec_commit_keys(snap, keys.drop_last(), t), keys.last(), t)
    }
}

/// Aborting `t` for one key: the transaction's pointer goes.
pub open spec fn spec_abort_key(snap: SnapshotView, key: Seq<u8>, t: u64) -> SnapshotView {
    if snap.contains_key(key) {
        snap.insert(key, snap[key].remove(Some(t)))
    } else {
        snap
    }
}

/// Aborting `t` for each of `keys` in turn.
pub open spec fn spec_abort_keys(snap: SnapshotView, keys: Seq<Seq<u8>>, t: u64) -> SnapshotView
    decreases keys.len(),
{
    if keys.len() == 0 {
        snap
    } else {
        spec_abort_key(spec_abort_keys(snap, keys.drop_last(), t), keys.last(), t)
    }
}

/// Committing `t` for `keys`, all at once: each of the keys that has a pointer for `t` gets it
/// as its committed pointer.
pub open spec fn spec_committed(snap: SnapshotView, keys: Seq<Seq<u8>>, t: u64) -> SnapshotView {
    snap.map_entries(
        |k: Seq<u8>, ps: Map<Option<u64>, u64>|
            if keys.contains(k) && ps.contains_key(Some(t)) {
                ps.insert(None, ps[Some(t)]).remove(Some(t))
            } else {
                ps
            },
    )
}

/// Aborting `t` for `keys`, all at once: each of the keys loses its pointer for `t`.
pub open spec fn spec_aborted(snap: SnapshotView, keys: Seq<Seq<u8>>, t: u64) -> SnapshotView {
    snap.map_entries(
        |k: Seq<u8>, ps: Map<Option<u64>, u64>|
            if keys.contains(k) {
                ps.remove(Some(t))
            } else {
                ps
            },
    )
}

/// Committing key by key comes to committing all the keys at once.
pub proof fn lemma_commit_keys_at_once(snap: SnapshotView, keys: Seq<Seq<u8>>, t: u64)
    ensures
        spec_commit_keys(snap, keys, t) == spec_committed(snap, keys, t),
    decreases keys.len(),
{
    if keys.len() == 0 {
        assert(spec_committed(snap, keys, t) =~= snap);
    } else {
        let init = keys.drop_last();
        let k = keys.last();
        lemma_commit_keys_at_once(snap, init, t);
        let before = spec_committed(snap, init, t);
        let after = spec_commit_key(before, k, t);
        let target = spec_committed(snap, keys, t);
        assert forall|x: Seq<u8>| #[trigger] keys.contains(x) <==> init.contains(x) || x == k by {
            if keys.contains(x) {
                let i = choose|i: int| 0 <= i < keys.len() && keys[i] == x;
                if i < keys.len() - 1 {
                    assert(init[i] == x);
                }
            }
            if init.contains(x) {
                let i = choose|i: int| 0 <= i < init.len() && init[i] == x;
                assert(keys[i] == x);
            }
            if x == k {
                assert(keys[keys.len() - 1] == x);
            }
        }
        assert forall|x: Seq<u8>| after.contains_key(x) implies after[x] == target[x] by {
            if x == k && snap.contains_key(x) {
                if init.contains(x) {
                    if snap[x].contains_key(Some(t)) {
                        assert(!before[x].contains_key(Some(t)));
                    }
                } else if snap[x].contains_key(Some(t)) {
                    assert(before[x] == snap[x]);
                }
            }
        }
        assert(after =~= target);
    }
}

/// Aborting key by key comes to aborting all the keys at once.
pub proof fn lemma_abort_keys_at_once(snap: SnapshotView, keys: Seq<Seq<u8>>, t: u64)
    ensures
        spec_abort_keys(snap, keys, t) == spec_aborted(snap, keys, t),
    decreases keys.len(),
{
    if keys.len() == 0 {
        assert(spec_aborted(snap, keys, t) =~= snap);
    } else {
        let init = keys.drop_last();
        let k = keys.last();
        lemma_abort_keys_at_once(snap, init, t);
        let before = spec_aborted(snap, init, t);
        let after = spec_abort_key(before, k, t);
        let target = spec_aborted(snap, keys, t);
        assert forall|x: Seq<u8>| #[trigger] keys.contains(x) <==> init.contains(x) || x == k by {
            if keys.contains(x) {
                let i = choose|i: int| 0 <= i < keys.len() && keys[i] == x;
                if i < keys.len() - 1 {
                    assert(init[i] == x);
                }
            }
            if init.contains(x) {
                let i = choose|i: int| 0 <= i < init.len() && init[i] == x;
                assert(keys[i] == x);
            }
            if x == k {
                assert(keys[keys.len() - 1] == x);
            }
        }
        assert forall|x: Seq<u8>| after.contains_key(x) implies after[x] == target[x] by {
            if x == k && snap.contains_key(x) && init.contains(x) {
                assert(before[x] == snap[x].remove(Some(t)));
                assert(before[x].remove(Some(t)) =~= snap[x].remove(Some(t)));
            }
        }
        assert(after =~= target);
    }
}

/// Appending to the log leaves what is found at existing heights as it was.
pub proof fn lemma_find_extends(log: Seq<InstructionView>, x: InstructionView, key: Seq<u8>, height: u64)
    requires
        height < log.len(),
    ensures
        spec_find(log.push(x), key, height) == spec_find(log, key, height),
    decreases height,
{
    let l2 = log.push(x);
    assert(l2[height as int] == log[height as int]);
    if height > 0 {
        lemma_find_extends(log, x, key, (height - 1) as u64);
    }
    match log[height as int] {
        InstructionView::RevertOne { key: k, height: target } => {
            if target < height {
                lemma_find_extends(log, x, key, target);
            }
        },
        InstructionView::RevertAll { height: target } => {
            if target < height {
                lemma_find_extends(log, x, key, target);
            }
        },
        _ => {},
    }
}

/// Appending to the log leaves what existing pointers give as it was.
pub proof fn lemma_read_pointer_extends(log: Seq<InstructionView>, x: InstructionView, height: u64)
    requires
        height < log.len(),
    ensures
        spec_read_pointer(log.push(x), height) == spec_read_pointer(log, height),
{
    let l2 = log.push(x);
    assert(l2[height as int] == log[height as int]);
    match log[height as int] {
        InstructionView::RevertOne { key, height: target } => {
            if target < height {
                lemma_find_extends(log, x, key, target);
            }
        },
        InstructionView::TransactionalRevertOne { key, height: target, .. } => {
            if target < height {
                lemma_find_extends(log, x, key, target);
            }
        },
        _ => {},
    }
}

/// Appending to the log leaves what is read through a snapshot whose heights lie below the
/// log's end as it was.
pub proof fn lemma_read_snapshot_extends(log: Seq<InstructionView>, x: InstructionView, snap: SnapshotView, key: Seq<u8>, t: Option<u64>)
    requires
        snapshot_below(snap, log.len()),
    ensures
        spec_read_snapshot(log.push(x), snap, key, t) == spec_read_snapshot(log, snap, key, t),
{
    if snap.contains_key(key) {
        if snap[key].contains_key(t) {
            lemma_read_pointer_extends(log, x, snap[key][t]);
        }
        if snap[key].contains_key(None) {
            lemma_read_pointer_extends(log, x, snap[key][None]);
        }
    }
}

/// The height `key` points at for `t` in `snap`, if any.
pub open spec fn pointer_of(snap: SnapshotView, key: Seq<u8>, t: Option<u64>) -> Option<u64> {
    if snap.contains_key(key) && snap[key].contains_key(t) {
        Some(snap[key][t])
    } else {
        None
    }
}

/// The storage engine as the contracts see it.
pub struct StoreView {
    /// Every instruction, the one at index `h` being the one at height `h`.
    pub log: Seq<InstructionView>,
    /// The bytes of the log file: the version header, then the instruction packs.
    pub log_bytes: Seq<u8>,
    /// The height counter.
    pub current_height: u64,
    /// Where each key's state stands, for committed data and for each transaction.
    pub snapshot: SnapshotView,
    pub transaction_manager: TransactionManagerView,
    /// The error correction that new instructions are packed with.
    pub ecc_mode: ECCMode,
}

/// The log's length fits a machine word, and every height the engine points at, for committed
/// data or inside a live transaction, is in the log.
pub open spec fn spec_store_bounded(v: StoreView) -> bool {
    &&& v.log.len() <= usize::MAX
    &&& snapshot_below(v.snapshot, v.log.len())
    &&& forall|t: u64| #[trigger] v.transaction_manager.transactions.contains_key(t) ==> snapshot_below(
        v.transaction_manager.transactions[t].snapshot,
        v.log.len(),
    )
}

/// A live transaction's own snapshot points where the engine's snapshot points for that
/// transaction.
pub open spec fn spec_store_agreement(v: StoreView) -> bool {
    forall|t: u64, k: Seq<u8>| #[trigger]
        v.transaction_manager.transactions.contains_key(t) ==> pointer_of(v.snapshot, k, Some(t))
            == #[trigger] pointer_of(v.transaction_manager.transactions[t].snapshot, k, Some(t))
}

/// What the storage engine keeps true.
pub open spec fn spec_store_wf(v: StoreView) -> bool {
    spec_store_bounded(v) && spec_store_agreement(v)
}

/// What reading `key` gives: committed data for `None`; for a live transaction, what it wrote
/// itself, else what was committed when it started; an error for a transaction that is not
/// live.
pub open spec fn spec_get(v: StoreView, key: Seq<u8>, t: Option<u64>) -> Result<Option<Seq<u8>>, KVError> {
    match t {
        None => spec_read_snapshot(v.log, v.snapshot, key, None),
        Some(x) => {
            if v.transaction_manager.transactions.contains_key(x) {
                spec_read_snapshot(v.log, v.transaction_manager.transactions[x].snapshot, key, Some(x))
            } else {
                Err(KVError::TransactionManagerError(TransactionManagerError::TransactionNotAlive))
            }
        },
    }
}

/// The engine with `i` appended to its log, packed in the engine's error-correction mode.
pub open spec fn spec_append(v: StoreView, i: InstructionView) -> StoreView {
    StoreView { log: v.log.push(i), log_bytes: v.log_bytes + spec_pack(i, v.ecc_mode), ..v }
}

/// The transaction manager once `t` has written `key`.
pub open spec fn spec_tm_add_key(tm: TransactionManagerView, t: u64, key: Seq<u8>) -> TransactionManagerView {
    TransactionManagerView {
        current_transaction_id: tm.current_transaction_id,
        transactions: tm.transactions.insert(
            t,
            if tm.transactions.contains_key(t) {
                TransactionView {
                    affected_keys: tm.transactions[t].affected_keys.push(key),
                    snapshot: tm.transactions[t].snapshot,
                }
            } else {
                TransactionView { affected_keys: seq![key], snapshot: Map::empty() }
            },
        ),
    }
}

/// The transaction manager once the live transaction `t` points `key` at `height` in its own
/// snapshot.
pub open spec fn spec_tm_point(tm: TransactionManagerView, t: u64, key: Seq<u8>, height: u64) -> TransactionManagerView {
    TransactionManagerView {
        current_transaction_id: tm.current_transaction_id,
        transactions: tm.transactions.insert(
            t,
            TransactionView {
                affected_keys: tm.transactions[t].affected_keys,
                snapshot: spec_point(tm.transactions[t].snapshot, key, Some(t), height),
            },
        ),
    }
}

/// A transaction manager that has handed out no id and has no live transaction.
pub open spec fn spec_tm_new() -> TransactionManagerView {
    TransactionManagerView { current_transaction_id: 0, transactions: Map::empty() }
}

/// The error of a key longer than the engine takes.
pub open spec fn key_too_long_error() -> KVError {
    KVError::InstructionError(InstructionError::KeyExceedsMaxLength)
}

/// The error of a transaction that is not live.
pub open spec fn not_alive_error() -> KVError {
    KVError::TransactionManagerError(TransactionManagerError::TransactionNotAlive)
}

/// The error of a height counter at its largest value.
pub open spec fn height_overflow_error() -> KVError {
    KVError::ChainHeightError(ChainHeightError::ChainHeightOutOfRange)
}

/// The last steps of a write of `key` at the next height, for `t`: the instruction is
/// appended, the height counter goes up, and the key points at the instruction, in the
/// engine's snapshot and, for a transaction, in the transaction's own. `v` already has the key
/// among the transaction's keys.
pub open spec fn spec_write(v: StoreView, key: Seq<u8>, t: Option<u64>, i: InstructionView) -> (StoreView, Result<(), KVError>) {
    let n = v.log.len() as u64;
    let appended = spec_append(v, i);
    if v.current_height == u64::MAX {
        (appended, Err(height_overflow_error()))
    } else {
        (
            StoreView {
                current_height: (v.current_height + 1) as u64,
                snapshot: spec_point(v.snapshot, key, t, n),
                transaction_manager: match t {
                    Some(x) => spec_tm_point(v.transaction_manager, x, key, n),
                    None => v.transaction_manager,
                },
                ..appended
            },
            Ok(()),
        )
    }
}

/// What `set` does: refuses a key that is too long and a transaction that is not live; else
/// records the key among the transaction's, appends the set and points the key at it.
pub open spec fn spec_set(v: StoreView, key: Seq<u8>, value: Seq<u8>, t: Option<u64>) -> (StoreView, Result<(), KVError>) {
    if key.len() > MAX_KEY_LENGTH {
        (v, Err(key_too_long_error()))
    } else {
        match t {
            None => spec_write(v, key, t, InstructionView::Put { key, value }),
            Some(x) => {
                if !v.transaction_manager.transactions.contains_key(x) {
                    (v, Err(not_alive_error()))
                } else {
                    spec_write(
                        StoreView { transaction_manager: spec_tm_add_key(v.transaction_manager, x, key), ..v },
                        key,
                        t,
                        InstructionView::TransactionalSet { key, value, transaction_id: x },
                    )
                }
            },
        }
    }
}

/// What `revert_one` does: like `set`, with a revert to `height`; a height above the height
/// counter is refused before anything else but the key's length.
pub open spec fn spec_revert_one(v: StoreView, key: Seq<u8>, height: u64, t: Option<u64>) -> (StoreView, Result<(), KVError>) {
    if key.len() > MAX_KEY_LENGTH {
        (v, Err(key_too_long_error()))
    } else if height > v.current_height {
        (v, Err(KVError::RevertOutOfRange))
    } else {
        match t {
            None => spec_write(v, key, t, InstructionView::RevertOne { key, height }),
            Some(x) => {
                if !v.transaction_manager.transactions.contains_key(x) {
                    (v, Err(not_alive_error()))
                } else {
                    spec_write(
                        StoreView { transaction_manager: spec_tm_add_key(v.transaction_manager, x, key), ..v },
                        key,
                        t,
                        InstructionView::TransactionalRevertOne { key, height, transaction_id: x },
                    )
                }
            },
        }
    }
}

/// What `remove_one` does: like `set`, with a removal; the removal is appended to the log
/// before the transaction is checked, so a removal in a transaction that is not live is
/// refused with the removal left in the log.
pub open spec fn spec_remove_one(v: StoreView, key: Seq<u8>, t: Option<u64>) -> (StoreView, Result<(), KVError>) {
    if key.len() > MAX_KEY_LENGTH {
        (v, Err(key_too_long_error()))
    } else {
        match t {
            None => spec_write(v, key, t, InstructionView::RemoveOne { key }),
            Some(x) => {
                let i = InstructionView::TransactionalRemoveOne { key, transaction_id: x };
                if !v.transaction_manager.transactions.contains_key(x) {
                    (spec_append(v, i), Err(not_alive_error()))
                } else {
                    spec_write(
                        StoreView { transaction_manager: spec_tm_add_key(v.transaction_manager, x, key), ..v },
                        key,
                        t,
                        i,
                    )
                }
            },
        }
    }
}

/// What `remove_all` does: appends the removal, drops the committed pointers, then, once the
/// height counter has gone up, every pointer and every transaction; the transaction ids start
/// again from zero.
pub open spec fn spec_remove_all(v: StoreView) -> (StoreView, Result<(), KVError>) {
    let appended = spec_append(v, InstructionView::RemoveAll);
    if v.current_height == u64::MAX {
        (
            StoreView {
                snapshot: v.snapshot.map_values(|m: Map<Option<u64>, u64>| m.remove(None)),
                ..appended
            },
            Err(height_overflow_error()),
        )
    } else {
        (
            StoreView {
                current_height: (v.current_height + 1) as u64,
                snapshot: Map::empty(),
                transaction_manager: spec_tm_new(),
                ..appended
            },
            Ok(()),
        )
    }
}

/// What `start_transaction` does: hands out the next id, appends the start, and gives the new
/// transaction a copy of the engine's snapshot to read from.
pub open spec fn spec_start_transaction(v: StoreView) -> (StoreView, Result<u64, KVError>) {
    let tm = v.transaction_manager;
    if tm.current_transaction_id >= crate::constants::MAX_TRANSACTION_ID {
        (v, Err(KVError::TransactionManagerError(TransactionManagerError::TransactionIdOutOfRange)))
    } else {
        let t = (tm.current_transaction_id + 1) as u64;
        let appended = spec_append(v, InstructionView::TransactionStart { transaction_id: t });
        let started = StoreView {
            transaction_manager: TransactionManagerView {
                current_transaction_id: t,
                transactions: tm.transactions.insert(
                    t,
                    TransactionView { affected_keys: Seq::empty(), snapshot: v.snapshot },
                ),
            },
            ..appended
        };
        if v.current_height == u64::MAX {
            (started, Err(height_overflow_error()))
        } else {
            (StoreView { current_height: (v.current_height + 1) as u64, ..started }, Ok(t))
        }
    }
}

/// The keys that `t` wrote, none for a transaction that is not live.
pub open spec fn spec_affected_keys(tm: TransactionManagerView, t: u64) -> Seq<Seq<u8>> {
    if tm.transactions.contains_key(t) {
        tm.transactions[t].affected_keys
    } else {
        Seq::empty()
    }
}

/// What `commit_transaction` does: refuses a transaction that is not live; else appends the
/// commit, makes the transaction's pointers of the keys it wrote the committed ones, and
/// forgets the transaction.
pub open spec fn spec_commit(v: StoreView, t: u64) -> (StoreView, Result<(), KVError>) {
    let tm = v.transaction_manager;
    if !tm.transactions.contains_key(t) {
        (v, Err(not_alive_error()))
    } else {
        let appended = spec_append(v, InstructionView::TransactionCommit { transaction_id: t });
        let committed = StoreView {
            snapshot: spec_committed(v.snapshot, spec_affected_keys(tm, t), t),
            transaction_manager: TransactionManagerView {
                current_transaction_id: tm.current_transaction_id,
                transactions: tm.transactions.remove(t),
            },
            ..appended
        };
        if v.current_height == u64::MAX {
            (committed, Err(height_overflow_error()))
        } else {
            (StoreView { current_height: (v.current_height + 1) as u64, ..committed }, Ok(()))
        }
    }
}

/// What `abort_transaction` does: refuses a transaction that is not live; else appends the
/// abort, drops the transaction's pointers of the keys it wrote, and forgets the transaction.
pub open spec fn spec_abort(v: StoreView, t: u64) -> (StoreView, Result<(), KVError>) {
    let tm = v.transaction_manager;
    if !tm.transactions.contains_key(t) {
        (v, Err(not_alive_error()))
    } else {
        let appended = spec_append(v, InstructionView::TransactionAbort { transaction_id: t });
        let aborted = StoreView {
            snapshot: spec_aborted(v.snapshot, spec_affected_keys(tm, t), t),
            transaction_manager: TransactionManagerView {
                current_transaction_id: tm.current_transaction_id,
                transactions: tm.transactions.remove(t),
            },
            ..appended
        };
        if v.current_height == u64::MAX {
            (aborted, Err(height_overflow_error()))
        } else {
            (StoreView { current_height: (v.current_height + 1) as u64, ..aborted }, Ok(()))
        }
    }
}

/// The snapshot and the transactions that replaying the first `n` instructions of the log
/// gives: sets, reverts and removals point their key at themselves, committed or for their
/// transaction; a revert of everything replays the log up to and including the height it names
/// (one that names its own height or a later one is refused) and forgets every transaction; a
/// removal of everything drops the committed pointers; starts, commits and aborts do what they
/// do at run time, but a transaction's own snapshot keeps what it was at its start.
pub open spec fn spec_replay(log: Seq<InstructionView>, n: nat) -> Result<(SnapshotView, TransactionManagerView), KVError>
    decreases n,
{
    if n == 0 {
        Ok((Map::empty(), spec_tm_new()))
    } else if n > log.len() {
        spec_replay(log, log.len())
    } else {
        match spec_replay(log, (n - 1) as nat) {
            Err(e) => Err(e),
            Ok((snap, tm)) => {
                let i = (n - 1) as u64;
                match log[n - 1] {
                    InstructionView::Put { key, .. } => Ok((spec_point(snap, key, None, i), tm)),
                    InstructionView::RevertOne { key, .. } => Ok((spec_point(snap, key, None, i), tm)),
                    InstructionView::RemoveOne { key } => Ok((spec_point(snap, key, None, i), tm)),
                    InstructionView::RevertAll { height } => {
                        if height >= i {
                            Err(KVError::RevertOutOfRange)
                        } else {
                            match spec_replay(log, (height + 1) as nat) {
                                Err(e) => Err(e),
                                Ok((reverted, _)) => Ok((reverted, spec_tm_new())),
                            }
                        }
                    },
                    InstructionView::RemoveAll => Ok(
                        (snap.map_values(|m: Map<Option<u64>, u64>| m.remove(None)), tm),
                    ),
                    InstructionView::TransactionStart { transaction_id: t } => Ok(
                        (
                            snap,
                            TransactionManagerView {
                                current_transaction_id: t,
                                transactions: tm.transactions.insert(
                                    t,
                                    TransactionView { affected_keys: Seq::empty(), snapshot: snap },
                                ),
                            },
                        ),
                    ),
                    InstructionView::TransactionalSet { key, transaction_id: t, .. } => Ok(
                        (spec_point(snap, key, Some(t), i), spec_tm_add_key(tm, t, key)),
                    ),
                    InstructionView::TransactionalRevertOne { key, transaction_id: t, .. } => Ok(
                        (spec_point(snap, key, Some(t), i), spec_tm_add_key(tm, t, key)),
                    ),
                    InstructionView::TransactionalRemoveOne { key, transaction_id: t } => Ok(
                        (spec_point(snap, key, Some(t), i), spec_tm_add_key(tm, t, key)),
                    ),
                    InstructionView::TransactionCommit { transaction_id: t } => Ok(
                        (
                            spec_committed(snap, spec_affected_keys(tm, t), t),
                            TransactionManagerView {
                                current_transaction_id: tm.current_transaction_id,
                                transactions: tm.transactions.remove(t),
                            },
                        ),
                    ),
                    InstructionView::TransactionAbort { transaction_id: t } => Ok(
                        (
                            spec_aborted(snap, spec_affected_keys(tm, t), t),
                            TransactionManagerView {
                                current_transaction_id: tm.current_transaction_id,
                                transactions: tm.transactions.remove(t),
                            },
                        ),
                    ),
                }
            },
        }
    }
}

/// Replaying `n` instructions points only at heights below `n`, in the snapshot and in the
/// snapshots of the transactions.
pub proof fn lemma_replay_below(log: Seq<InstructionView>, n: nat)
    requires
        n <= log.len(),
    ensures
        spec_replay(log, n) matches Ok((snap, tm)) ==> snapshot_below(snap, n) && forall|t: u64| #[trigger]
            tm.transactions.contains_key(t) ==> snapshot_below(tm.transactions[t].snapshot, n),
    decreases n,
{
    if n > 0 {
        lemma_replay_below(log, (n - 1) as nat);
        match log[n - 1] {
            InstructionView::RevertAll { height } => {
                if height < n - 1 {
                    lemma_replay_below(log, (height + 1) as nat);
                }
            },
            _ => {},
        }
    }
}

/// What `revert_all` does: refuses a height above the height counter, and one that is not
/// below the end of the log (a revert of everything to its own height would replay itself);
/// else appends the revert, and replaces the snapshot with the one that replaying the log up to
/// and including that height gives, forgetting every transaction.
pub open spec fn spec_revert_all(v: StoreView, height: u64) -> (StoreView, Result<(), KVError>) {
    if height > v.current_height || height >= v.log.len() {
        (v, Err(KVError::RevertOutOfRange))
    } else {
        let appended = spec_append(v, InstructionView::RevertAll { height });
        if v.current_height == u64::MAX {
            (appended, Err(height_overflow_error()))
        } else {
            let bumped = StoreView { current_height: (v.current_height + 1) as u64, ..appended };
            match spec_replay(bumped.log, (height + 1) as nat) {
                Err(e) => (bumped, Err(e)),
                Ok((reverted, _)) => (
                    StoreView { snapshot: reverted, transaction_manager: spec_tm_new(), ..bumped },
                    Ok(()),
                ),
            }
        }
    }
}

/// Where `key` points for `t` once it has been pointed at `height` for `t0`.
pub proof fn lemma_pointer_of_point(snap: SnapshotView, key: Seq<u8>, t0: Option<u64>, height: u64, k: Seq<u8>, t: Option<u64>)
    ensures
        pointer_of(spec_point(snap, key, t0, height), k, t) == (if k == key && t == t0 {
            Some(height)
        } else {
            pointer_of(snap, k, t)
        }),
{
}

/// Committing `t0` leaves the pointers of every other transaction as they were.
pub proof fn lemma_pointer_of_committed(snap: SnapshotView, keys: Seq<Seq<u8>>, t0: u64, k: Seq<u8>, t: u64)
    requires
        t != t0,
    ensures
        pointer_of(spec_committed(snap, keys, t0), k, Some(t)) == pointer_of(snap, k, Some(t)),
        pointer_of(spec_aborted(snap, keys, t0), k, Some(t)) == pointer_of(snap, k, Some(t)),
{
}

/// Once replaying fails, replaying more of the log fails the same way.
pub proof fn lemma_replay_err_persists(log: Seq<InstructionView>, m: nat, n: nat)
    requires
        m <= n <= log.len(),
        spec_replay(log, m) is Err,
    ensures
        spec_replay(log, n) == spec_replay(log, m),
    decreases n - m,
{
    if m < n {
        lemma_replay_err_persists(log, m, (n - 1) as nat);
    }
}

/// The bytes of a log file as the engine takes them: an empty file gets the version header.
pub open spec fn spec_with_header(bytes: Seq<u8>, version: (u8, u8, u8)) -> Seq<u8> {
    if bytes.len() == 0 {
        seq![version.0, version.1, version.2]
    } else {
        bytes
    }
}

/// The engine that the bytes of a log file give before its unfinished transactions are
/// aborted: the instructions of the packs after the version header, up to the first place
/// where no whole pack stands, replayed.
pub open spec fn spec_loaded(bytes: Seq<u8>, ecc_mode: ECCMode, version: (u8, u8, u8)) -> Result<StoreView, KVError> {
    let b = spec_with_header(bytes, version);
    if b.len() < 3 {
        Err(KVError::LogVersionError(LogVersionError::LogVersionParsingError))
    } else {
        let log = spec_log_packs(b.subrange(3, b.len() as int)).map_values(|p: (InstructionView, nat)| p.0);
        match spec_replay(log, log.len()) {
            Err(e) => Err(e),
            Ok((snap, tm)) => Ok(
                StoreView {
                    log,
                    log_bytes: b,
                    current_height: log.len() as u64,
                    snapshot: snap,
                    transaction_manager: tm,
                    ecc_mode,
                },
            ),
        }
    }
}

/// Aborting the transactions `ids`, in order, stopping at the first failure.
pub open spec fn spec_abort_each(v: StoreView, ids: Seq<u64>) -> (StoreView, Result<(), KVError>)
    decreases ids.len(),
{
    if ids.len() == 0 {
        (v, Ok(()))
    } else {
        let (next, r) = spec_abort(v, ids[0]);
        if r is Err {
            (next, r)
        } else {
            spec_abort_each(next, ids.subrange(1, ids.len() as int))
        }
    }
}

/// The key an instruction sets, reverts or removes outside any transaction.
pub open spec fn plain_key(i: InstructionView) -> Option<Seq<u8>> {
    match i {
        InstructionView::Put { key, .. } => Some(key),
        InstructionView::RevertOne { key, .. } => Some(key),
        InstructionView::RemoveOne { key } => Some(key),
        _ => None,
    }
}

/// Whether an instruction below `i` sets, reverts or removes `key` outside any transaction.
pub open spec fn appeared_before(log: Seq<InstructionView>, key: Seq<u8>, i: int) -> bool {
    exists|j: int| 0 <= j < i && plain_key(log[j]) == Some(key)
}

/// Whether the instruction at `i` belongs to the history of `key`: it sets, reverts or removes
/// the key outside any transaction, or it reverts or removes everything after the key has
/// appeared.
pub open spec fn in_history(log: Seq<InstructionView>, key: Seq<u8>, i: int) -> bool {
    match log[i] {
        InstructionView::RevertAll { .. } => appeared_before(log, key, i),
        InstructionView::RemoveAll => appeared_before(log, key, i),
        _ => plain_key(log[i]) == Some(key),
    }
}

/// The instructions among the first `n` that belong to the history of `key`, with their
/// heights.
pub open spec fn spec_history(log: Seq<InstructionView>, key: Seq<u8>, n: nat) -> Seq<(InstructionView, u64)>
    decreases n,
{
    if n == 0 {
        Seq::empty()
    } else {
        let before = spec_history(log, key, (n - 1) as nat);
        if in_history(log, key, n - 1) {
            before.push((log[n - 1], (n - 1) as u64))
        } else {
            before
        }
    }
}

/// What `get_all_current` gives for `key`: the key and its value where its committed pointer
/// is a set, or a revert to a value, outside any transaction; nothing otherwise.
pub open spec fn spec_current_entry(log: Seq<InstructionView>, snap: SnapshotView, key: Seq<u8>) -> Result<Option<(Seq<u8>, Seq<u8>)>, KVError> {
    match pointer_of(snap, key, None) {
        None => Ok(None),
        Some(h) => {
            if h >= log.len() {
                Ok(None)
            } else {
                match log[h as int] {
                    InstructionView::Put { key: k, value } => Ok(Some((k, value))),
                    InstructionView::RevertOne { key: k, .. } => {
                        match spec_read_pointer(log, h) {
                            Ok(Some(value)) => Ok(Some((k, value))),
                            Ok(None) => Ok(None),
                            Err(e) => Err(e),
                        }
                    },
                    _ => Ok(None),
                }
            }
        },
    }
}

} // verus!
