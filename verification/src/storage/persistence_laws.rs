//! What the log keeps: every operation leaves the engine in the state that replaying its own
//! log gives, as far as committed data and live transactions go, so that reopening the bytes
//! of the log gives back every committed read.

use vstd::prelude::*;
use crate::storage::instruction::{
    instruction_fits, lemma_instruction_bytes_len, lemma_pack_roundtrip, spec_instruction_bytes, spec_pack, spec_pack_width, spec_unpack,
    InstructionView,
};
use crate::storage::instruction_iterator::spec_log_packs;
use crate::storage::kv_model::{
    lemma_pointer_of_committed, lemma_pointer_of_point, lemma_read_snapshot_extends, lemma_replay_below,
    pointer_of, snapshot_below, spec_abort, spec_abort_each, spec_affected_keys, spec_get, spec_loaded,
    spec_read_snapshot, spec_store_wf, spec_with_header,
    spec_aborted, spec_append, spec_commit, spec_committed, spec_point, spec_remove_all,
    spec_remove_one, spec_replay, spec_revert_all, spec_revert_one, spec_set, spec_start_transaction,
    spec_tm_add_key, spec_tm_new, spec_write, SnapshotView, StoreView,
};
use crate::storage::transaction_manager::TransactionManagerView;

verus! {

/// A snapshot and transaction manager agree with replayed ones: the same committed pointers,
/// and for each live transaction, a live one in the replay with the same keys, pointing where
/// the snapshot points for each of them.
pub open spec fn agrees(ls: SnapshotView, ltm: TransactionManagerView, snap: SnapshotView, tm: TransactionManagerView) -> bool {
    &&& forall|k: Seq<u8>|
        #![trigger pointer_of(ls, k, None)]
        #![trigger pointer_of(snap, k, None)]
        pointer_of(ls, k, None) == pointer_of(snap, k, None)
    &&& forall|t: u64|
        #[trigger] ltm.transactions.contains_key(t) ==> tm.transactions.contains_key(t)
            && tm.transactions[t].affected_keys == ltm.transactions[t].affected_keys
    &&& forall|t: u64, k: Seq<u8>|
        #![trigger pointer_of(ls, k, Some(t))]
        #![trigger pointer_of(snap, k, Some(t))]
        ltm.transactions.contains_key(t) && ltm.transactions[t].affected_keys.contains(k)
            ==> pointer_of(ls, k, Some(t)) == pointer_of(snap, k, Some(t))
}

/// The engine agrees with a replayed snapshot and transaction manager; see `agrees`.
pub open spec fn agrees_with(v: StoreView, snap: SnapshotView, tm: TransactionManagerView) -> bool {
    agrees(v.snapshot, v.transaction_manager, snap, tm)
}

/// The engine is what replaying its whole log gives, for committed data and live
/// transactions.
pub open spec fn replays_to_itself(v: StoreView) -> bool {
    spec_replay(v.log, v.log.len()) matches Ok((snap, tm)) && agrees_with(v, snap, tm)
}

/// Replaying a prefix of the log does not look past it.
pub proof fn lemma_replay_prefix(log: Seq<InstructionView>, x: InstructionView, m: nat)
    requires
        m <= log.len(),
    ensures
        spec_replay(log.push(x), m) == spec_replay(log, m),
    decreases m,
{
    let l2 = log.push(x);
    if m > 0 {
        lemma_replay_prefix(log, x, (m - 1) as nat);
        assert(l2[m - 1] == log[m - 1]);
        match log[m - 1] {
            InstructionView::RevertAll { height } => {
                if height < m - 1 {
                    lemma_replay_prefix(log, x, (height + 1) as nat);
                }
            },
            _ => {},
        }
    }
}

/// Replaying the log with one more instruction is one step on from replaying the log.
pub proof fn lemma_replay_push(log: Seq<InstructionView>, x: InstructionView)
    ensures
        spec_replay(log.push(x), log.len() + 1) == match spec_replay(log, log.len()) {
            Err(e) => Err(e),
            Ok((snap, tm)) => {
                let i = log.len() as u64;
                match x {
                    InstructionView::Put { key, .. } => Ok((spec_point(snap, key, None, i), tm)),
                    InstructionView::RevertOne { key, .. } => Ok((spec_point(snap, key, None, i), tm)),
                    InstructionView::RemoveOne { key } => Ok((spec_point(snap, key, None, i), tm)),
                    InstructionView::RevertAll { height } => {
                        if height >= i {
                            Err(crate::storage::errors::KVError::RevertOutOfRange)
                        } else {
                            match spec_replay(log, (height + 1) as nat) {
                                Err(e) => Err(e),
                                Ok((reverted, _)) => Ok((reverted, spec_tm_new())),
                            }
                        }
                    },
                    InstructionView::RemoveAll => Ok((snap.map_values(|m: Map<Option<u64>, u64>| m.remove(None)), tm)),
                    InstructionView::TransactionStart { transaction_id: t } => Ok(
                        (
                            snap,
                            TransactionManagerView {
                                current_transaction_id: t,
                                transactions: tm.transactions.insert(
                                    t,
                                    crate::storage::transaction_manager::TransactionView {
                                        affected_keys: Seq::empty(),
                                        snapshot: snap,
                                    },
                                ),
                            },
                        ),
                    ),
                    InstructionView::TransactionalSet { key, transaction_id: t, .. } => Ok(
                        (spec_point(snap, key, Some(t), i), spec_tm_add_key(tm, t, key)),
                    ),
                    InstructionView::TransactionalRevertOne { key, transaction_id: t, .. } => Ok(
                        (spec_point(snap, key, Some(t), i), spec_tm_add_key(tm, t, key)),
                    ),
                    InstructionView::TransactionalRemoveOne { key, transaction_id: t } => Ok(
                        (spec_point(snap, key, Some(t), i), spec_tm_add_key(tm, t, key)),
                    ),
                    InstructionView::TransactionCommit { transaction_id: t } => Ok(
                        (
                            spec_committed(snap, spec_affected_keys(tm, t), t),
                            TransactionManagerView {
                                current_transaction_id: tm.current_transaction_id,
                                transactions: tm.transactions.remove(t),
                            },
                        ),
                    ),
                    InstructionView::TransactionAbort { transaction_id: t } => Ok(
                        (
                            spec_aborted(snap, spec_affected_keys(tm, t), t),
                            TransactionManagerView {
                                current_transaction_id: tm.current_transaction_id,
                                transactions: tm.transactions.remove(t),
                            },
                        ),
                    ),
                }
            },
        },
{
    let l2 = log.push(x);
    lemma_replay_prefix(log, x, log.len());
    assert(l2[log.len() as int] == x);
    match x {
        InstructionView::RevertAll { height } => {
            if height < log.len() {
                lemma_replay_prefix(log, x, (height + 1) as nat);
            }
        },
        _ => {},
    }
}

/// Pointing a key outside any transaction, on both sides, keeps the agreement.
proof fn lemma_plain_point_agrees(ls: SnapshotView, ltm: TransactionManagerView, snap: SnapshotView, tm: TransactionManagerView, key: Seq<u8>, n: u64)
    requires
        agrees(ls, ltm, snap, tm),
    ensures
        agrees(spec_point(ls, key, None, n), ltm, spec_point(snap, key, None, n), tm),
{
    assert forall|k: Seq<u8>| #[trigger] pointer_of(spec_point(ls, key, None, n), k, None) == pointer_of(spec_point(snap, key, None, n), k, None) by {
        lemma_pointer_of_point(ls, key, None, n, k, None);
        lemma_pointer_of_point(snap, key, None, n, k, None);
        assert(pointer_of(ls, k, None) == pointer_of(snap, k, None));
    }
    assert forall|t: u64, k: Seq<u8>|
        ltm.transactions.contains_key(t) && ltm.transactions[t].affected_keys.contains(k)
        implies #[trigger] pointer_of(spec_point(ls, key, None, n), k, Some(t)) == pointer_of(spec_point(snap, key, None, n), k, Some(t)) by {
        lemma_pointer_of_point(ls, key, None, n, k, Some(t));
        lemma_pointer_of_point(snap, key, None, n, k, Some(t));
        assert(pointer_of(ls, k, Some(t)) == pointer_of(snap, k, Some(t)));
    }
}

/// A live transaction pointing a key it now has among its keys, on both sides, keeps the
/// agreement.
proof fn lemma_transactional_point_agrees(
    ls: SnapshotView,
    ltm: TransactionManagerView,
    snap: SnapshotView,
    tm: TransactionManagerView,
    key: Seq<u8>,
    x: u64,
    n: u64,
    ltm2: TransactionManagerView,
)
    requires
        agrees(ls, ltm, snap, tm),
        ltm.transactions.contains_key(x),
        ltm2.transactions.dom() == ltm.transactions.dom(),
        ltm2.transactions[x].affected_keys == ltm.transactions[x].affected_keys.push(key),
        forall|t: u64| t != x && #[trigger] ltm.transactions.contains_key(t) ==> ltm2.transactions[t].affected_keys == ltm.transactions[t].affected_keys,
    ensures
        agrees(spec_point(ls, key, Some(x), n), ltm2, spec_point(snap, key, Some(x), n), spec_tm_add_key(tm, x, key)),
{
    let ls2 = spec_point(ls, key, Some(x), n);
    let snap2 = spec_point(snap, key, Some(x), n);
    let tm2 = spec_tm_add_key(tm, x, key);
    assert forall|k: Seq<u8>| #[trigger] pointer_of(ls2, k, None) == pointer_of(snap2, k, None) by {
        lemma_pointer_of_point(ls, key, Some(x), n, k, None);
        lemma_pointer_of_point(snap, key, Some(x), n, k, None);
        assert(pointer_of(ls, k, None) == pointer_of(snap, k, None));
    }
    assert forall|t: u64| #[trigger] ltm2.transactions.contains_key(t) implies tm2.transactions.contains_key(t)
        && tm2.transactions[t].affected_keys == ltm2.transactions[t].affected_keys by {
        assert(ltm.transactions.contains_key(t));
    }
    assert forall|t: u64, k: Seq<u8>|
        ltm2.transactions.contains_key(t) && ltm2.transactions[t].affected_keys.contains(k)
        implies #[trigger] pointer_of(ls2, k, Some(t)) == pointer_of(snap2, k, Some(t)) by {
        lemma_pointer_of_point(ls, key, Some(x), n, k, Some(t));
        lemma_pointer_of_point(snap, key, Some(x), n, k, Some(t));
        assert(ltm.transactions.contains_key(t));
        if !(k == key && t == x) {
            if t == x {
                let ks = ltm.transactions[x].affected_keys;
                let j = choose|j: int| 0 <= j < ks.push(key).len() && ks.push(key)[j] == k;
                assert(ks[j] == k);
                assert(ks.contains(k));
            }
            assert(pointer_of(ls, k, Some(t)) == pointer_of(snap, k, Some(t)));
        }
    }
}

/// The instruction points `key` outside any transaction.
pub open spec fn plain_write_of(ins: InstructionView, key: Seq<u8>) -> bool {
    ||| ins matches InstructionView::Put { key: k, .. } && k == key
    ||| ins matches InstructionView::RevertOne { key: k, .. } && k == key
    ||| ins matches InstructionView::RemoveOne { key: k } && k == key
}

/// The instruction points `key` for transaction `x`.
pub open spec fn transactional_write_of(ins: InstructionView, key: Seq<u8>, x: u64) -> bool {
    ||| ins matches InstructionView::TransactionalSet { key: k, transaction_id: t, .. } && k == key && t == x
    ||| ins matches InstructionView::TransactionalRevertOne { key: k, transaction_id: t, .. } && k == key && t == x
    ||| ins matches InstructionView::TransactionalRemoveOne { key: k, transaction_id: t } && k == key && t == x
}

/// A write outside any transaction keeps the engine what its log replays to.
proof fn lemma_plain_write_keeps(v: StoreView, key: Seq<u8>, ins: InstructionView)
    requires
        replays_to_itself(v),
        v.current_height < u64::MAX,
        v.log.len() <= usize::MAX,
        plain_write_of(ins, key),
    ensures
        replays_to_itself(spec_write(v, key, None, ins).0),
{
    let w = spec_write(v, key, None, ins).0;
    lemma_replay_push(v.log, ins);
    let (snap, tm) = spec_replay(v.log, v.log.len()).unwrap();
    assert(w.log == v.log.push(ins));
    lemma_plain_point_agrees(v.snapshot, v.transaction_manager, snap, tm, key, v.log.len() as u64);
}

/// A write by a live transaction keeps the engine what its log replays to.
proof fn lemma_transactional_write_keeps(v: StoreView, key: Seq<u8>, x: u64, ins: InstructionView)
    requires
        replays_to_itself(v),
        v.current_height < u64::MAX,
        v.log.len() <= usize::MAX,
        v.transaction_manager.transactions.contains_key(x),
        transactional_write_of(ins, key, x),
    ensures
        replays_to_itself(
            spec_write(
                StoreView { transaction_manager: spec_tm_add_key(v.transaction_manager, x, key), ..v },
                key,
                Some(x),
                ins,
            ).0,
        ),
{
    let v1 = StoreView { transaction_manager: spec_tm_add_key(v.transaction_manager, x, key), ..v };
    let w = spec_write(v1, key, Some(x), ins).0;
    lemma_replay_push(v.log, ins);
    let (snap, tm) = spec_replay(v.log, v.log.len()).unwrap();
    assert(w.log == v.log.push(ins));
    let ltm = v.transaction_manager;
    let ltm2 = w.transaction_manager;
    assert(ltm2.transactions.dom() =~= ltm.transactions.dom());
    lemma_transactional_point_agrees(v.snapshot, ltm, snap, tm, key, x, v.log.len() as u64, ltm2);
}

/// A set keeps the engine what its log replays to, where the height counter can still go up.
pub proof fn law_set_keeps_replay(v: StoreView, key: Seq<u8>, value: Seq<u8>, t: Option<u64>)
    requires
        replays_to_itself(v),
        v.current_height < u64::MAX,
        v.log.len() <= usize::MAX,
    ensures
        replays_to_itself(spec_set(v, key, value, t).0),
{
    if key.len() <= crate::constants::MAX_KEY_LENGTH {
        match t {
            None => lemma_plain_write_keeps(v, key, InstructionView::Put { key, value }),
            Some(x) => {
                if v.transaction_manager.transactions.contains_key(x) {
                    lemma_transactional_write_keeps(v, key, x, InstructionView::TransactionalSet { key, value, transaction_id: x });
                }
            },
        }
    }
}

/// A revert of one key keeps the engine what its log replays to, where the height counter can
/// still go up.
pub proof fn law_revert_one_keeps_replay(v: StoreView, key: Seq<u8>, height: u64, t: Option<u64>)
    requires
        replays_to_itself(v),
        v.current_height < u64::MAX,
        v.log.len() <= usize::MAX,
    ensures
        replays_to_itself(spec_revert_one(v, key, height, t).0),
{
    if key.len() <= crate::constants::MAX_KEY_LENGTH && height <= v.current_height {
        match t {
            None => lemma_plain_write_keeps(v, key, InstructionView::RevertOne { key, height }),
            Some(x) => {
                if v.transaction_manager.transactions.contains_key(x) {
                    lemma_transactional_write_keeps(v, key, x, InstructionView::TransactionalRevertOne { key, height, transaction_id: x });
                }
            },
        }
    }
}

/// A removal of one key keeps the engine what its log replays to, where the height counter
/// can still go up; a removal in a transaction that is not live, left in the log, points
/// nothing the engine reads.
pub proof fn law_remove_one_keeps_replay(v: StoreView, key: Seq<u8>, t: Option<u64>)
    requires
        replays_to_itself(v),
        v.current_height < u64::MAX,
        v.log.len() <= usize::MAX,
    ensures
        replays_to_itself(spec_remove_one(v, key, t).0),
{
    if key.len() <= crate::constants::MAX_KEY_LENGTH {
        match t {
            None => lemma_plain_write_keeps(v, key, InstructionView::RemoveOne { key }),
            Some(x) => {
                let ins = InstructionView::TransactionalRemoveOne { key, transaction_id: x };
                if v.transaction_manager.transactions.contains_key(x) {
                    lemma_transactional_write_keeps(v, key, x, ins);
                } else {
                    let w = spec_append(v, ins);
                    lemma_replay_push(v.log, ins);
                    let (snap, tm) = spec_replay(v.log, v.log.len()).unwrap();
                    let snap2 = spec_point(snap, key, Some(x), v.log.len() as u64);
                    let tm2 = spec_tm_add_key(tm, x, key);
                    let ltm = v.transaction_manager;
                    assert forall|k: Seq<u8>| #[trigger] pointer_of(v.snapshot, k, None) == pointer_of(snap2, k, None) by {
                        lemma_pointer_of_point(snap, key, Some(x), v.log.len() as u64, k, None);
                        assert(pointer_of(v.snapshot, k, None) == pointer_of(snap, k, None));
                    }
                    assert forall|t2: u64| #[trigger] ltm.transactions.contains_key(t2) implies tm2.transactions.contains_key(t2)
                        && tm2.transactions[t2].affected_keys == ltm.transactions[t2].affected_keys by {
                        assert(t2 != x);
                    }
                    assert forall|t2: u64, k: Seq<u8>|
                        ltm.transactions.contains_key(t2) && ltm.transactions[t2].affected_keys.contains(k)
                        implies #[trigger] pointer_of(v.snapshot, k, Some(t2)) == pointer_of(snap2, k, Some(t2)) by {
                        lemma_pointer_of_point(snap, key, Some(x), v.log.len() as u64, k, Some(t2));
                        assert(t2 != x);
                        assert(pointer_of(v.snapshot, k, Some(t2)) == pointer_of(snap, k, Some(t2)));
                    }
                    assert(agrees_with(w, snap2, tm2));
                }
            },
        }
    }
}

/// Where a key points for committed data once `t` has committed `keys`.
proof fn lemma_committed_none(snap: SnapshotView, keys: Seq<Seq<u8>>, t: u64, k: Seq<u8>)
    ensures
        pointer_of(spec_committed(snap, keys, t), k, None) == (if keys.contains(k) && pointer_of(snap, k, Some(t)) is Some {
            pointer_of(snap, k, Some(t))
        } else {
            pointer_of(snap, k, None)
        }),
        pointer_of(spec_aborted(snap, keys, t), k, None) == pointer_of(snap, k, None),
{
}

/// Committing or aborting a live transaction, on both sides, keeps the agreement.
proof fn lemma_finish_agrees(ls: SnapshotView, ltm: TransactionManagerView, snap: SnapshotView, tm: TransactionManagerView, t: u64, commit: bool)
    requires
        agrees(ls, ltm, snap, tm),
        ltm.transactions.contains_key(t),
    ensures
        ({
            let lkeys = spec_affected_keys(ltm, t);
            let rkeys = spec_affected_keys(tm, t);
            let ltm2 = TransactionManagerView {
                current_transaction_id: ltm.current_transaction_id,
                transactions: ltm.transactions.remove(t),
            };
            let tm2 = TransactionManagerView {
                current_transaction_id: tm.current_transaction_id,
                transactions: tm.transactions.remove(t),
            };
            if commit {
                agrees(spec_committed(ls, lkeys, t), ltm2, spec_committed(snap, rkeys, t), tm2)
            } else {
                agrees(spec_aborted(ls, lkeys, t), ltm2, spec_aborted(snap, rkeys, t), tm2)
            }
        }),
{
    let lkeys = spec_affected_keys(ltm, t);
    let rkeys = spec_affected_keys(tm, t);
    assert(lkeys == rkeys);
    let ls2 = if commit { spec_committed(ls, lkeys, t) } else { spec_aborted(ls, lkeys, t) };
    let snap2 = if commit { spec_committed(snap, rkeys, t) } else { spec_aborted(snap, rkeys, t) };
    let ltm2 = TransactionManagerView {
        current_transaction_id: ltm.current_transaction_id,
        transactions: ltm.transactions.remove(t),
    };
    let tm2 = TransactionManagerView {
        current_transaction_id: tm.current_transaction_id,
        transactions: tm.transactions.remove(t),
    };
    assert forall|k: Seq<u8>| #[trigger] pointer_of(ls2, k, None) == pointer_of(snap2, k, None) by {
        lemma_committed_none(ls, lkeys, t, k);
        lemma_committed_none(snap, rkeys, t, k);
        assert(pointer_of(ls, k, None) == pointer_of(snap, k, None));
        if lkeys.contains(k) {
            assert(pointer_of(ls, k, Some(t)) == pointer_of(snap, k, Some(t)));
        }
    }
    assert forall|t2: u64| #[trigger] ltm2.transactions.contains_key(t2) implies tm2.transactions.contains_key(t2)
        && tm2.transactions[t2].affected_keys == ltm2.transactions[t2].affected_keys by {
        assert(ltm.transactions.contains_key(t2));
    }
    assert forall|t2: u64, k: Seq<u8>|
        ltm2.transactions.contains_key(t2) && ltm2.transactions[t2].affected_keys.contains(k)
        implies #[trigger] pointer_of(ls2, k, Some(t2)) == pointer_of(snap2, k, Some(t2)) by {
        assert(t2 != t);
        assert(ltm.transactions.contains_key(t2));
        lemma_pointer_of_committed(ls, lkeys, t, k, t2);
        lemma_pointer_of_committed(snap, rkeys, t, k, t2);
        assert(pointer_of(ls, k, Some(t2)) == pointer_of(snap, k, Some(t2)));
    }
}

/// A commit keeps the engine what its log replays to.
pub proof fn law_commit_keeps_replay(v: StoreView, t: u64)
    requires
        replays_to_itself(v),
    ensures
        replays_to_itself(spec_commit(v, t).0),
{
    if v.transaction_manager.transactions.contains_key(t) {
        let ins = InstructionView::TransactionCommit { transaction_id: t };
        lemma_replay_push(v.log, ins);
        let (snap, tm) = spec_replay(v.log, v.log.len()).unwrap();
        lemma_finish_agrees(v.snapshot, v.transaction_manager, snap, tm, t, true);
    }
}

/// An abort keeps the engine what its log replays to.
pub proof fn law_abort_keeps_replay(v: StoreView, t: u64)
    requires
        replays_to_itself(v),
    ensures
        replays_to_itself(spec_abort(v, t).0),
{
    if v.transaction_manager.transactions.contains_key(t) {
        let ins = InstructionView::TransactionAbort { transaction_id: t };
        lemma_replay_push(v.log, ins);
        let (snap, tm) = spec_replay(v.log, v.log.len()).unwrap();
        lemma_finish_agrees(v.snapshot, v.transaction_manager, snap, tm, t, false);
    }
}

/// The start of a transaction keeps the engine what its log replays to.
pub proof fn law_start_transaction_keeps_replay(v: StoreView)
    requires
        replays_to_itself(v),
    ensures
        replays_to_itself(spec_start_transaction(v).0),
{
    let tm0 = v.transaction_manager;
    if tm0.current_transaction_id < crate::constants::MAX_TRANSACTION_ID {
        let t = (tm0.current_transaction_id + 1) as u64;
        let ins = InstructionView::TransactionStart { transaction_id: t };
        lemma_replay_push(v.log, ins);
        let (snap, tm) = spec_replay(v.log, v.log.len()).unwrap();
        let w = spec_start_transaction(v).0;
        let ltm2 = w.transaction_manager;
        let tm2 = TransactionManagerView {
            current_transaction_id: t,
            transactions: tm.transactions.insert(
                t,
                crate::storage::transaction_manager::TransactionView { affected_keys: Seq::empty(), snapshot: snap },
            ),
        };
        assert forall|t2: u64| #[trigger] ltm2.transactions.contains_key(t2) implies tm2.transactions.contains_key(t2)
            && tm2.transactions[t2].affected_keys == ltm2.transactions[t2].affected_keys by {
            if t2 != t {
                assert(tm0.transactions.contains_key(t2));
            }
        }
        assert forall|t2: u64, k: Seq<u8>|
            ltm2.transactions.contains_key(t2) && ltm2.transactions[t2].affected_keys.contains(k)
            implies #[trigger] pointer_of(w.snapshot, k, Some(t2)) == pointer_of(snap, k, Some(t2)) by {
            assert(t2 != t);
            assert(tm0.transactions.contains_key(t2));
        }
        assert(agrees(w.snapshot, ltm2, snap, tm2));
    }
}

/// Removing everything keeps the engine what its log replays to.
pub proof fn law_remove_all_keeps_replay(v: StoreView)
    requires
        replays_to_itself(v),
    ensures
        replays_to_itself(spec_remove_all(v).0),
{
    let ins = InstructionView::RemoveAll;
    lemma_replay_push(v.log, ins);
    let (snap, tm) = spec_replay(v.log, v.log.len()).unwrap();
    let w = spec_remove_all(v).0;
    let snap2 = snap.map_values(|m: Map<Option<u64>, u64>| m.remove(None));
    assert forall|k: Seq<u8>| #[trigger] pointer_of(w.snapshot, k, None) == pointer_of(snap2, k, None) by {
        assert(pointer_of(snap2, k, None) is None);
    }
    if v.current_height == u64::MAX {
        assert forall|t2: u64, k: Seq<u8>|
            w.transaction_manager.transactions.contains_key(t2) && w.transaction_manager.transactions[t2].affected_keys.contains(k)
            implies #[trigger] pointer_of(w.snapshot, k, Some(t2)) == pointer_of(snap2, k, Some(t2)) by {
            assert(pointer_of(v.snapshot, k, Some(t2)) == pointer_of(snap, k, Some(t2)));
        }
    }
    assert(agrees_with(w, snap2, tm));
}

/// A revert of everything keeps the engine what its log replays to, where the height counter
/// can still go up.
pub proof fn law_revert_all_keeps_replay(v: StoreView, height: u64)
    requires
        replays_to_itself(v),
        v.current_height < u64::MAX,
        v.log.len() <= usize::MAX,
    ensures
        replays_to_itself(spec_revert_all(v, height).0),
{
    if height <= v.current_height && height < v.log.len() {
        let ins = InstructionView::RevertAll { height };
        lemma_replay_push(v.log, ins);
        lemma_replay_prefix(v.log, ins, (height + 1) as nat);
        if spec_replay(v.log, (height + 1) as nat) is Err {
            crate::storage::kv_model::lemma_replay_err_persists(v.log, (height + 1) as nat, v.log.len());
        }
        let (reverted, _) = spec_replay(v.log, (height + 1) as nat).unwrap();
        let w = spec_revert_all(v, height).0;
        assert(agrees(w.snapshot, w.transaction_manager, reverted, spec_tm_new()));
    }
}

/// The widths of packs, added up.
pub open spec fn packs_width(ps: Seq<(InstructionView, nat)>) -> nat
    decreases ps.len(),
{
    if ps.len() == 0 {
        0
    } else {
        ps[0].1 + packs_width(ps.drop_first())
    }
}

/// The bytes after the version header are whole packs, one after another, of the log's
/// instructions, in order.
pub open spec fn log_bytes_read_back(v: StoreView) -> bool {
    let tail = v.log_bytes.subrange(3, v.log_bytes.len() as int);
    &&& v.log_bytes.len() >= 3
    &&& spec_log_packs(tail).map_values(|p: (InstructionView, nat)| p.0) == v.log
    &&& packs_width(spec_log_packs(tail)) == tail.len()
}

/// An instruction whose pack reads back: its widths fit a varint, and its pack's width fits
/// the header's four bytes.
pub open spec fn pack_fits(i: InstructionView) -> bool {
    instruction_fits(i) && 1 + 3 * spec_instruction_bytes(i).len() <= u32::MAX
}

/// What a whole pack gives does not change with what follows it.
proof fn lemma_unpack_extends(a: Seq<u8>, c: Seq<u8>)
    requires
        spec_unpack(a) matches Some(Ok((_, n))) && n <= a.len(),
    ensures
        spec_unpack(a + c) == spec_unpack(a),
{
    let d = a + c;
    assert(d.subrange(0, 4) =~= a.subrange(0, 4));
    assert(d.subrange(5, 9) =~= a.subrange(5, 9));
    assert(d[4] == a[4]);
    assert(d[9] == a[9]);
    let full = 9 + spec_pack_width(a);
    assert(d.subrange(10, full as int) =~= a.subrange(10, full as int));
}

/// The widths of two runs of packs add up.
proof fn lemma_packs_width_concat(x: Seq<(InstructionView, nat)>, y: Seq<(InstructionView, nat)>)
    ensures
        packs_width(x + y) == packs_width(x) + packs_width(y),
    decreases x.len(),
{
    if x.len() > 0 {
        assert((x + y).drop_first() =~= x.drop_first() + y);
        lemma_packs_width_concat(x.drop_first(), y);
    } else {
        assert(x + y =~= y);
    }
}

/// Bytes that are whole packs read, followed by more bytes, as their packs followed by what
/// the rest reads as.
proof fn lemma_log_packs_concat(a: Seq<u8>, c: Seq<u8>)
    requires
        packs_width(spec_log_packs(a)) == a.len(),
    ensures
        spec_log_packs(a + c) == spec_log_packs(a) + spec_log_packs(c),
    decreases a.len(),
{
    if a.len() == 0 {
        assert(a + c =~= c);
        assert(spec_log_packs(a) =~= Seq::<(InstructionView, nat)>::empty());
        assert(spec_log_packs(a) + spec_log_packs(c) =~= spec_log_packs(c));
    } else {
        match spec_unpack(a) {
            Some(Ok((v, n))) => {
                if 0 < n <= a.len() {
                    let rest = a.subrange(n as int, a.len() as int);
                    let first = seq![(v, n)];
                    assert(spec_log_packs(a) == first + spec_log_packs(rest));
                    assert((first + spec_log_packs(rest)).drop_first() =~= spec_log_packs(rest));
                    assert(packs_width(spec_log_packs(rest)) == rest.len());
                    lemma_log_packs_concat(rest, c);
                    lemma_unpack_extends(a, c);
                    let d = a + c;
                    assert(d.subrange(n as int, d.len() as int) =~= rest + c);
                    assert(spec_log_packs(d) == first + spec_log_packs(rest + c));
                    assert(first + (spec_log_packs(rest) + spec_log_packs(c)) =~= (first + spec_log_packs(rest)) + spec_log_packs(c));
                } else {
                    assert(spec_log_packs(a) =~= Seq::<(InstructionView, nat)>::empty());
                }
            },
            _ => {
                assert(spec_log_packs(a) =~= Seq::<(InstructionView, nat)>::empty());
            },
        }
    }
}

/// A pack alone reads as its instruction, with its width.
proof fn lemma_log_packs_single(i: InstructionView, mode: crate::storage::ecc::ECCMode)
    requires
        pack_fits(i),
    ensures
        spec_log_packs(spec_pack(i, mode)) == seq![(i, spec_pack(i, mode).len())],
        packs_width(spec_log_packs(spec_pack(i, mode))) == spec_pack(i, mode).len(),
{
    let p = spec_pack(i, mode);
    lemma_pack_roundtrip(i, mode, Seq::empty());
    assert(p + Seq::<u8>::empty() =~= p);
    assert(p.subrange(p.len() as int, p.len() as int) =~= Seq::<u8>::empty());
    assert(spec_log_packs(Seq::<u8>::empty()) =~= Seq::<(InstructionView, nat)>::empty());
    assert(spec_log_packs(p) =~= seq![(i, p.len())]);
    let one = seq![(i, p.len())];
    assert(one.drop_first() =~= Seq::<(InstructionView, nat)>::empty());
    assert(packs_width(Seq::<(InstructionView, nat)>::empty()) == 0);
    assert(packs_width(one) == one[0].1 + packs_width(one.drop_first()));
}

/// Appending an instruction whose pack reads back keeps the bytes of the log reading back as
/// the log.
pub proof fn law_append_keeps_log_readable(v: StoreView, i: InstructionView)
    requires
        log_bytes_read_back(v),
        pack_fits(i),
    ensures
        log_bytes_read_back(spec_append(v, i)),
{
    let w = spec_append(v, i);
    let p = spec_pack(i, v.ecc_mode);
    let tail = v.log_bytes.subrange(3, v.log_bytes.len() as int);
    let tail2 = w.log_bytes.subrange(3, w.log_bytes.len() as int);
    assert(tail2 =~= tail + p);
    lemma_log_packs_concat(tail, p);
    lemma_log_packs_single(i, v.ecc_mode);
    lemma_packs_width_concat(spec_log_packs(tail), spec_log_packs(p));
    assert(spec_log_packs(tail2).map_values(|q: (InstructionView, nat)| q.0) =~= v.log.push(i));
}

/// Reading committed data through two snapshots with the same committed pointer gives the
/// same.
proof fn lemma_committed_read_by_pointer(log: Seq<InstructionView>, a: SnapshotView, b: SnapshotView, key: Seq<u8>)
    requires
        pointer_of(a, key, None) == pointer_of(b, key, None),
    ensures
        spec_read_snapshot(log, a, key, None) == spec_read_snapshot(log, b, key, None),
{
}

/// Aborting, one after another, transactions of an engine whose pointers lie below the end of
/// its log changes no committed read.
proof fn lemma_abort_each_keeps_committed(u: StoreView, ids: Seq<u64>, key: Seq<u8>)
    requires
        snapshot_below(u.snapshot, u.log.len()),
    ensures
        spec_get(spec_abort_each(u, ids).0, key, None) == spec_get(u, key, None),
    decreases ids.len(),
{
    if ids.len() > 0 {
        let t = ids[0];
        let (next, r) = spec_abort(u, t);
        if u.transaction_manager.transactions.contains_key(t) {
            let x = InstructionView::TransactionAbort { transaction_id: t };
            let keys = spec_affected_keys(u.transaction_manager, t);
            assert(next.snapshot == spec_aborted(u.snapshot, keys, t));
            assert(snapshot_below(next.snapshot, u.log.len())) by {
                assert forall|k: Seq<u8>, t2: Option<u64>| #[trigger] next.snapshot.contains_key(k) && #[trigger] next.snapshot[k].contains_key(t2)
                    implies next.snapshot[k][t2] < u.log.len() by {
                    assert(u.snapshot.contains_key(k));
                    assert(u.snapshot[k].contains_key(t2));
                }
            }
            lemma_read_snapshot_extends(u.log, x, next.snapshot, key, None);
            lemma_committed_none(u.snapshot, keys, t, key);
            lemma_committed_read_by_pointer(u.log, next.snapshot, u.snapshot, key);
            assert(spec_get(next, key, None) == spec_get(u, key, None));
            assert(snapshot_below(next.snapshot, next.log.len())) by {
                assert forall|k: Seq<u8>, t2: Option<u64>| #[trigger] next.snapshot.contains_key(k) && #[trigger] next.snapshot[k].contains_key(t2)
                    implies next.snapshot[k][t2] < next.log.len() by {
                    assert(u.snapshot.contains_key(k));
                }
            }
            if r is Ok {
                lemma_abort_each_keeps_committed(next, ids.subrange(1, ids.len() as int), key);
            }
        }
    }
}

/// Reopening the bytes of the log gives back every committed read: the bytes load as the same
/// log, and whichever unfinished transactions the opening then aborts, a committed read of any
/// key gives what it gives in the engine. This holds of an engine whose log bytes read back as
/// its log and that is what replaying its log gives, as every operation keeps it.
pub proof fn law_reopen_keeps_committed_reads(
    v: StoreView,
    mode: crate::storage::ecc::ECCMode,
    version: (u8, u8, u8),
    ids: Seq<u64>,
    key: Seq<u8>,
)
    requires
        spec_store_wf(v),
        replays_to_itself(v),
        log_bytes_read_back(v),
    ensures
        spec_loaded(v.log_bytes, mode, version) matches Ok(loaded) && loaded.log == v.log && spec_get(
            spec_abort_each(loaded, ids).0,
            key,
            None,
        ) == spec_get(v, key, None),
{
    let (snap, tm) = spec_replay(v.log, v.log.len()).unwrap();
    let loaded = spec_loaded(v.log_bytes, mode, version).unwrap();
    assert(loaded.log == v.log);
    assert(loaded.snapshot == snap);
    lemma_replay_below(v.log, v.log.len());
    lemma_abort_each_keeps_committed(loaded, ids, key);
    assert(pointer_of(v.snapshot, key, None) == pointer_of(snap, key, None));
    lemma_committed_read_by_pointer(v.log, snap, v.snapshot, key);
}

/// An engine loaded from bytes is what replaying its log gives; its bytes read back as its
/// log where the packs after the version header fill them.
pub proof fn law_loaded_is_consistent(bytes: Seq<u8>, mode: crate::storage::ecc::ECCMode, version: (u8, u8, u8))
    requires
        spec_loaded(bytes, mode, version) is Ok,
    ensures
        replays_to_itself(spec_loaded(bytes, mode, version).unwrap()),
        ({
            let b = spec_with_header(bytes, version);
            packs_width(spec_log_packs(b.subrange(3, b.len() as int))) == b.len() - 3 ==> log_bytes_read_back(
                spec_loaded(bytes, mode, version).unwrap(),
            )
        }),
{
}

/// Aborting transactions one after another keeps the engine what its log replays to, and its
/// log bytes reading back as its log.
pub proof fn law_abort_each_keeps_log(u: StoreView, ids: Seq<u64>)
    requires
        replays_to_itself(u),
        log_bytes_read_back(u),
    ensures
        replays_to_itself(spec_abort_each(u, ids).0),
        log_bytes_read_back(spec_abort_each(u, ids).0),
    decreases ids.len(),
{
    if ids.len() > 0 {
        let t = ids[0];
        let (next, r) = spec_abort(u, t);
        law_abort_keeps_replay(u, t);
        if u.transaction_manager.transactions.contains_key(t) {
            let x = InstructionView::TransactionAbort { transaction_id: t };
            lemma_instruction_bytes_len(x);
            law_append_keeps_log_readable(u, x);
            assert(next.log == spec_append(u, x).log && next.log_bytes == spec_append(u, x).log_bytes);
        }
        if r is Ok {
            law_abort_each_keeps_log(next, ids.subrange(1, ids.len() as int));
        }
    }
}

/// Whether an instruction with these key and value widths has a pack that reads back.
pub open spec fn write_fits(key: Seq<u8>, value_len: nat) -> bool {
    key.len() <= u64::MAX && value_len <= u64::MAX && 1 + 3 * (28 + key.len() + value_len) <= u32::MAX
}

/// The log bytes of a set read back as its log, where its pack fits.
pub proof fn law_set_keeps_log_readable(v: StoreView, key: Seq<u8>, value: Seq<u8>, t: Option<u64>)
    requires
        log_bytes_read_back(v),
        write_fits(key, value.len()),
    ensures
        log_bytes_read_back(spec_set(v, key, value, t).0),
{
    let x = match t {
        None => InstructionView::Put { key, value },
        Some(id) => InstructionView::TransactionalSet { key, value, transaction_id: id },
    };
    lemma_instruction_bytes_len(x);
    law_append_keeps_log_readable(v, x);
}

/// The log bytes of a revert of one key read back as its log, where its pack fits.
pub proof fn law_revert_one_keeps_log_readable(v: StoreView, key: Seq<u8>, height: u64, t: Option<u64>)
    requires
        log_bytes_read_back(v),
        write_fits(key, 0),
    ensures
        log_bytes_read_back(spec_revert_one(v, key, height, t).0),
{
    let x = match t {
        None => InstructionView::RevertOne { key, height },
        Some(id) => InstructionView::TransactionalRevertOne { key, height, transaction_id: id },
    };
    lemma_instruction_bytes_len(x);
    law_append_keeps_log_readable(v, x);
}

/// The log bytes of a removal of one key read back as its log, where its pack fits.
pub proof fn law_remove_one_keeps_log_readable(v: StoreView, key: Seq<u8>, t: Option<u64>)
    requires
        log_bytes_read_back(v),
        write_fits(key, 0),
    ensures
        log_bytes_read_back(spec_remove_one(v, key, t).0),
{
    let x = match t {
        None => InstructionView::RemoveOne { key },
        Some(id) => InstructionView::TransactionalRemoveOne { key, transaction_id: id },
    };
    lemma_instruction_bytes_len(x);
    law_append_keeps_log_readable(v, x);
}

/// The log bytes after removing everything, reverting everything, starting, committing or
/// aborting a transaction read back as the log.
pub proof fn law_bookkeeping_keeps_log_readable(v: StoreView, height: u64, t: u64)
    requires
        log_bytes_read_back(v),
    ensures
        log_bytes_read_back(spec_remove_all(v).0),
        log_bytes_read_back(spec_revert_all(v, height).0),
        log_bytes_read_back(spec_start_transaction(v).0),
        log_bytes_read_back(spec_commit(v, t).0),
        log_bytes_read_back(spec_abort(v, t).0),
{
    let start = InstructionView::TransactionStart {
        transaction_id: (v.transaction_manager.current_transaction_id + 1) as u64,
    };
    let xs = seq![
        InstructionView::RemoveAll,
        InstructionView::RevertAll { height },
        start,
        InstructionView::TransactionCommit { transaction_id: t },
        InstructionView::TransactionAbort { transaction_id: t },
    ];
    assert forall|j: int| 0 <= j < xs.len() implies log_bytes_read_back(#[trigger] spec_append(v, xs[j])) by {
        lemma_instruction_bytes_len(xs[j]);
        law_append_keeps_log_readable(v, xs[j]);
    }
    assert(log_bytes_read_back(spec_append(v, xs[0])));
    assert(log_bytes_read_back(spec_append(v, xs[1])));
    assert(log_bytes_read_back(spec_append(v, xs[2])));
    assert(log_bytes_read_back(spec_append(v, xs[3])));
    assert(log_bytes_read_back(spec_append(v, xs[4])));
}

} // verus!
