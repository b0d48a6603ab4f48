//! The storage engine: an append-only log of instructions, with a snapshot that says, for every
//! key, at which height its latest state stands, for committed data and for each transaction.

use vstd::prelude::*;
use crate::constants::{MAIN_LOG_FILENAME, MAX_KEY_LENGTH};
use crate::storage::chain_height::{ChainHeight, ChainHeightError};
use crate::storage::ecc::ECCMode;
use crate::storage::errors::KVError;
use crate::storage::instruction::{
    instruction_fits, instruction_payload_len, lemma_instruction_bytes_len, pack_instruction,
    Instruction, InstructionError, InstructionView,
};
use crate::storage::kvkey::KVKey;
use crate::storage::kvvalue::KVValue;
use crate::storage::kv_model::{
    lemma_abort_keys_at_once, lemma_commit_keys_at_once, lemma_pointer_of_committed,
    lemma_pointer_of_point, pointer_of, snapshot_below, spec_abort, spec_abort_key,
    spec_abort_keys, spec_aborted, spec_append, spec_commit, spec_commit_key, spec_commit_keys,
    spec_committed, spec_find, spec_get, spec_point, spec_read_pointer, spec_read_snapshot,
    spec_remove_all, spec_remove_one, spec_revert_one, spec_set, spec_start_transaction,
    spec_store_wf, spec_write, StoreView, spec_store_bounded, spec_store_agreement, spec_replay, spec_revert_all, spec_tm_new,
    lemma_replay_below, spec_loaded, spec_abort_each, spec_current_entry, spec_history,
    height_overflow_error, in_history, appeared_before, plain_key,
};
use crate::storage::instruction_iterator::InstructionLogIterator;
use crate::storage::log_version::{version_not_newer, LogVersion};
use crate::utils::bytes::{bytes_to_vec, tail_bytes};
use crate::storage::transaction_manager::{tid_view, Snapshot, TransactionId, TransactionManager};
use crate::utils::bytes::{append_bytes, bytes_eq};

verus! {

/// The state `key` has according to `instructions` up to and including `target_height`; see
/// `spec_find`.
pub fn recursive_find(target_key: &KVKey, instructions: &Vec<Instruction>, target_height: &ChainHeight) -> (result: Result<Option<KVValue>, KVError>)
    ensures
        match result {
            Ok(Some(v)) => spec_find(instructions@.map_values(|i: Instruction| i@), target_key@, target_height@) == Ok::<Option<Seq<u8>>, KVError>(Some(v@)),
            Ok(None) => spec_find(instructions@.map_values(|i: Instruction| i@), target_key@, target_height@) == Ok::<Option<Seq<u8>>, KVError>(None),
            Err(e) => spec_find(instructions@.map_values(|i: Instruction| i@), target_key@, target_height@) == Err::<Option<Seq<u8>>, KVError>(e),
        },
{
    let ghost log = instructions@.map_values(|i: Instruction| i@);
    let ghost goal = spec_find(log, target_key@, target_height@);
    let mut height: u64 = target_height.as_u64();
    loop
        invariant
            log == instructions@.map_values(|i: Instruction| i@),
            goal == spec_find(log, target_key@, target_height@),
            spec_find(log, target_key@, height) == goal,
        decreases height,
    {
        if height >= instructions.len() as u64 {
            return Err(KVError::RevertOutOfRange);
        }
        let index = height as usize;
        assert(log[height as int] == instructions@[height as int]@);
        let next: u64 = match &instructions[index] {
            Instruction::Put { key, value } => {
                if bytes_eq(key.as_bytes(), target_key.as_bytes()) {
                    return Ok(Some(KVValue::new(value.as_bytes())));
                }
                if height == 0 {
                    return Err(KVError::ChainHeightError(ChainHeightError::NegativeChainHeight));
                }
                height - 1
            },
            Instruction::RevertOne { key, height: target } => {
                if bytes_eq(key.as_bytes(), target_key.as_bytes()) {
                    if target.as_u64() >= height {
                        return Err(KVError::RevertOutOfRange);
                    }
                    target.as_u64()
                } else {
                    if height == 0 {
                        return Err(KVError::ChainHeightError(ChainHeightError::NegativeChainHeight));
                    }
                    height - 1
                }
            },
            Instruction::RevertAll { height: target } => {
                if target.as_u64() >= height {
                    return Err(KVError::RevertOutOfRange);
                }
                target.as_u64()
            },
            Instruction::RemoveOne { key } => {
                if bytes_eq(key.as_bytes(), target_key.as_bytes()) {
                    return Ok(None);
                }
                if height == 0 {
                    return Err(KVError::ChainHeightError(ChainHeightError::NegativeChainHeight));
                }
                height - 1
            },
            Instruction::RemoveAll => {
                return Ok(None);
            },
            _ => {
                if height == 0 {
                    return Err(KVError::ChainHeightError(ChainHeightError::NegativeChainHeight));
                }
                height - 1
            },
        };
        height = next;
    }
}

/// The state the instruction at `height` gives the key it is about; see `spec_read_pointer`.
pub fn read_pointer(instructions: &Vec<Instruction>, height: u64) -> (result: Result<Option<KVValue>, KVError>)
    ensures
        match result {
            Ok(Some(v)) => spec_read_pointer(instructions@.map_values(|i: Instruction| i@), height) == Ok::<Option<Seq<u8>>, KVError>(Some(v@)),
            Ok(None) => spec_read_pointer(instructions@.map_values(|i: Instruction| i@), height) == Ok::<Option<Seq<u8>>, KVError>(None),
            Err(e) => spec_read_pointer(instructions@.map_values(|i: Instruction| i@), height) == Err::<Option<Seq<u8>>, KVError>(e),
        },
{
    let ghost log = instructions@.map_values(|i: Instruction| i@);
    if height >= instructions.len() as u64 {
        return Err(KVError::PointToUnexpectedInstruction);
    }
    let index = height as usize;
    assert(log[height as int] == instructions@[height as int]@);
    match &instructions[index] {
        Instruction::Put { value, .. } => Ok(Some(KVValue::new(value.as_bytes()))),
        Instruction::TransactionalSet { value, .. } => Ok(Some(KVValue::new(value.as_bytes()))),
        Instruction::RevertOne { key, height: target } => {
            if target.as_u64() >= height {
                return Err(KVError::RevertOutOfRange);
            }
            recursive_find(key, instructions, target)
        },
        Instruction::TransactionalRevertOne { key, height: target, .. } => {
            if target.as_u64() >= height {
                return Err(KVError::RevertOutOfRange);
            }
            recursive_find(key, instructions, target)
        },
        Instruction::RemoveOne { .. } => Ok(None),
        Instruction::TransactionalRemoveOne { .. } => Ok(None),
        _ => Err(KVError::PointToUnexpectedInstruction),
    }
}

/// What reading `key` through `snapshot` gives; see `spec_read_snapshot`.
pub fn read_from_snapshot(instructions: &Vec<Instruction>, snapshot: &Snapshot, key: &KVKey, transaction_id: Option<TransactionId>) -> (result: Result<Option<KVValue>, KVError>)
    requires
        snapshot.wf(),
    ensures
        match result {
            Ok(Some(v)) => spec_read_snapshot(instructions@.map_values(|i: Instruction| i@), snapshot@, key@, tid_view(transaction_id)) == Ok::<Option<Seq<u8>>, KVError>(Some(v@)),
            Ok(None) => spec_read_snapshot(instructions@.map_values(|i: Instruction| i@), snapshot@, key@, tid_view(transaction_id)) == Ok::<Option<Seq<u8>>, KVError>(None),
            Err(e) => spec_read_snapshot(instructions@.map_values(|i: Instruction| i@), snapshot@, key@, tid_view(transaction_id)) == Err::<Option<Seq<u8>>, KVError>(e),
        },
{
    if !snapshot.contains_key(key.as_bytes()) {
        return Ok(None);
    }
    match snapshot.get_pointer(key.as_bytes(), transaction_id) {
        Some(height) => read_pointer(instructions, height),
        None => {
            if transaction_id.is_some() {
                match snapshot.get_pointer(key.as_bytes(), None) {
                    Some(height) => read_pointer(instructions, height),
                    None => Ok(None),
                }
            } else {
                Ok(None)
            }
        },
    }
}

/// Points `key` for `transaction_id` at `height`.
pub fn update_snapshot(key: &KVKey, height: u64, snapshot: &mut Snapshot, transaction_id: Option<TransactionId>)
    requires
        old(snapshot).wf(),
    ensures
        final(snapshot).wf(),
        final(snapshot)@ == spec_point(old(snapshot)@, key@, tid_view(transaction_id), height),
{
    snapshot.set_pointer(key, transaction_id, height);
}

/// Commits the transaction: for each key it wrote, its pointer becomes the committed one; then
/// the transaction is forgotten.
pub fn update_committed_log_pointers(transaction_manager: &mut TransactionManager, snapshot: &mut Snapshot, transaction_id: TransactionId)
    requires
        old(transaction_manager).wf(),
        old(snapshot).wf(),
    ensures
        final(transaction_manager).wf(),
        final(snapshot).wf(),
        final(snapshot)@ == spec_committed(
            old(snapshot)@,
            if old(transaction_manager)@.transactions.contains_key(transaction_id@) {
                old(transaction_manager)@.transactions[transaction_id@].affected_keys
            } else {
                Seq::empty()
            },
            transaction_id@,
        ),
        final(transaction_manager)@.transactions == old(transaction_manager)@.transactions.remove(transaction_id@),
        final(transaction_manager)@.current_transaction_id == old(transaction_manager)@.current_transaction_id,
{
    let affected_keys = transaction_manager.get_affected_keys(&transaction_id);
    let ghost keys = affected_keys@.map_values(|k: KVKey| k@);
    let ghost start = snapshot@;
    let t = Some(transaction_id);
    let mut i: usize = 0;
    while i < affected_keys.len()
        invariant
            snapshot.wf(),
            i <= affected_keys@.len(),
            keys == affected_keys@.map_values(|k: KVKey| k@),
            snapshot@ == spec_commit_keys(start, keys.subrange(0, i as int), transaction_id@),
            t == Some(transaction_id),
        decreases affected_keys@.len() - i,
    {
        let key = &affected_keys[i];
        let ghost before = snapshot@;
        match snapshot.get_pointer(key.as_bytes(), t) {
            Some(height) => {
                snapshot.set_pointer(key, None, height);
                snapshot.remove_pointer(key.as_bytes(), t);
                proof {
                    assert(snapshot@ =~= spec_commit_key(before, key@, transaction_id@));
                }
            },
            None => {
                proof {
                    assert(snapshot@ =~= spec_commit_key(before, key@, transaction_id@));
                }
            },
        }
        proof {
            assert(keys.subrange(0, i + 1).drop_last() =~= keys.subrange(0, i as int));
        }
        i = i + 1;
    }
    proof {
        assert(keys.subrange(0, i as int) =~= keys);
        lemma_commit_keys_at_once(start, keys, transaction_id@);
    }
    transaction_manager.remove_transaction(&transaction_id);
}

/// Aborts the transaction: each key it wrote loses the transaction's pointer; then the
/// transaction is forgotten.
pub fn update_aborted_log_pointers(transaction_manager: &mut TransactionManager, snapshot: &mut Snapshot, transaction_id: TransactionId)
    requires
        old(transaction_manager).wf(),
        old(snapshot).wf(),
    ensures
        final(transaction_manager).wf(),
        final(snapshot).wf(),
        final(snapshot)@ == spec_aborted(
            old(snapshot)@,
            if old(transaction_manager)@.transactions.contains_key(transaction_id@) {
                old(transaction_manager)@.transactions[transaction_id@].affected_keys
            } else {
                Seq::empty()
            },
            transaction_id@,
        ),
        final(transaction_manager)@.transactions == old(transaction_manager)@.transactions.remove(transaction_id@),
        final(transaction_manager)@.current_transaction_id == old(transaction_manager)@.current_transaction_id,
{
    let affected_keys = transaction_manager.get_affected_keys(&transaction_id);
    let ghost keys = affected_keys@.map_values(|k: KVKey| k@);
    let ghost start = snapshot@;
    let t = Some(transaction_id);
    let mut i: usize = 0;
    while i < affected_keys.len()
        invariant
            snapshot.wf(),
            i <= affected_keys@.len(),
            keys == affected_keys@.map_values(|k: KVKey| k@),
            snapshot@ == spec_abort_keys(start, keys.subrange(0, i as int), transaction_id@),
            t == Some(transaction_id),
        decreases affected_keys@.len() - i,
    {
        let key = &affected_keys[i];
        let ghost before = snapshot@;
        snapshot.remove_pointer(key.as_bytes(), t);
        proof {
            assert(snapshot@ =~= spec_abort_key(before, key@, transaction_id@));
            assert(keys.subrange(0, i + 1).drop_last() =~= keys.subrange(0, i as int));
        }
        i = i + 1;
    }
    proof {
        assert(keys.subrange(0, i as int) =~= keys);
        lemma_abort_keys_at_once(start, keys, transaction_id@);
    }
    transaction_manager.remove_transaction(&transaction_id);
}

/// `keys` holds the keys of `snap` and nothing else.
pub open spec fn lists_keys(snap: crate::storage::kv_model::SnapshotView, keys: Seq<KVKey>) -> bool {
    &&& forall|i: int| 0 <= i < keys.len() ==> snap.contains_key(#[trigger] keys[i]@)
    &&& forall|k: Seq<u8>| #[trigger] snap.contains_key(k) ==> exists|i: int| 0 <= i < keys.len() && keys[i]@ == k
}

/// Entries as plain values: each key and value by its bytes.
pub open spec fn entries_view(entries: Seq<(KVKey, KVValue)>) -> Seq<(Seq<u8>, Seq<u8>)> {
    entries.map_values(|e: (KVKey, KVValue)| (e.0@, e.1@))
}

/// Whether `es` lists the current entries, one for each key that has one: `ks` are their keys,
/// each once, in the same order.
pub open spec fn entries_listed(
    log: Seq<crate::storage::instruction::InstructionView>,
    snap: crate::storage::kv_model::SnapshotView,
    es: Seq<(Seq<u8>, Seq<u8>)>,
    ks: Seq<Seq<u8>>,
) -> bool {
    &&& ks.len() == es.len()
    &&& ks.no_duplicates()
    &&& forall|a: int| 0 <= a < ks.len() ==> snap.contains_key(#[trigger] ks[a]) && spec_current_entry(log, snap, ks[a])
        == Ok::<Option<(Seq<u8>, Seq<u8>)>, KVError>(Some(es[a]))
    &&& forall|k: Seq<u8>| #[trigger] snap.contains_key(k) && (spec_current_entry(log, snap, k) matches Ok(Some(_))) ==> ks.contains(k)
}

/// A read's result as the contracts see it.
pub open spec fn value_result(r: Result<Option<KVValue>, KVError>) -> Result<Option<Seq<u8>>, KVError> {
    match r {
        Ok(Some(v)) => Ok(Some(v@)),
        Ok(None) => Ok(None),
        Err(e) => Err(e),
    }
}

/// The core of the storage engine: the log of every instruction, with the snapshot that says
/// where each key's latest state stands, and the live transactions. The log's bytes are kept
/// as they are to be written down; what is appended to them is what a log file gets next.
pub struct LogKeyValueStore {
    instructions: Vec<Instruction>,
    log_bytes: Vec<u8>,
    ecc_mode: ECCMode,
    snapshot: Snapshot,
    current_height: ChainHeight,
    transaction_manager: TransactionManager,
}

impl View for LogKeyValueStore {
    type V = StoreView;

    closed spec fn view(&self) -> StoreView {
        StoreView {
            log: self.instructions@.map_values(|i: Instruction| i@),
            log_bytes: self.log_bytes@,
            current_height: self.current_height@,
            snapshot: self.snapshot@,
            transaction_manager: self.transaction_manager@,
            ecc_mode: self.ecc_mode,
        }
    }
}

impl LogKeyValueStore {
    /// The parts are well formed and the engine keeps what `spec_store_wf` says.
    pub closed spec fn wf(&self) -> bool {
        &&& self.snapshot.wf()
        &&& self.transaction_manager.wf()
        &&& spec_store_wf(self@)
    }

    /// A well-formed engine's model keeps what `spec_store_wf` says, so the laws of the store
    /// model apply to it.
    pub proof fn lemma_wf_model(&self)
        requires
            self.wf(),
        ensures
            spec_store_wf(self@),
    {
    }

    /// Appends `instruction` to the log, and its pack to the log's bytes.
    fn append_instruction(&mut self, instruction: Instruction)
        requires
            old(self).wf(),
            instruction_fits(instruction@),
            3 * (28 + instruction_payload_len(instruction@)) + 1 <= usize::MAX,
        ensures
            final(self).wf(),
            final(self)@ == spec_append(old(self)@, instruction@),
    {
        proof {
            lemma_instruction_bytes_len(instruction@);
        }
        let pack = pack_instruction(&instruction, self.ecc_mode);
        append_bytes(&mut self.log_bytes, &pack);
        self.instructions.push(instruction);
        let _ = self.instructions.len();
        proof {
            assert(self@.log =~= old(self)@.log.push(instruction@));
            assert(self@ =~= spec_append(old(self)@, instruction@));
        }
    }

    /// The last steps of a write of `key`: appends `instruction`, raises the height counter,
    /// and points the key at the instruction, for the transaction in its own snapshot too.
    fn write(&mut self, key: &KVKey, transaction_id: Option<TransactionId>, instruction: Instruction) -> (result: Result<(), KVError>)
        requires
            old(self).wf(),
            key@.len() <= MAX_KEY_LENGTH,
            instruction_fits(instruction@),
            3 * (28 + instruction_payload_len(instruction@)) + 1 <= usize::MAX,
            transaction_id matches Some(t) ==> old(self)@.transaction_manager.transactions.contains_key(t@),
        ensures
            final(self).wf(),
            (final(self)@, result) == spec_write(old(self)@, key@, tid_view(transaction_id), instruction@),
    {
        let height = self.instructions.len() as u64;
        self.append_instruction(instruction);
        match self.current_height.increment() {
            Err(e) => {
                return Err(KVError::ChainHeightError(e));
            },
            Ok(_) => {},
        }
        let ghost before = self@;
        match transaction_id {
            Some(t) => {
                match self.transaction_manager.update_transaction_meta_data(key, height, &t) {
                    Err(e) => {
                        return Err(KVError::TransactionManagerError(e));
                    },
                    Ok(()) => {},
                }
            },
            None => {},
        }
        update_snapshot(key, height, &mut self.snapshot, transaction_id);
        proof {
            let v = self@;
            let t0 = tid_view(transaction_id);
            assert forall|k: Seq<u8>, t: Option<u64>| #[trigger] v.snapshot.contains_key(k) && #[trigger] v.snapshot[k].contains_key(t) implies v.snapshot[k][t] < v.log.len() by {
                lemma_pointer_of_point(before.snapshot, key@, t0, height, k, t);
                assert(pointer_of(v.snapshot, k, t) == Some(v.snapshot[k][t]));
                if !(k == key@ && t == t0) {
                    assert(pointer_of(before.snapshot, k, t) == Some(v.snapshot[k][t]));
                }
            }
            assert forall|x: u64| #[trigger] v.transaction_manager.transactions.contains_key(x) implies snapshot_below(v.transaction_manager.transactions[x].snapshot, v.log.len()) by {
                let s = v.transaction_manager.transactions[x].snapshot;
                assert(before.transaction_manager.transactions.contains_key(x));
                let s0 = before.transaction_manager.transactions[x].snapshot;
                assert forall|k: Seq<u8>, t: Option<u64>| #[trigger] s.contains_key(k) && #[trigger] s[k].contains_key(t) implies s[k][t] < v.log.len() by {
                    if t0 == Some(x) {
                        lemma_pointer_of_point(s0, key@, Some(x), height, k, t);
                        assert(pointer_of(s, k, t) == Some(s[k][t]));
                        if !(k == key@ && t == Some(x)) {
                            assert(pointer_of(s0, k, t) == Some(s[k][t]));
                        }
                    }
                }
            }
            assert forall|x: u64, k: Seq<u8>| #[trigger] v.transaction_manager.transactions.contains_key(x) implies pointer_of(v.snapshot, k, Some(x)) == #[trigger] pointer_of(v.transaction_manager.transactions[x].snapshot, k, Some(x)) by {
                assert(before.transaction_manager.transactions.contains_key(x));
                lemma_pointer_of_point(before.snapshot, key@, t0, height, k, Some(x));
                if t0 == Some(x) {
                    lemma_pointer_of_point(before.transaction_manager.transactions[x].snapshot, key@, Some(x), height, k, Some(x));
                }
            }
            assert(spec_store_wf(v));
        }
        Ok(())
    }

    /// Records that the live transaction wrote `key`.
    fn add_affected_key(&mut self, transaction_id: &TransactionId, key: &KVKey)
        requires
            old(self).wf(),
            old(self)@.transaction_manager.transactions.contains_key(transaction_id@),
        ensures
            final(self).wf(),
            final(self)@ == (StoreView {
                transaction_manager: crate::storage::kv_model::spec_tm_add_key(old(self)@.transaction_manager, transaction_id@, key@),
                ..old(self)@
            }),
    {
        self.transaction_manager.add_affected_keys(transaction_id, key);
        proof {
            let v = self@;
            let v0 = old(self)@;
            assert(v.transaction_manager.transactions =~= crate::storage::kv_model::spec_tm_add_key(v0.transaction_manager, transaction_id@, key@).transactions);
            assert forall|x: u64| #[trigger] v.transaction_manager.transactions.contains_key(x) implies v.transaction_manager.transactions[x].snapshot == v0.transaction_manager.transactions[x].snapshot by {}
            assert(spec_store_wf(v));
        }
    }

    /// What reading `key` gives, for committed data or inside a live transaction; see
    /// `spec_get`.
    pub fn get(&self, key: &KVKey, transaction_id: Option<TransactionId>) -> (result: Result<Option<KVValue>, KVError>)
        requires
            self.wf(),
        ensures
            value_result(result) == spec_get(self@, key@, tid_view(transaction_id)),
    {
        match transaction_id {
            Some(t) => {
                match self.transaction_manager.get_transaction_meta_data(&t) {
                    Err(e) => Err(KVError::TransactionManagerError(e)),
                    Ok(meta_data) => read_from_snapshot(&self.instructions, meta_data.snapshot(), key, transaction_id),
                }
            },
            None => read_from_snapshot(&self.instructions, &self.snapshot, key, None),
        }
    }

    /// Sets `key` to `value`, committed or inside a live transaction; see `spec_set`.
    pub fn set(&mut self, key: &KVKey, value: &KVValue, transaction_id: Option<TransactionId>) -> (result: Result<(), KVError>)
        requires
            old(self).wf(),
            3 * (28 + MAX_KEY_LENGTH + value@.len()) < usize::MAX,
        ensures
            final(self).wf(),
            (final(self)@, result) == spec_set(old(self)@, key@, value@, tid_view(transaction_id)),
    {
        if key.as_bytes().len() > MAX_KEY_LENGTH {
            return Err(KVError::InstructionError(InstructionError::KeyExceedsMaxLength));
        }
        let instruction = match transaction_id {
            Some(t) => {
                match self.transaction_manager.validate_transaction_id(&t) {
                    Err(e) => {
                        return Err(KVError::TransactionManagerError(e));
                    },
                    Ok(()) => {},
                }
                self.add_affected_key(&t, key);
                Instruction::TransactionalSet {
                    key: KVKey::new(key.as_bytes()),
                    value: KVValue::new(value.as_bytes()),
                    transaction_id: t,
                }
            },
            None => Instruction::Put { key: KVKey::new(key.as_bytes()), value: KVValue::new(value.as_bytes()) },
        };
        self.write(key, transaction_id, instruction)
    }

    /// Reverts `key` to the state it had at `height`, committed or inside a live transaction;
    /// see `spec_revert_one`.
    pub fn revert_one(&mut self, key: &KVKey, height: &ChainHeight, transaction_id: Option<TransactionId>) -> (result: Result<(), KVError>)
        requires
            old(self).wf(),
        ensures
            final(self).wf(),
            (final(self)@, result) == spec_revert_one(old(self)@, key@, height@, tid_view(transaction_id)),
    {
        if key.as_bytes().len() > MAX_KEY_LENGTH {
            return Err(KVError::InstructionError(InstructionError::KeyExceedsMaxLength));
        }
        if height.as_u64() > self.current_height.as_u64() {
            return Err(KVError::RevertOutOfRange);
        }
        let instruction = match transaction_id {
            Some(t) => Instruction::TransactionalRevertOne { key: KVKey::new(key.as_bytes()), height: *height, transaction_id: t },
            None => Instruction::RevertOne { key: KVKey::new(key.as_bytes()), height: *height },
        };
        match transaction_id {
            Some(t) => {
                match self.transaction_manager.validate_transaction_id(&t) {
                    Err(e) => {
                        return Err(KVError::TransactionManagerError(e));
                    },
                    Ok(()) => {},
                }
                self.add_affected_key(&t, key);
            },
            None => {},
        }
        self.write(key, transaction_id, instruction)
    }

    /// Removes `key`, committed or inside a transaction; see `spec_remove_one`.
    pub fn remove_one(&mut self, key: &KVKey, transaction_id: Option<TransactionId>) -> (result: Result<(), KVError>)
        requires
            old(self).wf(),
        ensures
            final(self).wf(),
            (final(self)@, result) == spec_remove_one(old(self)@, key@, tid_view(transaction_id)),
    {
        if key.as_bytes().len() > MAX_KEY_LENGTH {
            return Err(KVError::InstructionError(InstructionError::KeyExceedsMaxLength));
        }
        match transaction_id {
            Some(t) => {
                let instruction = Instruction::TransactionalRemoveOne { key: KVKey::new(key.as_bytes()), transaction_id: t };
                match self.transaction_manager.validate_transaction_id(&t) {
                    Err(e) => {
                        self.append_instruction(instruction);
                        return Err(KVError::TransactionManagerError(e));
                    },
                    Ok(()) => {},
                }
                self.add_affected_key(&t, key);
                self.write(key, transaction_id, instruction)
            },
            None => self.write(key, None, Instruction::RemoveOne { key: KVKey::new(key.as_bytes()) }),
        }
    }

    /// Empties the engine; see `spec_remove_all`.
    pub fn remove_all(&mut self) -> (result: Result<(), KVError>)
        requires
            old(self).wf(),
        ensures
            final(self).wf(),
            (final(self)@, result) == spec_remove_all(old(self)@),
    {
        self.append_instruction(Instruction::RemoveAll);
        let ghost appended = self@;
        self.snapshot.remove_committed_pointers();
        proof {
            let v = self@;
            assert forall|k: Seq<u8>, t: Option<u64>| #[trigger] v.snapshot.contains_key(k) && #[trigger] v.snapshot[k].contains_key(t) implies v.snapshot[k][t] < v.log.len() by {
                assert(appended.snapshot[k].contains_key(t));
            }
            assert forall|x: u64, k: Seq<u8>| #[trigger] v.transaction_manager.transactions.contains_key(x) implies pointer_of(v.snapshot, k, Some(x)) == #[trigger] pointer_of(v.transaction_manager.transactions[x].snapshot, k, Some(x)) by {
                assert(pointer_of(v.snapshot, k, Some(x)) == pointer_of(appended.snapshot, k, Some(x)));
            }
        }
        match self.current_height.increment() {
            Err(e) => {
                return Err(KVError::ChainHeightError(e));
            },
            Ok(_) => {},
        }
        self.snapshot = Snapshot::new();
        self.transaction_manager = TransactionManager::new();
        proof {
            assert(self@.transaction_manager == crate::storage::kv_model::spec_tm_new());
        }
        Ok(())
    }

    /// Starts a transaction, which reads from a copy of the current snapshot; see
    /// `spec_start_transaction`.
    pub fn start_transaction(&mut self) -> (result: Result<TransactionId, KVError>)
        requires
            old(self).wf(),
        ensures
            final(self).wf(),
            final(self)@ == spec_start_transaction(old(self)@).0,
            match result {
                Ok(t) => spec_start_transaction(old(self)@).1 == Ok::<u64, KVError>(t@),
                Err(e) => spec_start_transaction(old(self)@).1 == Err::<u64, KVError>(e),
            },
    {
        let transaction_id = match self.transaction_manager.generate_new_transaction_id() {
            Err(e) => {
                return Err(KVError::TransactionManagerError(e));
            },
            Ok(t) => t,
        };
        self.append_instruction(Instruction::TransactionStart { transaction_id });
        let snapshot = self.snapshot.duplicate();
        self.transaction_manager.initialize_transaction(&transaction_id, snapshot);
        proof {
            let v = self@;
            assert forall|x: u64, k: Seq<u8>| #[trigger] v.transaction_manager.transactions.contains_key(x) implies pointer_of(v.snapshot, k, Some(x)) == #[trigger] pointer_of(v.transaction_manager.transactions[x].snapshot, k, Some(x)) by {
                if x != transaction_id@ {
                    assert(old(self)@.transaction_manager.transactions.contains_key(x));
                }
            }
            assert(spec_store_wf(v));
        }
        match self.current_height.increment() {
            Err(e) => {
                return Err(KVError::ChainHeightError(e));
            },
            Ok(_) => {},
        }
        Ok(transaction_id)
    }

    /// Commits a live transaction; see `spec_commit`.
    pub fn commit_transaction(&mut self, transaction_id: TransactionId) -> (result: Result<(), KVError>)
        requires
            old(self).wf(),
        ensures
            final(self).wf(),
            (final(self)@, result) == spec_commit(old(self)@, transaction_id@),
    {
        match self.transaction_manager.validate_transaction_id(&transaction_id) {
            Err(e) => {
                return Err(KVError::TransactionManagerError(e));
            },
            Ok(()) => {},
        }
        self.append_instruction(Instruction::TransactionCommit { transaction_id });
        let ghost appended = self@;
        update_committed_log_pointers(&mut self.transaction_manager, &mut self.snapshot, transaction_id);
        proof {
            let v = self@;
            let keys = crate::storage::kv_model::spec_affected_keys(appended.transaction_manager, transaction_id@);
            assert forall|k: Seq<u8>, t: Option<u64>| #[trigger] v.snapshot.contains_key(k) && #[trigger] v.snapshot[k].contains_key(t) implies v.snapshot[k][t] < v.log.len() by {
                let ps = appended.snapshot[k];
                if keys.contains(k) && ps.contains_key(Some(transaction_id@)) {
                    if t == None::<u64> {
                        assert(v.snapshot[k][t] == ps[Some(transaction_id@)]);
                    } else {
                        assert(ps.contains_key(t));
                    }
                } else {
                    assert(ps.contains_key(t));
                }
            }
            assert forall|x: u64, k: Seq<u8>| #[trigger] v.transaction_manager.transactions.contains_key(x) implies pointer_of(v.snapshot, k, Some(x)) == #[trigger] pointer_of(v.transaction_manager.transactions[x].snapshot, k, Some(x)) by {
                lemma_pointer_of_committed(appended.snapshot, keys, transaction_id@, k, x);
                assert(appended.transaction_manager.transactions.contains_key(x));
            }
            assert forall|x: u64| #[trigger] v.transaction_manager.transactions.contains_key(x) implies snapshot_below(v.transaction_manager.transactions[x].snapshot, v.log.len()) by {
                assert(appended.transaction_manager.transactions.contains_key(x));
            }
            assert(spec_store_wf(v));
        }
        match self.current_height.increment() {
            Err(e) => {
                return Err(KVError::ChainHeightError(e));
            },
            Ok(_) => {},
        }
        Ok(())
    }

    /// Aborts a live transaction; see `spec_abort`.
    pub fn abort_transaction(&mut self, transaction_id: &TransactionId) -> (result: Result<(), KVError>)
        requires
            old(self).wf(),
        ensures
            final(self).wf(),
            (final(self)@, result) == spec_abort(old(self)@, transaction_id@),
    {
        self.abort_steps(transaction_id)
    }

    /// The steps of an abort, for an engine whose transactions' snapshots may not agree with
    /// its own, as after a replay.
    fn abort_steps(&mut self, transaction_id: &TransactionId) -> (result: Result<(), KVError>)
        requires
            old(self).snapshot.wf(),
            old(self).transaction_manager.wf(),
            spec_store_bounded(old(self)@),
        ensures
            final(self).snapshot.wf(),
            final(self).transaction_manager.wf(),
            spec_store_bounded(final(self)@),
            spec_store_agreement(old(self)@) ==> spec_store_agreement(final(self)@),
            (final(self)@, result) == spec_abort(old(self)@, transaction_id@),
    {
        match self.transaction_manager.validate_transaction_id(transaction_id) {
            Err(e) => {
                return Err(KVError::TransactionManagerError(e));
            },
            Ok(()) => {},
        }
        let instruction = Instruction::TransactionAbort { transaction_id: *transaction_id };
        let pack = pack_instruction(&instruction, self.ecc_mode);
        append_bytes(&mut self.log_bytes, &pack);
        self.instructions.push(instruction);
        let _ = self.instructions.len();
        proof {
            assert(self@.log =~= old(self)@.log.push(instruction@));
            assert(self@ =~= spec_append(old(self)@, instruction@));
        }
        let ghost appended = self@;
        update_aborted_log_pointers(&mut self.transaction_manager, &mut self.snapshot, *transaction_id);
        proof {
            let v = self@;
            let keys = crate::storage::kv_model::spec_affected_keys(appended.transaction_manager, transaction_id@);
            assert forall|k: Seq<u8>, t: Option<u64>| #[trigger] v.snapshot.contains_key(k) && #[trigger] v.snapshot[k].contains_key(t) implies v.snapshot[k][t] < v.log.len() by {
                assert(appended.snapshot[k].contains_key(t));
            }
            if spec_store_agreement(old(self)@) {
                assert forall|x: u64, k: Seq<u8>| #[trigger] v.transaction_manager.transactions.contains_key(x) implies pointer_of(v.snapshot, k, Some(x)) == #[trigger] pointer_of(v.transaction_manager.transactions[x].snapshot, k, Some(x)) by {
                    lemma_pointer_of_committed(appended.snapshot, keys, transaction_id@, k, x);
                    assert(appended.transaction_manager.transactions.contains_key(x));
                }
            }
            assert forall|x: u64| #[trigger] v.transaction_manager.transactions.contains_key(x) implies snapshot_below(v.transaction_manager.transactions[x].snapshot, v.log.len()) by {
                assert(appended.transaction_manager.transactions.contains_key(x));
            }
        }
        match self.current_height.increment() {
            Err(e) => {
                return Err(KVError::ChainHeightError(e));
            },
            Ok(_) => {},
        }
        Ok(())
    }

    /// Reverts every key to the state it had at `height`, forgetting every transaction; see
    /// `spec_revert_all`.
    pub fn revert_all(&mut self, height: &ChainHeight) -> (result: Result<(), KVError>)
        requires
            old(self).wf(),
        ensures
            final(self).wf(),
            (final(self)@, result) == spec_revert_all(old(self)@, height@),
    {
        if height.as_u64() > self.current_height.as_u64() || height.as_u64() >= self.instructions.len() as u64 {
            return Err(KVError::RevertOutOfRange);
        }
        self.append_instruction(Instruction::RevertAll { height: *height });
        match self.current_height.increment() {
            Err(e) => {
                return Err(KVError::ChainHeightError(e));
            },
            Ok(_) => {},
        }
        match load_snapshot(&self.instructions, Some(height)) {
            Err(e) => Err(e),
            Ok((snapshot, _, _)) => {
                proof {
                    lemma_replay_below(self@.log, (height@ + 1) as nat);
                }
                self.snapshot = snapshot;
                self.transaction_manager = TransactionManager::new();
                proof {
                    assert(self@.transaction_manager == spec_tm_new());
                    let v = self@;
                    assert forall|k: Seq<u8>, t: Option<u64>| #[trigger] v.snapshot.contains_key(k) && #[trigger] v.snapshot[k].contains_key(t) implies v.snapshot[k][t] < v.log.len() by {}
                }
                Ok(())
            },
        }
    }

    /// Opens the engine on the bytes of a log file (an empty file gets the version header):
    /// replays the log, then aborts every transaction it left unfinished, in some order.
    pub fn open(log_bytes: Vec<u8>, ecc_mode: ECCMode, db_version: LogVersion) -> (result: Result<LogKeyValueStore, KVError>)
        requires
            log_bytes@.len() >= 3 ==> version_not_newer((log_bytes@[0], log_bytes@[1], log_bytes@[2]), db_version@),
        ensures
            match result {
                Ok(store) => store.wf() && (spec_loaded(log_bytes@, ecc_mode, db_version@) matches Ok(loaded)
                    && exists|ids: Seq<u64>| #![trigger spec_abort_each(loaded, ids)] ids.no_duplicates()
                        && (forall|t: u64| loaded.transaction_manager.transactions.contains_key(t) <==> ids.contains(t))
                        && spec_abort_each(loaded, ids) == (store@, Ok::<(), KVError>(()))),
                Err(e) => spec_loaded(log_bytes@, ecc_mode, db_version@) == Err::<StoreView, KVError>(e)
                    || (spec_loaded(log_bytes@, ecc_mode, db_version@) is Ok && e == height_overflow_error()),
            },
    {
        let ghost input = log_bytes@;
        let bytes = if log_bytes.len() == 0 {
            db_version.marshal()
        } else {
            log_bytes
        };
        let offset = match LogVersion::parse(bytes.as_slice()) {
            Err(e) => {
                return Err(KVError::LogVersionError(e));
            },
            Ok((_, offset)) => offset,
        };
        let mut iterator = InstructionLogIterator::from(bytes_to_vec(tail_bytes(bytes.as_slice(), offset)));
        let instructions = iterator.read_all();
        let (snapshot, current_height, transaction_manager) = match load_snapshot(&instructions, None) {
            Err(e) => {
                return Err(e);
            },
            Ok(loaded) => loaded,
        };
        let _ = instructions.len();
        let ids = transaction_manager.transaction_ids();
        let ghost ids_view = ids@.map_values(|t: TransactionId| t@);
        let mut engine = LogKeyValueStore {
            instructions,
            log_bytes: bytes,
            ecc_mode,
            snapshot,
            current_height,
            transaction_manager,
        };
        let ghost loaded = engine@;
        proof {
            lemma_replay_below(engine@.log, engine@.log.len());
            assert(spec_loaded(input, ecc_mode, db_version@) == Ok::<StoreView, KVError>(loaded));
            assert(ids_view.subrange(0, ids_view.len() as int) =~= ids_view);
        }
        let mut i: usize = 0;
        while i < ids.len()
            invariant
                engine.snapshot.wf(),
                engine.transaction_manager.wf(),
                spec_store_bounded(engine@),
                i <= ids@.len(),
                ids_view == ids@.map_values(|t: TransactionId| t@),
                spec_loaded(input, ecc_mode, db_version@) == Ok::<StoreView, KVError>(loaded),
                input == log_bytes@,
                forall|a: int, b: int| 0 <= a < b < ids@.len() ==> ids@[a]@ != ids@[b]@,
                spec_abort_each(loaded, ids_view) == spec_abort_each(engine@, ids_view.subrange(i as int, ids_view.len() as int)),
                forall|t: u64| #[trigger] engine@.transaction_manager.transactions.contains_key(t) <==> exists|j: int| i <= j < ids@.len() && ids@[j]@ == t,
            decreases ids@.len() - i,
        {
            let ghost before = engine@;
            let ghost rest = ids_view.subrange(i as int, ids_view.len() as int);
            proof {
                assert(rest[0] == ids@[i as int]@);
                assert(before.transaction_manager.transactions.contains_key(ids@[i as int]@));
            }
            match engine.abort_steps(&ids[i]) {
                Err(e) => {
                    return Err(e);
                },
                Ok(()) => {},
            }
            proof {
                assert(rest.subrange(1, rest.len() as int) =~= ids_view.subrange(i + 1, ids_view.len() as int));
                assert forall|t: u64| #[trigger] engine@.transaction_manager.transactions.contains_key(t) <==> exists|j: int| i + 1 <= j < ids@.len() && ids@[j]@ == t by {
                    if engine@.transaction_manager.transactions.contains_key(t) {
                        assert(before.transaction_manager.transactions.contains_key(t));
                        let j = choose|j: int| i <= j < ids@.len() && ids@[j]@ == t;
                        assert(j != i);
                    }
                    if exists|j: int| i + 1 <= j < ids@.len() && ids@[j]@ == t {
                        let j = choose|j: int| i + 1 <= j < ids@.len() && ids@[j]@ == t;
                        assert(before.transaction_manager.transactions.contains_key(t));
                        assert(ids@[i as int]@ != t);
                    }
                }
            }
            i = i + 1;
        }
        proof {
            assert(ids_view.subrange(i as int, ids_view.len() as int) =~= Seq::<u64>::empty());
            assert(spec_store_agreement(engine@));
            assert(ids_view.no_duplicates()) by {
                assert forall|a: int, b: int| 0 <= a < ids_view.len() && 0 <= b < ids_view.len() && a != b implies ids_view[a] != ids_view[b] by {
                    if a < b {
                        assert(ids@[a]@ != ids@[b]@);
                    } else {
                        assert(ids@[b]@ != ids@[a]@);
                    }
                }
            }
            assert forall|t: u64| loaded.transaction_manager.transactions.contains_key(t) <==> ids_view.contains(t) by {
                if loaded.transaction_manager.transactions.contains_key(t) {
                    let j = choose|j: int| 0 <= j < ids@.len() && ids@[j]@ == t;
                    assert(ids_view[j] == t);
                }
                if ids_view.contains(t) {
                    let j = choose|j: int| 0 <= j < ids_view.len() && ids_view[j] == t;
                    assert(ids@[j]@ == t);
                }
            }
        }
        Ok(engine)
    }

    /// The keys that have pointers.
    pub fn get_current_keys(&self) -> (result: Result<Vec<KVKey>, KVError>)
        requires
            self.wf(),
        ensures
            result matches Ok(keys) && lists_keys(self@.snapshot, keys@),
    {
        let keys = self.snapshot.keys();
        proof {
            let s = self@.snapshot;
            assert(s == self.snapshot@);
            assert forall|i: int| 0 <= i < keys@.len() implies s.contains_key(#[trigger] keys@[i]@) by {
                assert(self.snapshot@.contains_key(keys@[i]@));
            }
            assert forall|k: Seq<u8>| #[trigger] self@.snapshot.contains_key(k) implies exists|i: int| 0 <= i < keys@.len() && keys@[i]@ == k by {
                assert(self.snapshot@.contains_key(k));
                let i = choose|i: int| 0 <= i < keys@.len() && keys@[i]@ == k;
                assert(keys@[i]@ == k);
            }
            assert(lists_keys(self@.snapshot, keys@));
        }
        Ok(keys)
    }

    /// Every key with its committed value, for the keys whose committed pointer is a set, or a
    /// revert to a value, outside any transaction, one entry per such key; see
    /// `spec_current_entry` and `entries_listed`.
    pub fn get_all_current(&self) -> (result: Result<Vec<(KVKey, KVValue)>, KVError>)
        requires
            self.wf(),
        ensures
            result is Ok ==> forall|k: Seq<u8>| #[trigger] self@.snapshot.contains_key(k) ==> spec_current_entry(self@.log, self@.snapshot, k) is Ok,
            result matches Ok(entries) ==> exists|ks: Seq<Seq<u8>>| #[trigger] entries_listed(self@.log, self@.snapshot, entries_view(entries@), ks),
            result matches Err(e) ==> exists|k: Seq<u8>| #[trigger] self@.snapshot.contains_key(k) && spec_current_entry(self@.log, self@.snapshot, k) == Err::<Option<(Seq<u8>, Seq<u8>)>, KVError>(e),
    {
        let keys = self.snapshot.keys();
        let ghost log = self@.log;
        let ghost snap = self@.snapshot;
        let mut result: Vec<(KVKey, KVValue)> = Vec::new();
        let ghost mut ks: Seq<Seq<u8>> = Seq::empty();
        let mut i: usize = 0;
        while i < keys.len()
            invariant
                self.wf(),
                log == self@.log,
                snap == self@.snapshot,
                i <= keys@.len(),
                forall|j: int| 0 <= j < keys@.len() ==> snap.contains_key(#[trigger] keys@[j]@),
                forall|k: Seq<u8>| #[trigger] snap.contains_key(k) ==> exists|j: int| 0 <= j < keys@.len() && keys@[j]@ == k,
                forall|a: int, b: int| 0 <= a < b < keys@.len() ==> (#[trigger] keys@[a])@ != (#[trigger] keys@[b])@,
                forall|j: int| 0 <= j < i ==> spec_current_entry(log, snap, #[trigger] keys@[j]@) is Ok,
                ks.len() == result@.len(),
                ks.no_duplicates(),
                forall|a: int| 0 <= a < ks.len() ==> exists|j: int| 0 <= j < i && #[trigger] ks[a] == keys@[j]@,
                forall|a: int| 0 <= a < ks.len() ==> snap.contains_key(#[trigger] ks[a]) && spec_current_entry(log, snap, ks[a])
                    == Ok::<Option<(Seq<u8>, Seq<u8>)>, KVError>(Some((result@[a].0@, result@[a].1@))),
                forall|j: int| 0 <= j < i ==> (spec_current_entry(log, snap, #[trigger] keys@[j]@) matches Ok(Some(_)) ==> ks.contains(keys@[j]@)),
            decreases keys@.len() - i,
        {
            let key = &keys[i];
            let ghost k = key@;
            let ghost old_result = result@;
            let ghost old_ks = ks;
            assert(snap.contains_key(k));
            let mut added = false;
            match self.snapshot.get_pointer(key.as_bytes(), None) {
                None => {
                    assert(spec_current_entry(log, snap, k) == Ok::<Option<(Seq<u8>, Seq<u8>)>, KVError>(None));
                },
                Some(height) => {
                    assert(pointer_of(snap, k, None) == Some(height));
                    assert(height < log.len());
                    let count = self.instructions.len();
                    assert(height < count);
                    let index = height as usize;
                    assert(log[index as int] == self.instructions@[index as int]@);
                    match &self.instructions[index] {
                        Instruction::Put { key: instruction_key, value } => {
                            let entry = (KVKey::new(instruction_key.as_bytes()), KVValue::new(value.as_bytes()));
                            assert(log[height as int] == InstructionView::Put { key: instruction_key@, value: value@ });
                            assert(spec_current_entry(log, snap, k) == Ok::<Option<(Seq<u8>, Seq<u8>)>, KVError>(Some((entry.0@, entry.1@))));
                            result.push(entry);
                            added = true;
                        },
                        Instruction::RevertOne { key: instruction_key, .. } => {
                            match read_pointer(&self.instructions, height) {
                                Err(e) => {
                                    assert(spec_current_entry(log, snap, k) == Err::<Option<(Seq<u8>, Seq<u8>)>, KVError>(e));
                                    assert(self@.snapshot.contains_key(k) && spec_current_entry(self@.log, self@.snapshot, k) == Err::<Option<(Seq<u8>, Seq<u8>)>, KVError>(e));
                                    return Err(e);
                                },
                                Ok(None) => {},
                                Ok(Some(value)) => {
                                    let entry = (KVKey::new(instruction_key.as_bytes()), value);
                                    result.push(entry);
                                    added = true;
                                },
                            }
                        },
                        _ => {},
                    }
                },
            }
            proof {
                if added {
                    ks = ks.push(k);
                    assert(spec_current_entry(log, snap, k) == Ok::<Option<(Seq<u8>, Seq<u8>)>, KVError>(Some((result@[result@.len() - 1].0@, result@[result@.len() - 1].1@))));
                    assert(!old_ks.contains(k)) by {
                        if old_ks.contains(k) {
                            let a = choose|a: int| 0 <= a < old_ks.len() && old_ks[a] == k;
                            let j = choose|j: int| 0 <= j < i && #[trigger] old_ks[a] == keys@[j]@;
                            assert(keys@[j]@ != keys@[i as int]@);
                        }
                    }
                    assert forall|a: int, b: int| 0 <= a < ks.len() && 0 <= b < ks.len() && a != b implies ks[a] != ks[b] by {
                        if a < old_ks.len() && b < old_ks.len() {
                            assert(old_ks[a] != old_ks[b]);
                        } else if a < old_ks.len() {
                            assert(old_ks.contains(old_ks[a]));
                        } else {
                            assert(old_ks.contains(old_ks[b]));
                        }
                    }
                    assert forall|a: int| 0 <= a < ks.len() implies exists|j: int| 0 <= j < i + 1 && #[trigger] ks[a] == keys@[j]@ by {
                        if a < old_ks.len() {
                            assert(ks[a] == old_ks[a]);
                        } else {
                            assert(ks[a] == keys@[i as int]@);
                        }
                    }
                    assert forall|a: int| 0 <= a < ks.len() implies snap.contains_key(#[trigger] ks[a]) && spec_current_entry(log, snap, ks[a])
                        == Ok::<Option<(Seq<u8>, Seq<u8>)>, KVError>(Some((result@[a].0@, result@[a].1@))) by {
                        if a < old_ks.len() {
                            assert(ks[a] == old_ks[a]);
                            assert(result@[a] == old_result[a]);
                        }
                    }
                    assert forall|j: int| 0 <= j < i + 1 implies (spec_current_entry(log, snap, #[trigger] keys@[j]@) matches Ok(Some(_)) ==> ks.contains(keys@[j]@)) by {
                        if j < i {
                            if spec_current_entry(log, snap, keys@[j]@) matches Ok(Some(_)) {
                                let a = choose|a: int| 0 <= a < old_ks.len() && old_ks[a] == keys@[j]@;
                                assert(ks[a] == keys@[j]@);
                            }
                        } else {
                            assert(ks[ks.len() - 1] == keys@[j]@);
                        }
                    }
                } else {
                    assert(spec_current_entry(log, snap, k) == Ok::<Option<(Seq<u8>, Seq<u8>)>, KVError>(None));
                    assert(result@ == old_result);
                }
            }
            i = i + 1;
        }
        proof {
            assert forall|k: Seq<u8>| #[trigger] snap.contains_key(k) implies spec_current_entry(log, snap, k) is Ok by {
                let j = choose|j: int| 0 <= j < keys@.len() && keys@[j]@ == k;
                assert(spec_current_entry(log, snap, keys@[j]@) is Ok);
            }
            assert forall|k: Seq<u8>| #[trigger] snap.contains_key(k) && (spec_current_entry(log, snap, k) matches Ok(Some(_))) implies ks.contains(k) by {
                let j = choose|j: int| 0 <= j < keys@.len() && keys@[j]@ == k;
                assert(spec_current_entry(log, snap, keys@[j]@) matches Ok(Some(_)));
            }
            assert(entries_view(result@).len() == ks.len());
            assert forall|a: int| 0 <= a < ks.len() implies snap.contains_key(#[trigger] ks[a]) && spec_current_entry(log, snap, ks[a])
                == Ok::<Option<(Seq<u8>, Seq<u8>)>, KVError>(Some(entries_view(result@)[a])) by {
                assert(entries_view(result@)[a] == (result@[a].0@, result@[a].1@));
            }
            assert(entries_listed(log, snap, entries_view(result@), ks));
            assert(entries_listed(self@.log, self@.snapshot, entries_view(result@), ks));
        }
        let ghost listed = result@;
        assert(entries_listed(self@.log, self@.snapshot, entries_view(listed), ks));
        let answer: Result<Vec<(KVKey, KVValue)>, KVError> = Ok(result);
        assert(answer.unwrap()@ == listed);
        assert(entries_listed(self@.log, self@.snapshot, entries_view(answer.unwrap()@), ks));
        answer
    }

    /// Every instruction of the log with its height.
    pub fn inspect_all(&self) -> (result: Result<Vec<(Instruction, ChainHeight)>, KVError>)
        requires
            self.wf(),
        ensures
            result matches Ok(entries) && entries@.len() == self@.log.len() && forall|i: int| 0 <= i < entries@.len() ==> (#[trigger] entries@[i]).0@ == self@.log[i] && entries@[i].1@ == i,
    {
        let mut result: Vec<(Instruction, ChainHeight)> = Vec::new();
        let mut i: usize = 0;
        while i < self.instructions.len()
            invariant
                i <= self.instructions@.len(),
                result@.len() == i,
                forall|j: int| 0 <= j < i ==> (#[trigger] result@[j]).0@ == self@.log[j] && result@[j].1@ == j,
            decreases self.instructions@.len() - i,
        {
            result.push((self.instructions[i].duplicate(), ChainHeight::new(i as u64)));
            i = i + 1;
        }
        Ok(result)
    }

    /// The history of `target_key`: the instructions that set, revert or remove it outside any
    /// transaction, and those that revert or remove everything after it first appeared, with
    /// their heights; see `spec_history`.
    pub fn inspect_one(&self, target_key: &KVKey) -> (result: Result<Vec<(Instruction, ChainHeight)>, KVError>)
        requires
            self.wf(),
        ensures
            result matches Ok(entries) && entries@.map_values(|e: (Instruction, ChainHeight)| (e.0@, e.1@)) == spec_history(self@.log, target_key@, self@.log.len()),
    {
        let ghost log = self@.log;
        let mut result: Vec<(Instruction, ChainHeight)> = Vec::new();
        let mut appeared = false;
        let mut i: usize = 0;
        while i < self.instructions.len()
            invariant
                log == self@.log,
                i <= self.instructions@.len(),
                appeared == appeared_before(log, target_key@, i as int),
                result@.map_values(|e: (Instruction, ChainHeight)| (e.0@, e.1@)) == spec_history(log, target_key@, i as nat),
            decreases self.instructions@.len() - i,
        {
            let instruction = &self.instructions[i];
            assert(log[i as int] == instruction@);
            let (is_plain, matches_key) = match instruction {
                Instruction::Put { key, .. } => (true, bytes_eq(key.as_bytes(), target_key.as_bytes())),
                Instruction::RevertOne { key, .. } => (true, bytes_eq(key.as_bytes(), target_key.as_bytes())),
                Instruction::RemoveOne { key } => (true, bytes_eq(key.as_bytes(), target_key.as_bytes())),
                _ => (false, false),
            };
            let belongs = match instruction {
                Instruction::RevertAll { .. } => appeared,
                Instruction::RemoveAll => appeared,
                _ => matches_key,
            };
            let ghost before = result@.map_values(|e: (Instruction, ChainHeight)| (e.0@, e.1@));
            if belongs {
                result.push((instruction.duplicate(), ChainHeight::new(i as u64)));
                assert(result@.map_values(|e: (Instruction, ChainHeight)| (e.0@, e.1@)) =~= before.push((log[i as int], i as u64)));
            }
            proof {
                assert(in_history(log, target_key@, i as int) == belongs);
                assert(appeared_before(log, target_key@, i + 1) == (appeared || matches_key)) by {
                    if matches_key {
                        assert(plain_key(log[i as int]) == Some(target_key@));
                    }
                    if appeared_before(log, target_key@, i + 1) && !appeared {
                        let j = choose|j: int| 0 <= j < i + 1 && plain_key(log[j]) == Some(target_key@);
                        assert(j == i);
                    }
                }
            }
            if matches_key {
                appeared = true;
            }
            i = i + 1;
        }
        Ok(result)
    }

    /// The bytes of the log file, the version header first.
    pub fn log_bytes(&self) -> (result: &[u8])
        ensures
            result@ == self@.log_bytes,
    {
        self.log_bytes.as_slice()
    }

    /// The height counter.
    pub fn current_height(&self) -> (result: ChainHeight)
        ensures
            result@ == self@.current_height,
    {
        self.current_height
    }
}

/// Replays the first `n` instructions; see `spec_replay`.
fn replay(instructions: &Vec<Instruction>, n: usize) -> (result: Result<(Snapshot, TransactionManager), KVError>)
    requires
        n <= instructions@.len(),
    ensures
        match result {
            Ok((snapshot, transaction_manager)) => snapshot.wf() && transaction_manager.wf() && spec_replay(
                instructions@.map_values(|i: Instruction| i@),
                n as nat,
            ) == Ok::<(crate::storage::kv_model::SnapshotView, crate::storage::transaction_manager::TransactionManagerView), KVError>((snapshot@, transaction_manager@)),
            Err(e) => spec_replay(instructions@.map_values(|i: Instruction| i@), n as nat) == Err::<
                (crate::storage::kv_model::SnapshotView, crate::storage::transaction_manager::TransactionManagerView),
                KVError,
            >(e),
        },
    decreases n,
{
    let ghost log = instructions@.map_values(|i: Instruction| i@);
    let mut snapshot = Snapshot::new();
    let mut transaction_manager = TransactionManager::new();
    let mut i: usize = 0;
    while i < n
        invariant
            i <= n <= instructions@.len(),
            log == instructions@.map_values(|i: Instruction| i@),
            snapshot.wf(),
            transaction_manager.wf(),
            spec_replay(log, i as nat) == Ok::<(crate::storage::kv_model::SnapshotView, crate::storage::transaction_manager::TransactionManagerView), KVError>((snapshot@, transaction_manager@)),
        decreases n - i,
    {
        let height = i as u64;
        assert(log[i as int] == instructions@[i as int]@);
        let ghost snap0 = snapshot@;
        let ghost tm0 = transaction_manager@;
        match &instructions[i] {
            Instruction::Put { key, .. } => {
                update_snapshot(key, height, &mut snapshot, None);
            },
            Instruction::RevertOne { key, .. } => {
                update_snapshot(key, height, &mut snapshot, None);
            },
            Instruction::RemoveOne { key } => {
                update_snapshot(key, height, &mut snapshot, None);
            },
            Instruction::RevertAll { height: target } => {
                if target.as_u64() >= height {
                    proof {
                        crate::storage::kv_model::lemma_replay_err_persists(log, (i + 1) as nat, n as nat);
                    }
                    return Err(KVError::RevertOutOfRange);
                }
                match replay(instructions, (target.as_u64() + 1) as usize) {
                    Err(e) => {
                        proof {
                            crate::storage::kv_model::lemma_replay_err_persists(log, (i + 1) as nat, n as nat);
                        }
                        return Err(e);
                    },
                    Ok((reverted, _)) => {
                        snapshot = reverted;
                        transaction_manager = TransactionManager::new();
                    },
                }
            },
            Instruction::RemoveAll => {
                snapshot.remove_committed_pointers();
            },
            Instruction::TransactionStart { transaction_id } => {
                let copy = snapshot.duplicate();
                transaction_manager.initialize_transaction(transaction_id, copy);
                transaction_manager.update_transaction_id(transaction_id);
            },
            Instruction::TransactionalSet { key, transaction_id, .. } => {
                update_snapshot(key, height, &mut snapshot, Some(*transaction_id));
                transaction_manager.add_affected_keys(transaction_id, key);
            },
            Instruction::TransactionalRevertOne { key, transaction_id, .. } => {
                update_snapshot(key, height, &mut snapshot, Some(*transaction_id));
                transaction_manager.add_affected_keys(transaction_id, key);
            },
            Instruction::TransactionalRemoveOne { key, transaction_id } => {
                update_snapshot(key, height, &mut snapshot, Some(*transaction_id));
                transaction_manager.add_affected_keys(transaction_id, key);
            },
            Instruction::TransactionCommit { transaction_id } => {
                update_committed_log_pointers(&mut transaction_manager, &mut snapshot, *transaction_id);
            },
            Instruction::TransactionAbort { transaction_id } => {
                update_aborted_log_pointers(&mut transaction_manager, &mut snapshot, *transaction_id);
            },
        }
        proof {
            assert(transaction_manager@ =~= transaction_manager@);
        }
        i = i + 1;
    }
    Ok((snapshot, transaction_manager))
}

/// Replays the log up to and including `target_height`, or all of it; gives the snapshot, the
/// height reached, and the transactions.
pub fn load_snapshot(instructions: &Vec<Instruction>, target_height: Option<&ChainHeight>) -> (result: Result<(Snapshot, ChainHeight, TransactionManager), KVError>)
    ensures
        match result {
            Ok((snapshot, height, transaction_manager)) => {
                let n: nat = match target_height {
                    Some(h) => if h@ < instructions@.len() { (h@ + 1) as nat } else { instructions@.len() },
                    None => instructions@.len(),
                };
                &&& snapshot.wf()
                &&& transaction_manager.wf()
                &&& height@ == (match target_height {
                    Some(h) => if h@ < instructions@.len() { h@ } else { instructions@.len() as u64 },
                    None => instructions@.len() as u64,
                })
                &&& spec_replay(instructions@.map_values(|i: Instruction| i@), n)
                    == Ok::<(crate::storage::kv_model::SnapshotView, crate::storage::transaction_manager::TransactionManagerView), KVError>((snapshot@, transaction_manager@))
            },
            Err(e) => {
                let n: nat = match target_height {
                    Some(h) => if h@ < instructions@.len() { (h@ + 1) as nat } else { instructions@.len() },
                    None => instructions@.len(),
                };
                spec_replay(instructions@.map_values(|i: Instruction| i@), n) == Err::<
                    (crate::storage::kv_model::SnapshotView, crate::storage::transaction_manager::TransactionManagerView),
                    KVError,
                >(e)
            },
        },
{
    let len = instructions.len();
    let (n, height): (usize, u64) = match target_height {
        Some(h) => {
            if h.as_u64() < len as u64 {
                ((h.as_u64() + 1) as usize, h.as_u64())
            } else {
                (len, len as u64)
            }
        },
        None => (len, len as u64),
    };
    match replay(instructions, n) {
        Err(e) => Err(e),
        Ok((snapshot, transaction_manager)) => Ok((snapshot, ChainHeight::new(height), transaction_manager)),
    }
}

/// Whether a text is one plain component of a path: not empty, neither `.` nor `..`, and with
/// no separator or drive mark in it.
pub open spec fn plain_path_component(name: Seq<char>) -> bool {
    &&& name.len() > 0
    &&& name != seq!['.']
    &&& name != seq!['.', '.']
    &&& forall|i: int| 0 <= i < name.len() ==> name[i] != '/' && name[i] != '\\' && name[i] != ':'
}

/// Whether a character separates path components on some platform.
pub open spec fn path_separator(c: char) -> bool {
    c == '/' || c == '\\'
}

/// Whether a directory text starts with the verbatim prefix `\\?\`, under which joining a path
/// normalizes the directory's components.
pub open spec fn verbatim_prefix(dir: Seq<char>) -> bool {
    dir.len() >= 4 && dir[0] == '\\' && dir[1] == '\\' && dir[2] == '?' && dir[3] == '\\'
}

/// Whether a directory text is a bare drive, such as `C:`.
pub open spec fn bare_drive(dir: Seq<char>) -> bool {
    dir.len() == 2 && dir[1] == ':' && (('a' <= dir[0] && dir[0] <= 'z') || ('A' <= dir[0] && dir[0] <= 'Z'))
}

/// Whether a directory text needs a separator before a name is adjoined: it is not empty, does
/// not end with a separator, and is not a bare drive.
pub open spec fn needs_separator(dir: Seq<char>) -> bool {
    dir.len() > 0 && !path_separator(dir.last()) && !bare_drive(dir)
}

/// Whether `path` is `dir` extended by `name`: the directory, then at most one separator, then
/// the name; exactly one separator where the directory needs one.
pub open spec fn extends_path(path: Seq<char>, dir: Seq<char>, name: Seq<char>) -> bool {
    &&& (path == dir + name || exists|c: char| path_separator(c) && path == dir + seq![c] + name)
    &&& (needs_separator(dir) ==> exists|c: char| path_separator(c) && path == dir + seq![c] + name)
}

/// Calls `std::path::Path::join` to adjoin a file name to a directory, and reads the path back
/// as text. A relative name extends the directory: the directory, a separator where the
/// directory does not already end with one, then the name. Which separator the platform uses,
/// and whether one follows a bare drive such as `C:`, is left unsaid; so is the path under a
/// verbatim prefix `\\?\`, where Windows normalizes the directory's components first.
#[verifier::external_body]
fn join_path(dir: &str, name: &str) -> (result: String)
    requires
        plain_path_component(name@),
    ensures
        !verbatim_prefix(dir@) ==> extends_path(result@, dir@, name@),
{
    std::path::Path::new(dir).join(name).to_string_lossy().into_owned()
}

/// The path of the instruction log in a data directory: the directory, then a separator where
/// the directory does not end with one, then the log's file name. Under a verbatim prefix the
/// directory is normalized first, and nothing is stated of the path.
pub fn get_main_log_full_path(data_dir: &str) -> (result: String)
    ensures
        !verbatim_prefix(data_dir@) ==> {
            &&& extends_path(result@, data_dir@, MAIN_LOG_FILENAME@)
            &&& result@.len() >= data_dir@.len() + MAIN_LOG_FILENAME@.len()
            &&& result@.subrange(0, data_dir@.len() as int) == data_dir@
            &&& result@.subrange(result@.len() - MAIN_LOG_FILENAME@.len(), result@.len() as int) == MAIN_LOG_FILENAME@
        },
{
    proof {
        reveal_strlit("instruction_log.imm");
    }
    let result = join_path(data_dir, MAIN_LOG_FILENAME);
    proof {
        let d = data_dir@;
        let n = MAIN_LOG_FILENAME@;
        if !verbatim_prefix(d) {
            if result@ == d + n {
                assert(result@.subrange(0, d.len() as int) =~= d);
                assert(result@.subrange(result@.len() - n.len(), result@.len() as int) =~= n);
            } else {
                let c = choose|c: char| path_separator(c) && result@ == d + seq![c] + n;
                assert(result@.subrange(0, d.len() as int) =~= d);
                assert(result@.subrange(result@.len() - n.len(), result@.len() as int) =~= n);
            }
        }
    }
    result
}

} // verus!
