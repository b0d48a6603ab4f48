//! The executor: runs the commands on units of content against the storage engine.

use vstd::prelude::*;
use crate::constants::MAX_KEY_LENGTH;
use crate::storage::chain_height::ChainHeight;
use crate::storage::ecc::ECCMode;
use crate::storage::errors::KVError;
use crate::storage::executor::command::{
    content_part, spec_command_of_instruction, Command, CommandView, ConditionView, SelectCondition,
};
use crate::storage::executor::errors::ExecutorError;
use crate::storage::executor::filter::{content_satisfied_filter, spec_filter_satisfied, Filter, FilterView};
use crate::storage::executor::grouping_label::GroupingLabel;
use crate::storage::executor::instruction::{Instruction as Request, RequestView};
use crate::storage::executor::outcome::{Outcome, OutcomeView};
use crate::storage::executor::predicate::{spec_check, Predicate, PredicateView};
use crate::storage::executor::unit_content::{
    contents_view, lemma_contents_view_all, spec_content_bytes, ContentView, UnitContent,
};
use crate::storage::executor::unit_key::UnitKey;
use crate::storage::instruction::{Instruction, InstructionView};
use crate::storage::kv::LogKeyValueStore;
use crate::storage::kv_model::{
    spec_abort, spec_abort_each, spec_commit, spec_get, spec_history, spec_loaded,
    spec_remove_all, spec_remove_one, spec_revert_all, spec_revert_one, spec_set,
    spec_start_transaction, height_overflow_error, spec_current_entry, spec_store_wf, StoreView,
};
use crate::storage::kvkey::{spec_kvkey_bytes, KVKey, KVKeyError};
use crate::storage::kv::{entries_listed, entries_view};
use crate::storage::kvvalue::KVValue;
use crate::storage::log_version::{version_not_newer, LogVersion};
use crate::storage::transaction_manager::{tid_view, TransactionId};
use crate::utils::bytes::bytes_eq;

verus! {

/// Runs commands on units of content; each unit is stored under the key made of its grouping
/// and its unit key, as its byte form.
pub struct Executor {
    store_engine: LogKeyValueStore,
}

impl View for Executor {
    type V = StoreView;

    closed spec fn view(&self) -> StoreView {
        self.store_engine@
    }
}

/// An executor's result as the contracts see it.
pub open spec fn outcome_result(r: Result<Outcome, ExecutorError>) -> Result<OutcomeView, ExecutorError> {
    match r {
        Ok(o) => Ok(o@),
        Err(e) => Err(e),
    }
}

/// The outcome of a change of the store: `success` where the store did it, its error where it
/// refused.
pub open spec fn change_outcome(r: Result<(), KVError>, success: OutcomeView) -> Result<OutcomeView, ExecutorError> {
    match r {
        Ok(()) => Ok(success),
        Err(e) => Err(ExecutorError::KVError(e)),
    }
}

/// What a select by key answers: the unit stored under the grouping and the key, as the store
/// reads it committed or inside the transaction; `None` where the stored bytes overrun.
pub open spec fn spec_select_key(v: StoreView, g: Seq<u8>, k: Seq<u8>, t: Option<u64>) -> Option<Result<OutcomeView, ExecutorError>> {
    match spec_get(v, spec_kvkey_bytes(g, k), t) {
        Err(e) => Some(Err(ExecutorError::KVError(e))),
        Ok(None) => Some(Ok(OutcomeView::Select(Seq::empty()))),
        Ok(Some(bytes)) => match content_part(bytes) {
            None => None,
            Some(Err(e)) => Some(Err(ExecutorError::UnitContentError(e))),
            Some(Ok((u, _))) => Some(Ok(OutcomeView::Select(seq![u]))),
        },
    }
}

/// Instructions with their heights turned into the commands they record, in order; the first
/// that cannot be turned decides: its error, or `None` where its bytes overrun.
pub open spec fn spec_commands_of(entries: Seq<(InstructionView, u64)>) -> Option<Result<Seq<(CommandView, u64)>, ExecutorError>>
    decreases entries.len(),
{
    if entries.len() == 0 {
        Some(Ok(Seq::empty()))
    } else {
        match spec_commands_of(entries.drop_last()) {
            None => None,
            Some(Err(e)) => Some(Err(e)),
            Some(Ok(cs)) => match spec_command_of_instruction(entries.last().0) {
                None => None,
                Some(Err(e)) => Some(Err(ExecutorError::CommandError(e))),
                Some(Ok(c)) => Some(Ok(cs.push((c, entries.last().1)))),
            },
        }
    }
}

/// Every instruction of the log with its height.
pub open spec fn log_entries(log: Seq<InstructionView>) -> Seq<(InstructionView, u64)> {
    Seq::new(log.len(), |i: int| (log[i], i as u64))
}

/// The outcome of an inspection as the contracts see it.
pub open spec fn inspect_outcome(r: Option<Result<Seq<(CommandView, u64)>, ExecutorError>>, all: bool) -> Option<Result<OutcomeView, ExecutorError>> {
    match r {
        None => None,
        Some(Err(e)) => Some(Err(e)),
        Some(Ok(cs)) => Some(Ok(if all { OutcomeView::InspectAll(cs) } else { OutcomeView::InspectOne(cs) })),
    }
}

/// An optional result as the contracts see it.
pub open spec fn checked_outcome(r: Option<Result<Outcome, ExecutorError>>) -> Option<Result<OutcomeView, ExecutorError>> {
    match r {
        None => None,
        Some(r) => Some(outcome_result(r)),
    }
}

/// Turns instructions with their heights into commands; see `spec_commands_of`.
fn commands_of(entries: Vec<(Instruction, ChainHeight)>) -> (result: Option<Result<Vec<(Command, ChainHeight)>, ExecutorError>>)
    ensures
        ({
            let ev = entries@.map_values(|e: (Instruction, ChainHeight)| (e.0@, e.1@));
            match result {
                None => spec_commands_of(ev) is None,
                Some(Err(e)) => spec_commands_of(ev) == Some(Err::<Seq<(CommandView, u64)>, ExecutorError>(e)),
                Some(Ok(cs)) => spec_commands_of(ev) == Some(Ok::<Seq<(CommandView, u64)>, ExecutorError>(
                    cs@.map_values(|e: (Command, ChainHeight)| (e.0@, e.1@)),
                )),
            }
        }),
{
    let ghost ev = entries@.map_values(|e: (Instruction, ChainHeight)| (e.0@, e.1@));
    let mut result: Vec<(Command, ChainHeight)> = Vec::new();
    let mut i: usize = 0;
    assert(ev.take(0) =~= Seq::<(InstructionView, u64)>::empty());
    assert(spec_commands_of(ev.take(0)) == Some(Ok::<Seq<(CommandView, u64)>, ExecutorError>(Seq::empty())));
    assert(result@.map_values(|e: (Command, ChainHeight)| (e.0@, e.1@)) =~= Seq::<(CommandView, u64)>::empty());
    while i < entries.len()
        invariant
            i <= entries@.len(),
            ev == entries@.map_values(|e: (Instruction, ChainHeight)| (e.0@, e.1@)),
            spec_commands_of(ev.take(i as int)) == Some(Ok::<Seq<(CommandView, u64)>, ExecutorError>(
                result@.map_values(|e: (Command, ChainHeight)| (e.0@, e.1@)),
            )),
        decreases entries@.len() - i,
    {
        let (instruction, height) = &entries[i];
        proof {
            assert(ev.take(i + 1).drop_last() =~= ev.take(i as int));
            assert(ev.take(i + 1).last() == (instruction@, height@));
        }
        match Command::try_from_checked(instruction) {
            None => {
                proof {
                    lemma_commands_of_stops(ev, i as int);
                }
                return None;
            },
            Some(Err(e)) => {
                proof {
                    lemma_commands_of_stops(ev, i as int);
                }
                return Some(Err(ExecutorError::CommandError(e)));
            },
            Some(Ok(command)) => {
                let ghost before = result@.map_values(|e: (Command, ChainHeight)| (e.0@, e.1@));
                result.push((command, *height));
                assert(result@.map_values(|e: (Command, ChainHeight)| (e.0@, e.1@)) =~= before.push((command@, height@)));
            },
        }
        i = i + 1;
    }
    assert(ev.take(i as int) =~= ev);
    Some(Ok(result))
}

/// Once a prefix fails, every longer prefix fails the same way.
proof fn lemma_commands_of_stops(ev: Seq<(InstructionView, u64)>, i: int)
    requires
        0 <= i < ev.len(),
        spec_commands_of(ev.take(i)) is Some && spec_commands_of(ev.take(i)).unwrap() is Ok,
        !(spec_command_of_instruction(ev[i].0) matches Some(Ok(_))),
    ensures
        spec_commands_of(ev) == (match spec_command_of_instruction(ev[i].0) {
            None => None::<Result<Seq<(CommandView, u64)>, ExecutorError>>,
            Some(Err(e)) => Some(Err::<Seq<(CommandView, u64)>, ExecutorError>(ExecutorError::CommandError(e))),
            Some(Ok(_)) => None::<Result<Seq<(CommandView, u64)>, ExecutorError>>,
        }),
    decreases ev.len() - i,
{
    assert(ev.take(i + 1).drop_last() =~= ev.take(i));
    if i + 1 == ev.len() {
        assert(ev.take(i + 1) =~= ev);
    } else {
        lemma_commands_of_stays_failed(ev, i + 1);
    }
}

/// A failed prefix stays failed as it grows.
proof fn lemma_commands_of_stays_failed(ev: Seq<(InstructionView, u64)>, j: int)
    requires
        0 < j <= ev.len(),
        !(spec_commands_of(ev.take(j)) matches Some(Ok(_))),
    ensures
        spec_commands_of(ev) == spec_commands_of(ev.take(j)),
    decreases ev.len() - j,
{
    if j == ev.len() {
        assert(ev.take(j) =~= ev);
    } else {
        assert(ev.take(j + 1).drop_last() =~= ev.take(j));
        lemma_commands_of_stays_failed(ev, j + 1);
    }
}

impl Executor {
    pub closed spec fn wf(&self) -> bool {
        self.store_engine.wf()
    }

    /// A well-formed executor's store keeps what `spec_store_wf` says, so the laws of the
    /// store model apply to it.
    pub proof fn lemma_wf_model(&self)
        requires
            self.wf(),
        ensures
            spec_store_wf(self@),
    {
        self.store_engine.lemma_wf_model();
    }

    /// Opens the store on the bytes of a log file; see `LogKeyValueStore::open`.
    pub fn open(log_bytes: Vec<u8>, ecc_mode: ECCMode, db_version: LogVersion) -> (result: Result<Executor, ExecutorError>)
        requires
            log_bytes@.len() >= 3 ==> version_not_newer((log_bytes@[0], log_bytes@[1], log_bytes@[2]), db_version@),
        ensures
            match result {
                Ok(executor) => executor.wf() && (spec_loaded(log_bytes@, ecc_mode, db_version@) matches Ok(loaded)
                    && exists|ids: Seq<u64>| #![trigger spec_abort_each(loaded, ids)] ids.no_duplicates()
                        && (forall|t: u64| loaded.transaction_manager.transactions.contains_key(t) <==> ids.contains(t))
                        && spec_abort_each(loaded, ids) == (executor@, Ok::<(), KVError>(()))),
                Err(ExecutorError::KVError(e)) => spec_loaded(log_bytes@, ecc_mode, db_version@) == Err::<StoreView, KVError>(e)
                    || (spec_loaded(log_bytes@, ecc_mode, db_version@) is Ok && e == height_overflow_error()),
                Err(_) => false,
            },
    {
        match LogKeyValueStore::open(log_bytes, ecc_mode, db_version) {
            Ok(store_engine) => Ok(Executor { store_engine }),
            Err(e) => Err(ExecutorError::KVError(e)),
        }
    }

    /// The bytes of the log, header included.
    pub fn log_bytes(&self) -> (result: &[u8])
        ensures
            result@ == self@.log_bytes,
    {
        self.store_engine.log_bytes()
    }

    /// Stores `value` under the grouping and the key, committed or inside a live transaction.
    pub fn set(
        &mut self,
        grouping: &GroupingLabel,
        key: &UnitKey,
        value: &UnitContent,
        transaction_id: Option<TransactionId>,
    ) -> (result: Result<Outcome, ExecutorError>)
        requires
            old(self).wf(),
            3 * (28 + MAX_KEY_LENGTH + spec_content_bytes(value@).len()) < usize::MAX,
        ensures
            final(self).wf(),
            ({
                let (s, r) = spec_set(old(self)@, spec_kvkey_bytes(grouping@, key@), spec_content_bytes(value@), tid_view(transaction_id));
                &&& final(self)@ == s
                &&& outcome_result(result) == change_outcome(
                    r,
                    if transaction_id is Some { OutcomeView::TransactionalInsertSuccess } else { OutcomeView::InsertSuccess },
                )
            }),
    {
        let kv_key = KVKey::from_grouping_and_unit_key(grouping, key);
        let kv_value = KVValue::from(value);
        match self.store_engine.set(&kv_key, &kv_value, transaction_id) {
            Err(e) => Err(ExecutorError::KVError(e)),
            Ok(()) => match transaction_id {
                Some(_) => Ok(Outcome::TransactionalInsertSuccess),
                None => Ok(Outcome::InsertSuccess),
            },
        }
    }

    /// Reads the unit under the grouping and the key; see `spec_select_key`.
    fn select_key(&self, grouping: &GroupingLabel, key: &UnitKey, transaction_id: Option<TransactionId>) -> (result: Option<Result<Outcome, ExecutorError>>)
        requires
            self.wf(),
        ensures
            checked_outcome(result) == spec_select_key(self@, grouping@, key@, tid_view(transaction_id)),
    {
        let kv_key = KVKey::from_grouping_and_unit_key(grouping, key);
        match self.store_engine.get(&kv_key, transaction_id) {
            Err(e) => Some(Err(ExecutorError::KVError(e))),
            Ok(None) => {
                let empty: Vec<UnitContent> = Vec::new();
                assert(crate::storage::executor::unit_content::contents_view(empty@) =~= Seq::<ContentView>::empty());
                Some(Ok(Outcome::Select(empty)))
            },
            Ok(Some(kv_value)) => {
                proof {
                    reveal(content_part);
                }
                match UnitContent::parse_checked(kv_value.as_bytes()) {
                    None => None,
                    Some(Err(e)) => Some(Err(ExecutorError::UnitContentError(e))),
                    Some(Ok((content, _))) => {
                        let units = vec![content];
                        proof {
                            crate::storage::executor::unit_content::lemma_contents_view_all(units@);
                        }
                        assert(crate::storage::executor::unit_content::contents_view(units@) =~= seq![content@]);
                        Some(Ok(Outcome::Select(units)))
                    },
                }
            },
        }
    }

    /// Reverts the unit under the grouping and the key to its state at `height`, committed or
    /// inside a live transaction.
    pub fn revert_one(
        &mut self,
        grouping: &GroupingLabel,
        key: &UnitKey,
        height: &ChainHeight,
        transaction_id: Option<TransactionId>,
    ) -> (result: Result<Outcome, ExecutorError>)
        requires
            old(self).wf(),
        ensures
            final(self).wf(),
            ({
                let (s, r) = spec_revert_one(old(self)@, spec_kvkey_bytes(grouping@, key@), height@, tid_view(transaction_id));
                &&& final(self)@ == s
                &&& outcome_result(result) == change_outcome(
                    r,
                    if transaction_id is Some { OutcomeView::TransactionalRevertOneSuccess } else { OutcomeView::RevertOneSuccess },
                )
            }),
    {
        let kv_key = KVKey::from_grouping_and_unit_key(grouping, key);
        match self.store_engine.revert_one(&kv_key, height, transaction_id) {
            Err(e) => Err(ExecutorError::KVError(e)),
            Ok(()) => match transaction_id {
                Some(_) => Ok(Outcome::TransactionalRevertOneSuccess),
                None => Ok(Outcome::RevertOneSuccess),
            },
        }
    }

    /// Reverts every unit to its state at `height`.
    pub fn revert_all(&mut self, height: &ChainHeight) -> (result: Result<Outcome, ExecutorError>)
        requires
            old(self).wf(),
        ensures
            final(self).wf(),
            final(self)@ == spec_revert_all(old(self)@, height@).0,
            outcome_result(result) == change_outcome(spec_revert_all(old(self)@, height@).1, OutcomeView::RevertAllSuccess),
    {
        match self.store_engine.revert_all(height) {
            Err(e) => Err(ExecutorError::KVError(e)),
            Ok(()) => Ok(Outcome::RevertAllSuccess),
        }
    }

    /// Removes the unit under the grouping and the key, committed or inside a transaction.
    pub fn remove_one(
        &mut self,
        grouping: &GroupingLabel,
        key: &UnitKey,
        transaction_id: Option<TransactionId>,
    ) -> (result: Result<Outcome, ExecutorError>)
        requires
            old(self).wf(),
        ensures
            final(self).wf(),
            ({
                let (s, r) = spec_remove_one(old(self)@, spec_kvkey_bytes(grouping@, key@), tid_view(transaction_id));
                &&& final(self)@ == s
                &&& outcome_result(result) == change_outcome(
                    r,
                    if transaction_id is Some { OutcomeView::TransactionalRemoveOneSuccess } else { OutcomeView::RemoveOneSuccess },
                )
            }),
    {
        let kv_key = KVKey::from_grouping_and_unit_key(grouping, key);
        match self.store_engine.remove_one(&kv_key, transaction_id) {
            Err(e) => Err(ExecutorError::KVError(e)),
            Ok(()) => match transaction_id {
                Some(_) => Ok(Outcome::TransactionalRemoveOneSuccess),
                None => Ok(Outcome::RemoveOneSuccess),
            },
        }
    }

    /// Removes every unit.
    pub fn remove_all(&mut self) -> (result: Result<Outcome, ExecutorError>)
        requires
            old(self).wf(),
        ensures
            final(self).wf(),
            final(self)@ == spec_remove_all(old(self)@).0,
            outcome_result(result) == change_outcome(spec_remove_all(old(self)@).1, OutcomeView::RemoveAllSuccess),
    {
        match self.store_engine.remove_all() {
            Err(e) => Err(ExecutorError::KVError(e)),
            Ok(()) => Ok(Outcome::RemoveAllSuccess),
        }
    }

    /// Every instruction of the log as the command it records, with its height; `None` where
    /// a key's grouping or a value's unit overruns its bytes.
    pub fn inspect_all_checked(&self) -> (result: Option<Result<Outcome, ExecutorError>>)
        requires
            self.wf(),
        ensures
            checked_outcome(result) == inspect_outcome(spec_commands_of(log_entries(self@.log)), true),
    {
        let entries = match self.store_engine.inspect_all() {
            Ok(entries) => entries,
            Err(e) => {
                assert(false);
                return Some(Err(ExecutorError::KVError(e)));
            },
        };
        assert(entries@.map_values(|e: (Instruction, ChainHeight)| (e.0@, e.1@)) =~= log_entries(self@.log));
        match commands_of(entries) {
            None => None,
            Some(Err(e)) => Some(Err(e)),
            Some(Ok(commands)) => Some(Ok(Outcome::InspectAll(commands))),
        }
    }

    /// The history of the unit under the grouping and the key, as commands with their
    /// heights; `None` where a key's grouping or a value's unit overruns its bytes.
    pub fn inspect_one_checked(&self, grouping: &GroupingLabel, key: &UnitKey) -> (result: Option<Result<Outcome, ExecutorError>>)
        requires
            self.wf(),
        ensures
            checked_outcome(result) == inspect_outcome(
                spec_commands_of(spec_history(self@.log, spec_kvkey_bytes(grouping@, key@), self@.log.len())),
                false,
            ),
    {
        let kv_key = KVKey::from_grouping_and_unit_key(grouping, key);
        let entries = match self.store_engine.inspect_one(&kv_key) {
            Ok(entries) => entries,
            Err(e) => {
                assert(false);
                return Some(Err(ExecutorError::KVError(e)));
            },
        };
        match commands_of(entries) {
            None => None,
            Some(Err(e)) => Some(Err(e)),
            Some(Ok(commands)) => Some(Ok(Outcome::InspectOne(commands))),
        }
    }

    /// Starts a transaction and answers its id.
    pub fn start_transaction(&mut self) -> (result: Result<Outcome, ExecutorError>)
        requires
            old(self).wf(),
        ensures
            final(self).wf(),
            final(self)@ == spec_start_transaction(old(self)@).0,
            match spec_start_transaction(old(self)@).1 {
                Ok(t) => outcome_result(result) == Ok::<OutcomeView, ExecutorError>(OutcomeView::CreateTransaction(t)),
                Err(e) => outcome_result(result) == Err::<OutcomeView, ExecutorError>(ExecutorError::KVError(e)),
            },
    {
        match self.store_engine.start_transaction() {
            Err(e) => Err(ExecutorError::KVError(e)),
            Ok(transaction_id) => Ok(Outcome::CreateTransaction(transaction_id)),
        }
    }

    /// Commits a live transaction.
    pub fn commit_transaction(&mut self, transaction_id: TransactionId) -> (result: Result<Outcome, ExecutorError>)
        requires
            old(self).wf(),
        ensures
            final(self).wf(),
            final(self)@ == spec_commit(old(self)@, transaction_id@).0,
            outcome_result(result) == change_outcome(spec_commit(old(self)@, transaction_id@).1, OutcomeView::TransactionCommitSuccess),
    {
        match self.store_engine.commit_transaction(transaction_id) {
            Err(e) => Err(ExecutorError::KVError(e)),
            Ok(()) => Ok(Outcome::TransactionCommitSuccess),
        }
    }

    /// Aborts a live transaction.
    pub fn abort_transaction(&mut self, transaction_id: TransactionId) -> (result: Result<Outcome, ExecutorError>)
        requires
            old(self).wf(),
        ensures
            final(self).wf(),
            final(self)@ == spec_abort(old(self)@, transaction_id@).0,
            outcome_result(result) == change_outcome(spec_abort(old(self)@, transaction_id@).1, OutcomeView::TransactionAbortSuccess),
    {
        match self.store_engine.abort_transaction(&transaction_id) {
            Err(e) => Err(ExecutorError::KVError(e)),
            Ok(()) => Ok(Outcome::TransactionAbortSuccess),
        }
    }
}

/// A current entry of the store as the contracts see it: the key and the value it reads.
pub open spec fn entry_of(v: StoreView, k: Seq<u8>) -> Result<Option<(Seq<u8>, Seq<u8>)>, KVError> {
    spec_current_entry(v.log, v.snapshot, k)
}

/// What a scan makes of a current entry: `Some(Some(u))` where the key is in grouping `target`
/// and the value reads as a unit `u` that satisfies `pred`, if there is one; `Some(None)` where
/// the entry is passed over; `None` where the key's grouping or the value's unit overruns its
/// bytes.
#[verifier::opaque]
pub open spec fn spec_scan_entry(e: (Seq<u8>, Seq<u8>), target: Seq<u8>, pred: Option<PredicateView>) -> Option<Option<ContentView>> {
    match KVKey::spec_parse(e.0) {
        None => None,
        Some(Err(_)) => Some(None),
        Some(Ok((g, _))) => if g != target {
            Some(None)
        } else {
            match content_part(e.1) {
                None => None,
                Some(Err(_)) => Some(None),
                Some(Ok((u, _))) => match pred {
                    None => Some(Some(u)),
                    Some(p) => if spec_check(p, u) {
                        Some(Some(u))
                    } else {
                        Some(None)
                    },
                },
            }
        },
    }
}

/// Whether every current entry reads, and none overruns when scanned.
pub open spec fn scan_ok(v: StoreView, target: Seq<u8>, pred: Option<PredicateView>) -> bool {
    forall|k: Seq<u8>| #[trigger] v.snapshot.contains_key(k) ==> (entry_of(v, k) is Ok && (entry_of(v, k) matches Ok(Some(e))
        ==> spec_scan_entry(e, target, pred) is Some))
}

/// Whether the scan selects unit `u` from the current entry of key `k`.
pub open spec fn selects(v: StoreView, target: Seq<u8>, pred: Option<PredicateView>, k: Seq<u8>, u: ContentView) -> bool {
    v.snapshot.contains_key(k) && (entry_of(v, k) matches Ok(Some(e)) && spec_scan_entry(e, target, pred) == Some(Some(u)))
}

/// Whether the scan selects a unit from the current entry of key `k`.
pub open spec fn selects_some(v: StoreView, target: Seq<u8>, pred: Option<PredicateView>, k: Seq<u8>) -> bool {
    v.snapshot.contains_key(k) && (entry_of(v, k) matches Ok(Some(e)) && (spec_scan_entry(e, target, pred) matches Some(Some(_))))
}

/// Whether `us` lists the selected units, one for each key whose entry is selected: `ks` are
/// those keys, each once, in the same order.
pub open spec fn scan_listing(v: StoreView, target: Seq<u8>, pred: Option<PredicateView>, us: Seq<ContentView>, ks: Seq<Seq<u8>>) -> bool {
    &&& ks.no_duplicates()
    &&& ks.len() == us.len()
    &&& forall|a: int| 0 <= a < ks.len() ==> #[trigger] selects(v, target, pred, ks[a], us[a])
    &&& forall|k: Seq<u8>| #[trigger] selects_some(v, target, pred, k) ==> ks.contains(k)
}

/// Whether `us` are the units that a scan selects: one for each selected entry, in some order.
pub open spec fn scan_result(v: StoreView, target: Seq<u8>, pred: Option<PredicateView>, us: Seq<ContentView>) -> bool {
    exists|ks: Seq<Seq<u8>>| #[trigger] scan_listing(v, target, pred, us, ks)
}

/// Whether a scan's result is as its contract says.
pub open spec fn scan_contract(v: StoreView, target: Seq<u8>, pred: Option<PredicateView>, r: Option<Result<OutcomeView, ExecutorError>>) -> bool {
    &&& match r {
        None => (forall|k: Seq<u8>| #[trigger] v.snapshot.contains_key(k) ==> entry_of(v, k) is Ok) && exists|k: Seq<u8>|
            #[trigger] v.snapshot.contains_key(k) && (entry_of(v, k) matches Ok(Some(e)) && spec_scan_entry(e, target, pred) is None),
        Some(Err(ExecutorError::KVError(e))) => exists|k: Seq<u8>| #[trigger] v.snapshot.contains_key(k) && entry_of(v, k) == Err::<Option<(Seq<u8>, Seq<u8>)>, KVError>(e),
        Some(Ok(OutcomeView::Select(us))) => scan_ok(v, target, pred) && scan_result(v, target, pred, us),
        _ => false,
    }
    &&& scan_ok(v, target, pred) ==> r matches Some(Ok(_))
}

pub open spec fn optional_predicate_view(p: Option<&Predicate>) -> Option<PredicateView> {
    match p {
        Some(p) => Some(p@),
        None => None,
    }
}

/// Scans one entry; see `spec_scan_entry`.
fn scan_entry(key: &KVKey, value: &KVValue, target: &GroupingLabel, predicate: Option<&Predicate>) -> (result: Option<Option<UnitContent>>)
    ensures
        match result {
            None => spec_scan_entry((key@, value@), target@, optional_predicate_view(predicate)) is None,
            Some(None) => spec_scan_entry((key@, value@), target@, optional_predicate_view(predicate)) == Some(None::<ContentView>),
            Some(Some(u)) => spec_scan_entry((key@, value@), target@, optional_predicate_view(predicate)) == Some(Some(u@)),
        },
{
    proof {
        reveal(spec_scan_entry);
    }
    let grouping = match KVKey::parse_checked(key.as_bytes()) {
        None => {
            return None;
        },
        Some(Err(_)) => {
            return Some(None);
        },
        Some(Ok((grouping, _))) => grouping,
    };
    if !bytes_eq(grouping.as_bytes(), target.as_bytes()) {
        return Some(None);
    }
    proof {
        reveal(content_part);
    }
    match UnitContent::parse_checked(value.as_bytes()) {
        None => None,
        Some(Err(_)) => Some(None),
        Some(Ok((content, _))) => match predicate {
            None => Some(Some(content)),
            Some(p) => {
                if p.check(&content) {
                    Some(Some(content))
                } else {
                    Some(None)
                }
            },
        },
    }
}

/// The entries that list the current entries each read from a current key, and every current
/// key's entry is among them.
proof fn lemma_listed_entries(v: StoreView, es: Seq<(Seq<u8>, Seq<u8>)>, ks: Seq<Seq<u8>>)
    requires
        entries_listed(v.log, v.snapshot, es, ks),
    ensures
        forall|j: int| 0 <= j < es.len() ==> #[trigger] is_current(v, es[j]),
        forall|k: Seq<u8>| #[trigger] v.snapshot.contains_key(k) ==> (entry_of(v, k) matches Ok(Some(e)) ==> es.contains(e)),
{
    assert forall|j: int| 0 <= j < es.len() implies #[trigger] is_current(v, es[j]) by {
        assert(v.snapshot.contains_key(ks[j]));
    }
    assert forall|k: Seq<u8>| #[trigger] v.snapshot.contains_key(k) implies (entry_of(v, k) matches Ok(Some(e)) ==> es.contains(e)) by {
        if let Ok(Some(e)) = entry_of(v, k) {
            assert(ks.contains(k));
            let a = choose|a: int| 0 <= a < ks.len() && ks[a] == k;
            assert(v.snapshot.contains_key(ks[a]));
            assert(es[a] == e);
        }
    }
}

/// Whether `e` is the entry that some current key reads.
pub open spec fn is_current(v: StoreView, e: (Seq<u8>, Seq<u8>)) -> bool {
    exists|k: Seq<u8>| #[trigger] v.snapshot.contains_key(k) && entry_of(v, k) == Ok::<Option<(Seq<u8>, Seq<u8>)>, KVError>(Some(e))
}

/// Whether the first `i` entries were scanned without overrunning.
pub open spec fn scanned_ok(es: Seq<(Seq<u8>, Seq<u8>)>, i: int, target: Seq<u8>, pred: Option<PredicateView>) -> bool {
    forall|j: int| 0 <= j < i ==> (#[trigger] spec_scan_entry(es[j], target, pred)) is Some
}

impl Executor {
    /// The units of grouping `target` among the current entries, those that satisfy
    /// `predicate` where there is one; see `scan_contract`.
    #[verifier::rlimit(40)]
    fn scan(&self, target: &GroupingLabel, predicate: Option<&Predicate>) -> (result: Option<Result<Outcome, ExecutorError>>)
        requires
            self.wf(),
        ensures
            scan_contract(self@, target@, optional_predicate_view(predicate), checked_outcome(result)),
    {
        let ghost v = self@;
        let ghost pred = optional_predicate_view(predicate);
        let entries = match self.store_engine.get_all_current() {
            Err(e) => {
                return Some(Err(ExecutorError::KVError(e)));
            },
            Ok(entries) => entries,
        };
        let ghost es = entries_view(entries@);
        let ghost ks = choose|ks: Seq<Seq<u8>>| #[trigger] entries_listed(v.log, v.snapshot, es, ks);
        proof {
            lemma_listed_entries(v, es, ks);
        }
        let mut result: Vec<UnitContent> = Vec::new();
        let ghost mut sel: Seq<ContentView> = Seq::empty();
        let ghost mut sks: Seq<Seq<u8>> = Seq::empty();
        let mut i: usize = 0;
        assert(crate::storage::executor::unit_content::contents_view(result@) =~= sel);
        while i < entries.len()
            invariant
                i <= entries@.len(),
                es == entries_view(entries@),
                pred == optional_predicate_view(predicate),
                v == self@,
                entries_listed(v.log, v.snapshot, es, ks),
                forall|j: int| 0 <= j < es.len() ==> #[trigger] is_current(v, es[j]),
                forall|k: Seq<u8>| #[trigger] v.snapshot.contains_key(k) ==> entry_of(v, k) is Ok,
                sel == crate::storage::executor::unit_content::contents_view(result@),
                scanned_ok(es, i as int, target@, pred),
                sks.len() == sel.len(),
                sks.no_duplicates(),
                forall|a: int| 0 <= a < sks.len() ==> exists|j: int| 0 <= j < i && #[trigger] sks[a] == ks[j],
                forall|a: int| 0 <= a < sks.len() ==> #[trigger] selects(v, target@, pred, sks[a], sel[a]),
                forall|j: int| 0 <= j < i ==> ((#[trigger] spec_scan_entry(es[j], target@, pred)) matches Some(Some(_)) ==> sks.contains(ks[j])),
            decreases entries@.len() - i,
        {
            let (key, value) = &entries[i];
            assert(es[i as int] == (key@, value@));
            match scan_entry(key, value, target, predicate) {
                None => {
                    assert(is_current(v, es[i as int]));
                    return None;
                },
                Some(None) => {},
                Some(Some(content)) => {
                    let ghost old_result = result@;
                    let ghost old_sel = sel;
                    let ghost old_sks = sks;
                    result.push(content);
                    proof {
                        sel = sel.push(content@);
                        sks = sks.push(ks[i as int]);
                        assert(result@.drop_last() =~= old_result);
                        assert(v.snapshot.contains_key(ks[i as int]));
                        assert(selects(v, target@, pred, ks[i as int], content@));
                        assert(!old_sks.contains(ks[i as int])) by {
                            if old_sks.contains(ks[i as int]) {
                                let a = choose|a: int| 0 <= a < old_sks.len() && old_sks[a] == ks[i as int];
                                let j = choose|j: int| 0 <= j < i && #[trigger] old_sks[a] == ks[j];
                                assert(ks[j] != ks[i as int]);
                            }
                        }
                        assert forall|a: int, b: int| 0 <= a < sks.len() && 0 <= b < sks.len() && a != b implies sks[a] != sks[b] by {
                            if a < old_sks.len() && b < old_sks.len() {
                                assert(old_sks[a] != old_sks[b]);
                            } else if a < old_sks.len() {
                                assert(old_sks.contains(old_sks[a]));
                            } else {
                                assert(old_sks.contains(old_sks[b]));
                            }
                        }
                        assert forall|a: int| 0 <= a < sks.len() implies exists|j: int| 0 <= j < i + 1 && #[trigger] sks[a] == ks[j] by {
                            if a < old_sks.len() {
                                assert(sks[a] == old_sks[a]);
                            } else {
                                assert(sks[a] == ks[i as int]);
                            }
                        }
                        assert forall|a: int| 0 <= a < sks.len() implies #[trigger] selects(v, target@, pred, sks[a], sel[a]) by {
                            if a < old_sks.len() {
                                assert(sks[a] == old_sks[a] && sel[a] == old_sel[a]);
                            }
                        }
                        assert forall|j: int| 0 <= j < i + 1 implies ((#[trigger] spec_scan_entry(es[j], target@, pred)) matches Some(Some(_)) ==> sks.contains(ks[j])) by {
                            if j < i {
                                if spec_scan_entry(es[j], target@, pred) matches Some(Some(_)) {
                                    let a = choose|a: int| 0 <= a < old_sks.len() && old_sks[a] == ks[j];
                                    assert(sks[a] == ks[j]);
                                }
                            } else {
                                assert(sks[sks.len() - 1] == ks[j]);
                            }
                        }
                    }
                },
            }
            i = i + 1;
        }
        proof {
            assert forall|k: Seq<u8>| #[trigger] v.snapshot.contains_key(k) implies (entry_of(v, k) is Ok && (entry_of(v, k) matches Ok(Some(e))
                ==> spec_scan_entry(e, target@, pred) is Some)) by {
                if let Ok(Some(e)) = entry_of(v, k) {
                    let j = choose|j: int| 0 <= j < es.len() && es[j] == e;
                    assert(spec_scan_entry(es[j], target@, pred) is Some);
                }
            }
            assert(scan_ok(v, target@, pred));
            assert forall|k: Seq<u8>| #[trigger] selects_some(v, target@, pred, k) implies sks.contains(k) by {
                assert(ks.contains(k));
                let a = choose|a: int| 0 <= a < ks.len() && ks[a] == k;
                assert(v.snapshot.contains_key(ks[a]));
                assert(spec_scan_entry(es[a], target@, pred) matches Some(Some(_)));
            }
            assert(scan_listing(v, target@, pred, sel, sks));
            assert(scan_result(v, target@, pred, sel));
        }
        let outcome = Outcome::Select(result);
        assert(outcome@ == OutcomeView::Select(sel));
        Some(Ok(outcome))
    }
}

/// The grouping at the start of a key; `None` where its width overruns the key.
pub open spec fn spec_key_grouping(key: Seq<u8>) -> Option<Result<Seq<u8>, KVKeyError>> {
    match KVKey::spec_parse(key) {
        None => None,
        Some(Err(e)) => Some(Err(e)),
        Some(Ok((g, _))) => Some(Ok(g)),
    }
}

/// Whether every current entry reads and the grouping of each key reads.
pub open spec fn groupings_ok(v: StoreView) -> bool {
    forall|k: Seq<u8>| #[trigger] v.snapshot.contains_key(k) ==> (entry_of(v, k) is Ok && (entry_of(v, k) matches Ok(Some(e))
        ==> spec_key_grouping(e.0) matches Some(Ok(_))))
}

/// Whether `g` is the grouping of the key of some current entry.
pub open spec fn grouping_of_store(v: StoreView, g: Seq<u8>) -> bool {
    exists|k: Seq<u8>| #[trigger] v.snapshot.contains_key(k) && (entry_of(v, k) matches Ok(Some(e))
        && spec_key_grouping(e.0) == Some(Ok::<Seq<u8>, KVKeyError>(g)))
}

/// Whether the grouping of the key of the entry of `k`, if any, is in `gs`.
pub open spec fn grouping_listed(v: StoreView, k: Seq<u8>, gs: Seq<Seq<u8>>) -> bool {
    entry_of(v, k) matches Ok(Some(e)) ==> (spec_key_grouping(e.0) matches Some(Ok(g)) ==> gs.contains(g))
}

/// Whether a listing of the groupings is as its contract says.
pub open spec fn groupings_contract(v: StoreView, r: Option<Result<OutcomeView, ExecutorError>>) -> bool {
    &&& match r {
        None => (forall|k: Seq<u8>| #[trigger] v.snapshot.contains_key(k) ==> entry_of(v, k) is Ok) && exists|k: Seq<u8>|
            #[trigger] v.snapshot.contains_key(k) && (entry_of(v, k) matches Ok(Some(e)) && spec_key_grouping(e.0) is None),
        Some(Err(ExecutorError::KVError(e))) => exists|k: Seq<u8>| #[trigger] v.snapshot.contains_key(k) && entry_of(v, k) == Err::<Option<(Seq<u8>, Seq<u8>)>, KVError>(e),
        Some(Err(ExecutorError::KVKeyError(ke))) => (forall|k: Seq<u8>| #[trigger] v.snapshot.contains_key(k) ==> entry_of(v, k) is Ok) && exists|k: Seq<u8>|
            #[trigger] v.snapshot.contains_key(k) && (entry_of(v, k) matches Ok(Some(e)) && spec_key_grouping(e.0) == Some(Err::<Seq<u8>, KVKeyError>(ke))),
        Some(Ok(OutcomeView::GetAllGroupingsSuccess(gs))) => {
            &&& groupings_ok(v)
            &&& gs.no_duplicates()
            &&& forall|i: int| 0 <= i < gs.len() ==> #[trigger] grouping_of_store(v, gs[i])
            &&& forall|k: Seq<u8>| #[trigger] v.snapshot.contains_key(k) ==> grouping_listed(v, k, gs)
        },
        _ => false,
    }
    &&& groupings_ok(v) ==> r matches Some(Ok(_))
}

/// Whether the label is among the labels.
fn contains_label(labels: &[GroupingLabel], label: &GroupingLabel) -> (result: bool)
    ensures
        result == crate::storage::executor::outcome::groupings_view(labels@).contains(label@),
{
    let ghost gv = crate::storage::executor::outcome::groupings_view(labels@);
    let mut i: usize = 0;
    while i < labels.len()
        invariant
            i <= labels@.len(),
            gv == crate::storage::executor::outcome::groupings_view(labels@),
            forall|j: int| 0 <= j < i ==> gv[j] != label@,
        decreases labels@.len() - i,
    {
        if bytes_eq(labels[i].as_bytes(), label.as_bytes()) {
            assert(gv[i as int] == label@);
            return true;
        }
        i = i + 1;
    }
    false
}

impl Executor {
    /// The groupings of the keys of the current entries; see `groupings_contract`.
    #[verifier::rlimit(40)]
    fn all_groupings(&self) -> (result: Option<Result<Outcome, ExecutorError>>)
        requires
            self.wf(),
        ensures
            groupings_contract(self@, checked_outcome(result)),
    {
        let ghost v = self@;
        let entries = match self.store_engine.get_all_current() {
            Err(e) => {
                return Some(Err(ExecutorError::KVError(e)));
            },
            Ok(entries) => entries,
        };
        let ghost es = entries_view(entries@);
        let ghost ks = choose|ks: Seq<Seq<u8>>| #[trigger] entries_listed(v.log, v.snapshot, es, ks);
        proof {
            lemma_listed_entries(v, es, ks);
        }
        let mut result: Vec<GroupingLabel> = Vec::new();
        let ghost mut gs: Seq<Seq<u8>> = Seq::empty();
        let mut i: usize = 0;
        assert(crate::storage::executor::outcome::groupings_view(result@) =~= gs);
        while i < entries.len()
            invariant
                i <= entries@.len(),
                es == entries_view(entries@),
                v == self@,
                forall|j: int| 0 <= j < es.len() ==> #[trigger] is_current(v, es[j]),
                forall|k: Seq<u8>| #[trigger] v.snapshot.contains_key(k) ==> entry_of(v, k) is Ok,
                gs == crate::storage::executor::outcome::groupings_view(result@),
                gs.no_duplicates(),
                forall|j: int| 0 <= j < i ==> (#[trigger] spec_key_grouping(es[j].0) matches Some(Ok(g)) && gs.contains(g)),
                forall|a: int| 0 <= a < gs.len() ==> exists|j: int| 0 <= j < i && #[trigger] spec_key_grouping(es[j].0) == Some(Ok::<Seq<u8>, KVKeyError>(#[trigger] gs[a])),
            decreases entries@.len() - i,
        {
            let (key, _value) = &entries[i];
            assert(es[i as int].0 == key@);
            match KVKey::parse_checked(key.as_bytes()) {
                None => {
                    assert(is_current(v, es[i as int]));
                    return None;
                },
                Some(Err(e)) => {
                    assert(is_current(v, es[i as int]));
                    return Some(Err(ExecutorError::KVKeyError(e)));
                },
                Some(Ok((grouping, _))) => {
                    if !contains_label(result.as_slice(), &grouping) {
                        let ghost old_gs = gs;
                        result.push(grouping);
                        proof {
                            gs = gs.push(grouping@);
                            assert(crate::storage::executor::outcome::groupings_view(result@) =~= gs);
                            assert forall|j: int| 0 <= j < i + 1 implies (#[trigger] spec_key_grouping(es[j].0) matches Some(Ok(g)) && gs.contains(g)) by {
                                if j < i {
                                    if let Some(Ok(g)) = spec_key_grouping(es[j].0) {
                                        let a = choose|a: int| 0 <= a < old_gs.len() && old_gs[a] == g;
                                        assert(gs[a] == g);
                                    }
                                } else {
                                    assert(gs[gs.len() - 1] == grouping@);
                                }
                            }
                            assert forall|a: int| 0 <= a < gs.len() implies exists|j: int| 0 <= j < i + 1 && #[trigger] spec_key_grouping(es[j].0) == Some(Ok::<Seq<u8>, KVKeyError>(#[trigger] gs[a])) by {
                                if a < old_gs.len() {
                                    assert(gs[a] == old_gs[a]);
                                } else {
                                    assert(spec_key_grouping(es[i as int].0) == Some(Ok::<Seq<u8>, KVKeyError>(gs[a])));
                                }
                            }
                        }
                    } else {
                        proof {
                            assert(gs.contains(grouping@));
                        }
                    }
                },
            }
            i = i + 1;
        }
        proof {
            assert forall|k: Seq<u8>| #[trigger] v.snapshot.contains_key(k) implies (entry_of(v, k) is Ok && (entry_of(v, k) matches Ok(Some(e))
                ==> spec_key_grouping(e.0) matches Some(Ok(_)))) by {
                if let Ok(Some(e)) = entry_of(v, k) {
                    let j = choose|j: int| 0 <= j < es.len() && es[j] == e;
                    assert(spec_key_grouping(es[j].0) matches Some(Ok(_)));
                }
            }
            assert(groupings_ok(v));
            assert forall|a: int| 0 <= a < gs.len() implies #[trigger] grouping_of_store(v, gs[a]) by {
                let j = choose|j: int| 0 <= j < i && #[trigger] spec_key_grouping(es[j].0) == Some(Ok::<Seq<u8>, KVKeyError>(gs[a]));
                assert(is_current(v, es[j]));
            }
            assert forall|k: Seq<u8>| #[trigger] v.snapshot.contains_key(k) implies grouping_listed(v, k, gs) by {
                if let Ok(Some(e)) = entry_of(v, k) {
                    let j = choose|j: int| 0 <= j < es.len() && es[j] == e;
                    assert(spec_key_grouping(es[j].0) matches Some(Ok(_)));
                }
            }
        }
        let outcome = Outcome::GetAllGroupingsSuccess(result);
        assert(outcome@ == OutcomeView::GetAllGroupingsSuccess(gs));
        Some(Ok(outcome))
    }
}

/// What a select answers, by its condition.
pub open spec fn select_contract(v: StoreView, c: ConditionView, r: Option<Result<OutcomeView, ExecutorError>>) -> bool {
    match c {
        ConditionView::Key(g, k, t) => r == spec_select_key(v, g, k, t),
        ConditionView::UnconditionalMatch(g) => scan_contract(v, g, None, r),
        ConditionView::Predicate(g, p) => scan_contract(v, g, Some(p), r),
        ConditionView::AllGrouping => groupings_contract(v, r),
    }
}

/// Whether a select reads every stored byte string it needs without overrunning it.
pub open spec fn select_reads(v: StoreView, c: ConditionView) -> bool {
    match c {
        ConditionView::Key(g, k, t) => spec_select_key(v, g, k, t) is Some,
        ConditionView::UnconditionalMatch(g) => forall|k: Seq<u8>| #[trigger] v.snapshot.contains_key(k) ==> (entry_of(v, k) matches Ok(Some(e))
            ==> spec_scan_entry(e, g, None) is Some),
        ConditionView::Predicate(g, p) => forall|k: Seq<u8>| #[trigger] v.snapshot.contains_key(k) ==> (entry_of(v, k) matches Ok(Some(e))
            ==> spec_scan_entry(e, g, Some(p)) is Some),
        ConditionView::AllGrouping => forall|k: Seq<u8>| #[trigger] v.snapshot.contains_key(k) ==> (entry_of(v, k) matches Ok(Some(e))
            ==> spec_key_grouping(e.0) is Some),
    }
}

/// The test that a filter makes of a unit.
pub open spec fn satisfies(f: FilterView) -> spec_fn(ContentView) -> bool {
    |u: ContentView| spec_filter_satisfied(u, f)
}

/// Whether a filtered select's result is as its contract says: what an unconditional select
/// of the grouping gives, with its units narrowed, in order, to those that satisfy the filter.
pub open spec fn filtered_contract(v: StoreView, target: Seq<u8>, f: FilterView, r: Option<Result<OutcomeView, ExecutorError>>) -> bool {
    match r {
        Some(Ok(OutcomeView::Select(kept))) => exists|all: Seq<ContentView>|
            #[trigger] scan_contract(v, target, None, Some(Ok(OutcomeView::Select(all))))
                && kept == all.filter(satisfies(f)),
        _ => scan_contract(v, target, None, r),
    }
}

impl Executor {
    /// Answers a select: by key, the unit stored there; otherwise the units of a grouping
    /// (those that satisfy a predicate, where there is one), or every grouping; `None` where a
    /// stored byte string overruns. See `select_contract`.
    pub fn get_checked(&self, condition: &SelectCondition) -> (result: Option<Result<Outcome, ExecutorError>>)
        requires
            self.wf(),
        ensures
            select_contract(self@, condition@, checked_outcome(result)),
    {
        match condition {
            SelectCondition::Key(grouping, key, transaction_id) => self.select_key(grouping, key, *transaction_id),
            SelectCondition::UnconditionalMatch(grouping) => self.scan(grouping, None),
            SelectCondition::Predicate(grouping, predicate) => self.scan(grouping, Some(predicate)),
            SelectCondition::AllGrouping => self.all_groupings(),
        }
    }

    /// Answers a select by a filter: the units of the grouping, as an unconditional select
    /// gives them, that satisfy the filter, in the same order; `None` where a stored byte
    /// string overruns. See `filtered_contract`.
    pub fn get_filtered_checked(&self, grouping: &GroupingLabel, filter: &Filter) -> (result: Option<Result<Outcome, ExecutorError>>)
        requires
            self.wf(),
        ensures
            filtered_contract(self@, grouping@, filter@, checked_outcome(result)),
    {
        match self.scan(grouping, None) {
            None => None,
            Some(Err(e)) => Some(Err(e)),
            Some(Ok(Outcome::Select(all))) => {
                let ghost all_view = contents_view(all@);
                proof {
                    lemma_contents_view_all(all@);
                }
                let mut kept: Vec<UnitContent> = Vec::new();
                let mut i: usize = 0;
                while i < all.len()
                    invariant
                        i <= all@.len(),
                        all_view == contents_view(all@),
                        all_view.len() == all@.len(),
                        forall|k: int| 0 <= k < all@.len() ==> #[trigger] all_view[k] == all@[k]@,
                        contents_view(kept@) == all_view.take(i as int).filter(satisfies(filter@)),
                    decreases all@.len() - i,
                {
                    let ghost before = kept@;
                    proof {
                        reveal(Seq::filter);
                        assert(all_view.take(i + 1).drop_last() =~= all_view.take(i as int));
                        assert(all_view.take(i + 1).last() == all@[i as int]@);
                    }
                    if content_satisfied_filter(&all[i], filter) {
                        kept.push(all[i].duplicate());
                        proof {
                            lemma_contents_view_all(kept@);
                            lemma_contents_view_all(before);
                            assert(contents_view(kept@) =~= contents_view(before).push(all@[i as int]@));
                        }
                    }
                    i = i + 1;
                }
                proof {
                    assert(all_view.take(all@.len() as int) =~= all_view);
                }
                Some(Ok(Outcome::Select(kept)))
            },
            Some(Ok(_)) => {
                assert(false);
                None
            },
        }
    }

    /// Answers a select; see `get_checked`.
    pub fn get(&self, condition: &SelectCondition) -> (result: Result<Outcome, ExecutorError>)
        requires
            self.wf(),
            select_reads(self@, condition@),
        ensures
            select_contract(self@, condition@, Some(outcome_result(result))),
    {
        match self.get_checked(condition) {
            Some(r) => r,
            None => {
                assert(false);
                Err(ExecutorError::UnexpectedOutcome)
            },
        }
    }

    /// Every instruction of the log as the command it records, with its height.
    pub fn inspect_all(&self) -> (result: Result<Outcome, ExecutorError>)
        requires
            self.wf(),
            spec_commands_of(log_entries(self@.log)) is Some,
        ensures
            Some(outcome_result(result)) == inspect_outcome(spec_commands_of(log_entries(self@.log)), true),
    {
        match self.inspect_all_checked() {
            Some(r) => r,
            None => {
                assert(false);
                Err(ExecutorError::UnexpectedOutcome)
            },
        }
    }

    /// The history of the unit under the grouping and the key, as commands with their
    /// heights.
    pub fn inspect_one(&self, grouping: &GroupingLabel, key: &UnitKey) -> (result: Result<Outcome, ExecutorError>)
        requires
            self.wf(),
            spec_commands_of(spec_history(self@.log, spec_kvkey_bytes(grouping@, key@), self@.log.len())) is Some,
        ensures
            Some(outcome_result(result)) == inspect_outcome(
                spec_commands_of(spec_history(self@.log, spec_kvkey_bytes(grouping@, key@), self@.log.len())),
                false,
            ),
    {
        match self.inspect_one_checked(grouping, key) {
            Some(r) => r,
            None => {
                assert(false);
                Err(ExecutorError::UnexpectedOutcome)
            },
        }
    }
}

/// The keys that a removal of groupings visits, in turn: each whose grouping is among `gs` is
/// removed inside transaction `t`; a key whose grouping does not read stops the removal with
/// its error; `None` where a key's grouping overruns the key.
pub open spec fn spec_remove_matching(v: StoreView, gs: Seq<Seq<u8>>, keys: Seq<Seq<u8>>, t: u64) -> Option<(StoreView, Result<(), ExecutorError>)>
    decreases keys.len(),
{
    if keys.len() == 0 {
        Some((v, Ok(())))
    } else {
        match spec_remove_matching(v, gs, keys.drop_last(), t) {
            None => None,
            Some((v1, Err(e))) => Some((v1, Err(e))),
            Some((v1, Ok(()))) => match spec_key_grouping(keys.last()) {
                None => None,
                Some(Err(ke)) => Some((v1, Err(ExecutorError::KVKeyError(ke)))),
                Some(Ok(g)) => if gs.contains(g) {
                    let (v2, r2) = spec_remove_one(v1, keys.last(), Some(t));
                    Some((v2, match r2 {
                        Ok(()) => Ok(()),
                        Err(e) => Err(ExecutorError::KVError(e)),
                    }))
                } else {
                    Some((v1, Ok(())))
                },
            },
        }
    }
}

/// What a removal of groupings does: inside a new transaction it removes every current key
/// whose grouping is among `gs`, visiting the keys in some order, then commits.
pub open spec fn remove_groupings_contract(v: StoreView, gs: Seq<Seq<u8>>, final_v: StoreView, r: Option<Result<OutcomeView, ExecutorError>>) -> bool {
    let (v1, r1) = spec_start_transaction(v);
    match r1 {
        Err(e) => final_v == v1 && r == Some(Err::<OutcomeView, ExecutorError>(ExecutorError::KVError(e))),
        Ok(t) => exists|keys: Seq<KVKey>| #[trigger] crate::storage::kv::lists_keys(v1.snapshot, keys) && match spec_remove_matching(
            v1,
            gs,
            keys.map_values(|k: KVKey| k@),
            t,
        ) {
            None => r is None,
            Some((v2, Err(e))) => final_v == v2 && r == Some(Err::<OutcomeView, ExecutorError>(e)),
            Some((v2, Ok(()))) => final_v == spec_commit(v2, t).0 && r == Some(change_outcome(spec_commit(v2, t).1, OutcomeView::DeleteGroupingSuccess)),
        },
    }
}

/// A removal that stopped stays stopped as more keys follow.
proof fn lemma_remove_matching_stays(v: StoreView, gs: Seq<Seq<u8>>, keys: Seq<Seq<u8>>, t: u64, j: int)
    requires
        0 < j <= keys.len(),
        !(spec_remove_matching(v, gs, keys.take(j), t) matches Some((_, Ok(())))),
    ensures
        spec_remove_matching(v, gs, keys, t) == spec_remove_matching(v, gs, keys.take(j), t),
    decreases keys.len() - j,
{
    if j == keys.len() {
        assert(keys.take(j) =~= keys);
    } else {
        assert(keys.take(j + 1).drop_last() =~= keys.take(j));
        lemma_remove_matching_stays(v, gs, keys, t, j + 1);
    }
}

impl Executor {
    /// Removes, inside a transaction that it then commits, every unit whose grouping is among
    /// `groupings`; `None` where a key's grouping overruns it. See
    /// `remove_groupings_contract`.
    pub fn remove_groupings_checked(&mut self, groupings: &[GroupingLabel]) -> (result: Option<Result<Outcome, ExecutorError>>)
        requires
            old(self).wf(),
        ensures
            final(self).wf(),
            remove_groupings_contract(old(self)@, crate::storage::executor::outcome::groupings_view(groupings@), final(self)@, checked_outcome(result)),
    {
        let ghost gs = crate::storage::executor::outcome::groupings_view(groupings@);
        let ghost v0 = self@;
        let transaction_id = match self.store_engine.start_transaction() {
            Err(e) => {
                return Some(Err(ExecutorError::KVError(e)));
            },
            Ok(t) => t,
        };
        let ghost v1 = self@;
        let ghost t = transaction_id@;
        let keys = match self.store_engine.get_current_keys() {
            Ok(keys) => keys,
            Err(e) => {
                assert(false);
                return Some(Err(ExecutorError::KVError(e)));
            },
        };
        let ghost kv = keys@.map_values(|k: KVKey| k@);
        assert(crate::storage::kv::lists_keys(v1.snapshot, keys@));
        assert(kv.take(0) =~= Seq::<Seq<u8>>::empty());
        let mut i: usize = 0;
        while i < keys.len()
            invariant
                i <= keys@.len(),
                self.wf(),
                kv == keys@.map_values(|k: KVKey| k@),
                gs == crate::storage::executor::outcome::groupings_view(groupings@),
                t == transaction_id@,
                v0 == old(self)@,
                spec_start_transaction(v0) == (v1, Ok::<u64, KVError>(t)),
                crate::storage::kv::lists_keys(v1.snapshot, keys@),
                spec_remove_matching(v1, gs, kv.take(i as int), t) == Some((self@, Ok::<(), ExecutorError>(()))),
            decreases keys@.len() - i,
        {
            proof {
                assert(kv.take(i + 1).drop_last() =~= kv.take(i as int));
                assert(kv.take(i + 1).last() == keys@[i as int]@);
            }
            match KVKey::parse_checked(keys[i].as_bytes()) {
                None => {
                    proof {
                        if i + 1 < keys@.len() {
                            lemma_remove_matching_stays(v1, gs, kv, t, i + 1);
                        } else {
                            assert(kv.take(i + 1) =~= kv);
                        }
                    }
                    return None;
                },
                Some(Err(e)) => {
                    proof {
                        if i + 1 < keys@.len() {
                            lemma_remove_matching_stays(v1, gs, kv, t, i + 1);
                        } else {
                            assert(kv.take(i + 1) =~= kv);
                        }
                    }
                    return Some(Err(ExecutorError::KVKeyError(e)));
                },
                Some(Ok((grouping, _))) => {
                    if contains_label(groupings, &grouping) {
                        match self.store_engine.remove_one(&keys[i], Some(transaction_id)) {
                            Err(e) => {
                                proof {
                                    if i + 1 < keys@.len() {
                                        lemma_remove_matching_stays(v1, gs, kv, t, i + 1);
                                    } else {
                                        assert(kv.take(i + 1) =~= kv);
                                    }
                                }
                                return Some(Err(ExecutorError::KVError(e)));
                            },
                            Ok(()) => {},
                        }
                    }
                },
            }
            i = i + 1;
        }
        assert(kv.take(i as int) =~= kv);
        match self.store_engine.commit_transaction(transaction_id) {
            Err(e) => Some(Err(ExecutorError::KVError(e))),
            Ok(()) => Some(Ok(Outcome::DeleteGroupingSuccess)),
        }
    }
}

/// A removal overruns only at a key whose grouping overruns it.
proof fn lemma_remove_matching_overrun(v: StoreView, gs: Seq<Seq<u8>>, keys: Seq<Seq<u8>>, t: u64)
    requires
        spec_remove_matching(v, gs, keys, t) is None,
    ensures
        exists|i: int| 0 <= i < keys.len() && spec_key_grouping(#[trigger] keys[i]) is None,
    decreases keys.len(),
{
    if keys.len() > 0 {
        if spec_remove_matching(v, gs, keys.drop_last(), t) is None {
            lemma_remove_matching_overrun(v, gs, keys.drop_last(), t);
            let i = choose|i: int| 0 <= i < keys.drop_last().len() && spec_key_grouping(#[trigger] keys.drop_last()[i]) is None;
            assert(keys[i] == keys.drop_last()[i]);
        } else {
            assert(spec_key_grouping(keys[keys.len() - 1]) is None);
        }
    }
}

impl Executor {
    /// Removes, inside a transaction that it then commits, every unit whose grouping is among
    /// `groupings`; see `remove_groupings_checked`.
    pub fn remove_groupings(&mut self, groupings: &[GroupingLabel]) -> (result: Result<Outcome, ExecutorError>)
        requires
            old(self).wf(),
            forall|k: Seq<u8>| #[trigger] spec_start_transaction(old(self)@).0.snapshot.contains_key(k) ==> spec_key_grouping(k) is Some,
        ensures
            final(self).wf(),
            remove_groupings_contract(old(self)@, crate::storage::executor::outcome::groupings_view(groupings@), final(self)@, Some(outcome_result(result))),
    {
        let ghost v0 = self@;
        let r = self.remove_groupings_checked(groupings);
        match r {
            Some(r) => r,
            None => {
                proof {
                    let gs = crate::storage::executor::outcome::groupings_view(groupings@);
                    let (v1, r1) = spec_start_transaction(v0);
                    if let Ok(t) = r1 {
                        let keys = choose|keys: Seq<KVKey>| #[trigger] crate::storage::kv::lists_keys(v1.snapshot, keys) && match spec_remove_matching(
                            v1,
                            gs,
                            keys.map_values(|k: KVKey| k@),
                            t,
                        ) {
                            None => true,
                            Some(_) => false,
                        };
                        let kv = keys.map_values(|k: KVKey| k@);
                        lemma_remove_matching_overrun(v1, gs, kv, t);
                        let i = choose|i: int| 0 <= i < kv.len() && spec_key_grouping(#[trigger] kv[i]) is None;
                        assert(v1.snapshot.contains_key(keys[i]@));
                    }
                }
                assert(false);
                Err(ExecutorError::UnexpectedOutcome)
            },
        }
    }
}

/// Whether a unit is small enough to be written: its record, three times over, fits in the
/// machine's address range.
pub open spec fn content_fits(c: ContentView) -> bool {
    3 * (28 + MAX_KEY_LENGTH + spec_content_bytes(c).len()) < usize::MAX
}

/// A change of the store, written as the request names it, and what it answers.
pub open spec fn changed(step: (StoreView, Result<(), KVError>), success: OutcomeView) -> (StoreView, Option<Result<OutcomeView, ExecutorError>>) {
    (step.0, Some(change_outcome(step.1, success)))
}

/// What carrying out a request on the units of a grouping does: the store after it, and the
/// answer; `None` where a stored byte string overruns or a unit is too large to be written,
/// and the store is then left as it was.
pub open spec fn spec_execute(v: StoreView, g: Seq<u8>, req: RequestView) -> (StoreView, Option<Result<OutcomeView, ExecutorError>>) {
    match req {
        RequestView::Select(k, t) => (v, spec_select_key(v, g, k, t)),
        RequestView::InspectOne(k) => (
            v,
            inspect_outcome(spec_commands_of(spec_history(v.log, spec_kvkey_bytes(g, k), v.log.len())), false),
        ),
        RequestView::InspectAll => (v, inspect_outcome(spec_commands_of(log_entries(v.log)), true)),
        RequestView::Insert(k, c) => if content_fits(c) {
            changed(spec_set(v, spec_kvkey_bytes(g, k), spec_content_bytes(c), None), OutcomeView::InsertSuccess)
        } else {
            (v, None)
        },
        RequestView::RevertOne(k, h) => changed(
            spec_revert_one(v, spec_kvkey_bytes(g, k), h, None),
            OutcomeView::RevertOneSuccess,
        ),
        RequestView::RevertAll(h) => changed(spec_revert_all(v, h), OutcomeView::RevertAllSuccess),
        RequestView::RemoveOne(k) => changed(spec_remove_one(v, spec_kvkey_bytes(g, k), None), OutcomeView::RemoveOneSuccess),
        RequestView::RemoveAll => changed(spec_remove_all(v), OutcomeView::RemoveAllSuccess),
        RequestView::CreateTransaction => (
            spec_start_transaction(v).0,
            Some(
                match spec_start_transaction(v).1 {
                    Ok(t) => Ok(OutcomeView::CreateTransaction(t)),
                    Err(e) => Err(ExecutorError::KVError(e)),
                },
            ),
        ),
        RequestView::TransactionalInsert(k, c, t) => if content_fits(c) {
            changed(
                spec_set(v, spec_kvkey_bytes(g, k), spec_content_bytes(c), Some(t)),
                OutcomeView::TransactionalInsertSuccess,
            )
        } else {
            (v, None)
        },
        RequestView::TransactionalRevertOne(k, h, t) => changed(
            spec_revert_one(v, spec_kvkey_bytes(g, k), h, Some(t)),
            OutcomeView::TransactionalRevertOneSuccess,
        ),
        RequestView::TransactionalRemoveOne(k, t) => changed(
            spec_remove_one(v, spec_kvkey_bytes(g, k), Some(t)),
            OutcomeView::TransactionalRemoveOneSuccess,
        ),
        RequestView::TransactionCommit(t) => changed(spec_commit(v, t), OutcomeView::TransactionCommitSuccess),
        RequestView::TransactionAbort(t) => changed(spec_abort(v, t), OutcomeView::TransactionAbortSuccess),
    }
}

impl Executor {
    /// Whether a unit is small enough to be written; see `content_fits`.
    fn fits(content: &UnitContent) -> (result: bool)
        ensures
            result == content_fits(content@),
    {
        let width = content.marshal().len();
        match width.checked_add(28 + MAX_KEY_LENGTH) {
            None => false,
            Some(w) => match w.checked_mul(3) {
                None => false,
                Some(total) => total < usize::MAX,
            },
        }
    }

    /// Carries out a request on the units of a grouping; see `spec_execute`.
    pub fn execute(&mut self, grouping: &GroupingLabel, request: Request) -> (result: Option<Result<Outcome, ExecutorError>>)
        requires
            old(self).wf(),
        ensures
            final(self).wf(),
            final(self)@ == spec_execute(old(self)@, grouping@, request@).0,
            checked_outcome(result) == spec_execute(old(self)@, grouping@, request@).1,
    {
        match request {
            Request::Select { key, transaction_id } => self.select_key(grouping, &key, transaction_id),
            Request::InspectOne { key } => self.inspect_one_checked(grouping, &key),
            Request::InspectAll => self.inspect_all_checked(),
            Request::Insert { key, content } => if Self::fits(&content) {
                Some(self.set(grouping, &key, &content, None))
            } else {
                None
            },
            Request::RevertOne { key, height } => Some(self.revert_one(grouping, &key, &height, None)),
            Request::RevertAll { height } => Some(self.revert_all(&height)),
            Request::RemoveOne { key } => Some(self.remove_one(grouping, &key, None)),
            Request::RemoveAll => Some(self.remove_all()),
            Request::CreateTransaction => Some(self.start_transaction()),
            Request::TransactionalInsert { key, content, transaction_id } => if Self::fits(&content) {
                Some(self.set(grouping, &key, &content, Some(transaction_id)))
            } else {
                None
            },
            Request::TransactionalRevertOne { key, height, transaction_id } => Some(
                self.revert_one(grouping, &key, &height, Some(transaction_id)),
            ),
            Request::TransactionalRemoveOne { key, transaction_id } => Some(
                self.remove_one(grouping, &key, Some(transaction_id)),
            ),
            Request::TransactionCommit { transaction_id } => Some(self.commit_transaction(transaction_id)),
            Request::TransactionAbort { transaction_id } => Some(self.abort_transaction(transaction_id)),
        }
    }
}

} // verus!
