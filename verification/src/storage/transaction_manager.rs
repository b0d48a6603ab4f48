//! Transaction ids, and the bookkeeping of the transactions that are alive.

use vstd::prelude::*;
use std::collections::HashMap;
use vstd::std_specs::iter::IteratorSpec;
use crate::constants::MAX_TRANSACTION_ID;
use crate::storage::kvkey::KVKey;
use crate::utils::assoc::{
    assoc_map, has_key, keys_distinct, lemma_assoc_at, lemma_assoc_empty, lemma_assoc_push,
    lemma_assoc_remove, lemma_assoc_update,
};
use crate::utils::bytes::bytes_eq;
use crate::utils::varint::{spec_varint_encode, varint_encode};

verus! {

#[derive(Debug, Clone, Copy, PartialEq, Eq, Structural, PartialOrd, Hash)]
pub struct TransactionId(u64);

impl View for TransactionId {
    type V = u64;

    closed spec fn view(&self) -> u64 {
        self.0
    }
}

impl TransactionId {
    pub fn new(data: u64) -> (result: Self)
        ensures
            result@ == data,
    {
        TransactionId(data)
    }

    /// Raises the id by one and returns the new id; at the largest id it fails and the id
    /// stays.
    pub fn increment(&mut self) -> (result: Result<Self, TransactionManagerError>)
        ensures
            old(self)@ >= MAX_TRANSACTION_ID ==> result == Err::<TransactionId, TransactionManagerError>(
                TransactionManagerError::TransactionIdOutOfRange,
            ) && final(self)@ == old(self)@,
            old(self)@ < MAX_TRANSACTION_ID ==> final(self)@ == old(self)@ + 1 && result == Ok::<
                TransactionId,
                TransactionManagerError,
            >(*final(self)),
    {
        if self.0 >= MAX_TRANSACTION_ID {
            return Err(TransactionManagerError::TransactionIdOutOfRange);
        }
        self.0 = self.0 + 1;
        Ok(TransactionId(self.0))
    }

    pub fn as_u64(&self) -> (result: u64)
        ensures
            result == self@,
    {
        self.0
    }

    pub fn serialize(&self) -> (result: Vec<u8>)
        ensures
            result@ == spec_varint_encode(self@),
    {
        varint_encode(self.0)
    }

    /// Two ids are the same exactly when their numbers are.
    pub proof fn lemma_id_is_its_view(a: TransactionId, b: TransactionId)
        ensures
            a@ == b@ <==> a == b,
    {
    }
}

#[derive(Debug, Clone, Copy, PartialEq, Eq, Structural)]
pub enum TransactionManagerError {
    TransactionIdOutOfRange,
    TransactionNotAlive,
    ParseTransactionManagerErrorError,
}

impl TransactionManagerError {
    pub open spec fn spec_marshal(self) -> Seq<u8> {
        match self {
            TransactionManagerError::TransactionIdOutOfRange => seq![0x01u8],
            TransactionManagerError::TransactionNotAlive => seq![0x02u8],
            TransactionManagerError::ParseTransactionManagerErrorError => seq![0x03u8],
        }
    }

    /// What `parse` gives for `data`; `None` where it would index past the end.
    pub open spec fn spec_parse(data: Seq<u8>) -> Option<(TransactionManagerError, nat)> {
        if data.len() == 0 {
            None
        } else if data[0] == 0x01 {
            Some((TransactionManagerError::TransactionIdOutOfRange, 1))
        } else if data[0] == 0x02 {
            Some((TransactionManagerError::TransactionNotAlive, 1))
        } else {
            Some((TransactionManagerError::ParseTransactionManagerErrorError, 1))
        }
    }

    pub fn marshal(&self) -> (result: Vec<u8>)
        ensures
            result@ == self.spec_marshal(),
    {
        let result = match self {
            TransactionManagerError::TransactionIdOutOfRange => vec![0x01u8],
            TransactionManagerError::TransactionNotAlive => vec![0x02u8],
            TransactionManagerError::ParseTransactionManagerErrorError => vec![0x03u8],
        };
        assert(result@ =~= self.spec_marshal());
        result
    }

    pub fn parse(data: &[u8]) -> (result: Result<(TransactionManagerError, usize), TransactionManagerError>)
        requires
            Self::spec_parse(data@) is Some,
        ensures
            result matches Ok((e, n)) && Self::spec_parse(data@) == Some((e, n as nat)),
    {
        let prefix = data[0];
        if prefix == 0x01 {
            Ok((TransactionManagerError::TransactionIdOutOfRange, 1))
        } else if prefix == 0x02 {
            Ok((TransactionManagerError::TransactionNotAlive, 1))
        } else {
            Ok((TransactionManagerError::ParseTransactionManagerErrorError, 1))
        }
    }

    pub proof fn lemma_roundtrip(self, rest: Seq<u8>)
        ensures
            Self::spec_parse(self.spec_marshal() + rest) == Some((self, 1nat)),
    {
    }
}


/// A transaction id as the contracts see it; `None` stands for committed data.
pub open spec fn tid_view(t: Option<TransactionId>) -> Option<u64> {
    match t {
        Some(x) => Some(x@),
        None => None,
    }
}

/// Whether two optional transaction ids are the same.
pub fn tid_eq(a: Option<TransactionId>, b: Option<TransactionId>) -> (result: bool)
    ensures
        result == (tid_view(a) == tid_view(b)),
{
    match (a, b) {
        (None, None) => true,
        (Some(x), Some(y)) => x.as_u64() == y.as_u64(),
        _ => false,
    }
}

/// The view of one key's pointers.
pub open spec fn pointers_view(p: Seq<(Option<TransactionId>, u64)>) -> Seq<(Option<u64>, u64)> {
    p.map_values(|e: (Option<TransactionId>, u64)| (tid_view(e.0), e.1))
}

/// For every key, and for committed data (`None`) and each transaction that wrote the key,
/// the height of the instruction that holds the key's latest state.
pub struct Snapshot {
    entries: Vec<(KVKey, Vec<(Option<TransactionId>, u64)>)>,
}

impl Snapshot {
    pub closed spec fn entries_view(&self) -> Seq<(Seq<u8>, Seq<(Option<u64>, u64)>)> {
        self.entries@.map_values(
            |e: (KVKey, Vec<(Option<TransactionId>, u64)>)| (e.0@, pointers_view(e.1@)),
        )
    }

    /// Keys occur once, and so do the transactions of each key.
    pub closed spec fn wf(&self) -> bool {
        &&& keys_distinct(self.entries_view())
        &&& forall|i: int| 0 <= i < self.entries@.len() ==> keys_distinct(#[trigger] self.entries_view()[i].1)
    }
}

impl View for Snapshot {
    type V = Map<Seq<u8>, Map<Option<u64>, u64>>;

    closed spec fn view(&self) -> Map<Seq<u8>, Map<Option<u64>, u64>> {
        assoc_map(self.entries_view()).map_values(|ps: Seq<(Option<u64>, u64)>| assoc_map(ps))
    }
}

/// The pointers of `key` in `s`; none where the key is absent.
pub open spec fn key_pointers(s: Map<Seq<u8>, Map<Option<u64>, u64>>, key: Seq<u8>) -> Map<Option<u64>, u64> {
    if s.contains_key(key) {
        s[key]
    } else {
        Map::empty()
    }
}

fn find_pointer(ps: &Vec<(Option<TransactionId>, u64)>, t: Option<TransactionId>) -> (result: Option<usize>)
    ensures
        match result {
            Some(i) => i < ps@.len() && pointers_view(ps@)[i as int].0 == tid_view(t),
            None => !has_key(pointers_view(ps@), tid_view(t)),
        },
{
    let mut i: usize = 0;
    while i < ps.len()
        invariant
            i <= ps@.len(),
            forall|j: int| 0 <= j < i ==> pointers_view(ps@)[j].0 != tid_view(t),
        decreases ps@.len() - i,
    {
        if tid_eq(ps[i].0, t) {
            return Some(i);
        }
        i = i + 1;
    }
    None
}

impl Snapshot {
    proof fn lemma_view_at(&self, i: int)
        requires
            self.wf(),
            0 <= i < self.entries@.len(),
        ensures
            self@.contains_key(self.entries_view()[i].0),
            self@[self.entries_view()[i].0] == assoc_map(self.entries_view()[i].1),
    {
        lemma_assoc_at(self.entries_view(), i);
    }

    pub fn new() -> (result: Self)
        ensures
            result.wf(),
            result@ == Map::<Seq<u8>, Map<Option<u64>, u64>>::empty(),
    {
        let result = Snapshot { entries: Vec::new() };
        proof {
            lemma_assoc_empty::<Seq<u8>, Seq<(Option<u64>, u64)>>();
            assert(result.entries_view() =~= Seq::empty());
            assert(result@ =~= Map::<Seq<u8>, Map<Option<u64>, u64>>::empty());
        }
        result
    }

    fn find_entry(&self, key: &[u8]) -> (result: Option<usize>)
        requires
            self.wf(),
        ensures
            match result {
                Some(i) => i < self.entries@.len() && self.entries_view()[i as int].0 == key@,
                None => !self@.contains_key(key@),
            },
    {
        let mut i: usize = 0;
        while i < self.entries.len()
            invariant
                self.wf(),
                i <= self.entries@.len(),
                forall|j: int| 0 <= j < i ==> self.entries_view()[j].0 != key@,
            decreases self.entries@.len() - i,
        {
            if bytes_eq(self.entries[i].0.as_bytes(), key) {
                return Some(i);
            }
            i = i + 1;
        }
        proof {
            if self@.contains_key(key@) {
                let j = choose|j: int| 0 <= j < self.entries_view().len() && self.entries_view()[j].0 == key@;
                assert(self.entries_view()[j].0 == key@);
            }
        }
        None
    }

    /// Whether `key` has pointers (possibly none of them left).
    pub fn contains_key(&self, key: &[u8]) -> (result: bool)
        requires
            self.wf(),
        ensures
            result == self@.contains_key(key@),
    {
        match self.find_entry(key) {
            Some(i) => {
                proof {
                    self.lemma_view_at(i as int);
                }
                true
            },
            None => false,
        }
    }

    /// The height that `key` points to for `t`.
    pub fn get_pointer(&self, key: &[u8], t: Option<TransactionId>) -> (result: Option<u64>)
        requires
            self.wf(),
        ensures
            result == (if key_pointers(self@, key@).contains_key(tid_view(t)) {
                Some(key_pointers(self@, key@)[tid_view(t)])
            } else {
                None::<u64>
            }),
    {
        match self.find_entry(key) {
            None => None,
            Some(i) => {
                proof {
                    self.lemma_view_at(i as int);
                }
                match find_pointer(&self.entries[i].1, t) {
                    None => None,
                    Some(j) => {
                        proof {
                            assert(self.entries_view()[i as int].1 == pointers_view(self.entries@[i as int].1@));
                            lemma_assoc_at(self.entries_view()[i as int].1, j as int);
                        }
                        Some(self.entries[i].1[j].1)
                    },
                }
            },
        }
    }

    /// Points `key` for `t` at `height`.
    pub fn set_pointer(&mut self, key: &KVKey, t: Option<TransactionId>, height: u64)
        requires
            old(self).wf(),
        ensures
            final(self).wf(),
            final(self)@ == old(self)@.insert(key@, key_pointers(old(self)@, key@).insert(tid_view(t), height)),
    {
        let ghost old_entries = self.entries_view();
        match self.find_entry(key.as_bytes()) {
            Some(i) => {
                proof {
                    self.lemma_view_at(i as int);
                }
                let (k, mut ps) = self.entries.remove(i);
                let ghost old_ps = pointers_view(ps@);
                match find_pointer(&ps, t) {
                    Some(j) => {
                        ps.set(j, (t, height));
                        proof {
                            lemma_assoc_update(old_ps, j as int, height);
                            assert(pointers_view(ps@) =~= old_ps.update(j as int, (old_ps[j as int].0, height)));
                        }
                    },
                    None => {
                        ps.push((t, height));
                        proof {
                            lemma_assoc_push(old_ps, tid_view(t), height);
                            assert(pointers_view(ps@) =~= old_ps.push((tid_view(t), height)));
                        }
                    },
                }
                let ghost new_ps = pointers_view(ps@);
                self.entries.insert(i, (k, ps));
                proof {
                    assert(self.entries_view() =~= old_entries.update(i as int, (old_entries[i as int].0, new_ps)));
                    lemma_assoc_update(old_entries, i as int, new_ps);
                    assert forall|x: int| 0 <= x < self.entries@.len() implies keys_distinct(#[trigger] self.entries_view()[x].1) by {
                        if x != i {
                            assert(self.entries_view()[x] == old_entries[x]);
                        }
                    }
                    assert(self@ =~= old(self)@.insert(key@, key_pointers(old(self)@, key@).insert(tid_view(t), height)));
                }
            },
            None => {
                let mut ps: Vec<(Option<TransactionId>, u64)> = Vec::new();
                ps.push((t, height));
                let ghost new_ps = pointers_view(ps@);
                proof {
                    lemma_assoc_empty::<Option<u64>, u64>();
                    assert(new_ps =~= Seq::<(Option<u64>, u64)>::empty().push((tid_view(t), height)));
                    lemma_assoc_push(Seq::<(Option<u64>, u64)>::empty(), tid_view(t), height);
                    assert(!has_key(old_entries, key@)) by {
                        if has_key(old_entries, key@) {
                            let j = choose|j: int| 0 <= j < old_entries.len() && old_entries[j].0 == key@;
                            self.lemma_view_at(j);
                        }
                    }
                }
                self.entries.push((KVKey::new(key.as_bytes()), ps));
                proof {
                    assert(self.entries_view() =~= old_entries.push((key@, new_ps)));
                    lemma_assoc_push(old_entries, key@, new_ps);
                    assert forall|x: int| 0 <= x < self.entries@.len() implies keys_distinct(#[trigger] self.entries_view()[x].1) by {
                        if x < old_entries.len() {
                            assert(self.entries_view()[x] == old_entries[x]);
                        }
                    }
                    assert(key_pointers(old(self)@, key@) == Map::<Option<u64>, u64>::empty());
                    assert(self@ =~= old(self)@.insert(key@, key_pointers(old(self)@, key@).insert(tid_view(t), height)));
                }
            },
        }
    }

    /// Drops the pointer of `key` for `t`; the key itself stays, with the pointers it has left.
    pub fn remove_pointer(&mut self, key: &[u8], t: Option<TransactionId>)
        requires
            old(self).wf(),
        ensures
            final(self).wf(),
            final(self)@ == (if old(self)@.contains_key(key@) {
                old(self)@.insert(key@, old(self)@[key@].remove(tid_view(t)))
            } else {
                old(self)@
            }),
    {
        let ghost old_entries = self.entries_view();
        match self.find_entry(key) {
            None => {},
            Some(i) => {
                proof {
                    self.lemma_view_at(i as int);
                }
                let (k, mut ps) = self.entries.remove(i);
                let ghost old_ps = pointers_view(ps@);
                match find_pointer(&ps, t) {
                    Some(j) => {
                        ps.remove(j);
                        proof {
                            lemma_assoc_remove(old_ps, j as int);
                            assert(pointers_view(ps@) =~= old_ps.remove(j as int));
                        }
                    },
                    None => {
                        proof {
                            assert(assoc_map(old_ps).remove(tid_view(t)) =~= assoc_map(old_ps));
                        }
                    },
                }
                let ghost new_ps = pointers_view(ps@);
                self.entries.insert(i, (k, ps));
                proof {
                    assert(self.entries_view() =~= old_entries.update(i as int, (old_entries[i as int].0, new_ps)));
                    lemma_assoc_update(old_entries, i as int, new_ps);
                    assert forall|x: int| 0 <= x < self.entries@.len() implies keys_distinct(#[trigger] self.entries_view()[x].1) by {
                        if x != i {
                            assert(self.entries_view()[x] == old_entries[x]);
                        }
                    }
                    assert(self@ =~= old(self)@.insert(key@, old(self)@[key@].remove(tid_view(t))));
                }
            },
        }
    }

    /// Drops the committed pointer of every key.
    pub fn remove_committed_pointers(&mut self)
        requires
            old(self).wf(),
        ensures
            final(self).wf(),
            final(self)@ == old(self)@.map_values(|m: Map<Option<u64>, u64>| m.remove(None)),
    {
        let ghost target = old(self)@.map_values(|m: Map<Option<u64>, u64>| m.remove(None));
        let ghost old_entries = self.entries_view();
        let mut i: usize = 0;
        while i < self.entries.len()
            invariant
                self.wf(),
                i <= self.entries@.len(),
                self.entries@.len() == old_entries.len(),
                forall|j: int| 0 <= j < old_entries.len() ==> #[trigger] self.entries_view()[j].0 == old_entries[j].0,
                forall|j: int| 0 <= j < i ==> assoc_map(#[trigger] self.entries_view()[j].1) == assoc_map(old_entries[j].1).remove(None),
                forall|j: int| i <= j < old_entries.len() ==> #[trigger] self.entries_view()[j].1 == old_entries[j].1,
                keys_distinct(old_entries),
                old(self)@ == assoc_map(old_entries).map_values(|ps: Seq<(Option<u64>, u64)>| assoc_map(ps)),
            decreases old_entries.len() - i,
        {
            let ghost before = self.entries_view();
            proof {
                self.lemma_view_at(i as int);
            }
            let (k, mut ps) = self.entries.remove(i);
            let ghost old_ps = pointers_view(ps@);
            match find_pointer(&ps, None) {
                Some(j) => {
                    ps.remove(j);
                    proof {
                        lemma_assoc_remove(old_ps, j as int);
                        assert(pointers_view(ps@) =~= old_ps.remove(j as int));
                    }
                },
                None => {
                    proof {
                        assert(assoc_map(old_ps).remove(None) =~= assoc_map(old_ps));
                    }
                },
            }
            let ghost new_ps = pointers_view(ps@);
            self.entries.insert(i, (k, ps));
            proof {
                assert(self.entries_view() =~= before.update(i as int, (before[i as int].0, new_ps)));
                lemma_assoc_update(before, i as int, new_ps);
                assert forall|x: int| 0 <= x < self.entries@.len() implies keys_distinct(#[trigger] self.entries_view()[x].1) by {
                    if x != i {
                        assert(self.entries_view()[x] == before[x]);
                    }
                }
            }
            i = i + 1;
        }
        proof {
            assert(self.entries_view().map_values(|e: (Seq<u8>, Seq<(Option<u64>, u64)>)| e.0) =~= old_entries.map_values(|e: (Seq<u8>, Seq<(Option<u64>, u64)>)| e.0));
            assert forall|k: Seq<u8>| self@.contains_key(k) <==> target.contains_key(k) by {
                if has_key(self.entries_view(), k) {
                    let j = choose|j: int| 0 <= j < self.entries_view().len() && self.entries_view()[j].0 == k;
                    assert(old_entries[j].0 == k);
                }
                if has_key(old_entries, k) {
                    let j = choose|j: int| 0 <= j < old_entries.len() && old_entries[j].0 == k;
                    assert(self.entries_view()[j].0 == k);
                }
            }
            assert forall|k: Seq<u8>| self@.contains_key(k) implies self@[k] == target[k] by {
                let j = choose|j: int| 0 <= j < self.entries_view().len() && self.entries_view()[j].0 == k;
                self.lemma_view_at(j);
                lemma_assoc_at(old_entries, j);
            }
            assert(self@ =~= target);
        }
    }

    /// A copy of the snapshot.
    pub fn duplicate(&self) -> (result: Snapshot)
        requires
            self.wf(),
        ensures
            result.wf(),
            result@ == self@,
    {
        let mut entries: Vec<(KVKey, Vec<(Option<TransactionId>, u64)>)> = Vec::new();
        let mut i: usize = 0;
        while i < self.entries.len()
            invariant
                i <= self.entries@.len(),
                entries@.len() == i,
                forall|j: int| 0 <= j < i ==> (#[trigger] entries@[j]).0@ == self.entries@[j].0@ && entries@[j].1@ == self.entries@[j].1@,
            decreases self.entries@.len() - i,
        {
            let mut ps: Vec<(Option<TransactionId>, u64)> = Vec::new();
            let mut j: usize = 0;
            while j < self.entries[i].1.len()
                invariant
                    i < self.entries@.len(),
                    j <= self.entries@[i as int].1@.len(),
                    ps@ == self.entries@[i as int].1@.subrange(0, j as int),
                decreases self.entries@[i as int].1@.len() - j,
            {
                ps.push(self.entries[i].1[j]);
                j = j + 1;
                assert(ps@ =~= self.entries@[i as int].1@.subrange(0, j as int));
            }
            assert(ps@ =~= self.entries@[i as int].1@);
            entries.push((KVKey::new(self.entries[i].0.as_bytes()), ps));
            i = i + 1;
        }
        let result = Snapshot { entries };
        proof {
            assert(result.entries_view() =~= self.entries_view());
            assert(result@ =~= self@);
        }
        result
    }

    /// The keys that have pointers, in the order in which they first got one.
    pub fn keys(&self) -> (result: Vec<KVKey>)
        requires
            self.wf(),
        ensures
            forall|i: int| 0 <= i < result@.len() ==> self@.contains_key(#[trigger] result@[i]@),
            forall|k: Seq<u8>| #[trigger] self@.contains_key(k) ==> exists|i: int| 0 <= i < result@.len() && result@[i]@ == k,
            forall|i: int, j: int| 0 <= i < j < result@.len() ==> (#[trigger] result@[i])@ != (#[trigger] result@[j])@,
    {
        let mut result: Vec<KVKey> = Vec::new();
        let mut i: usize = 0;
        while i < self.entries.len()
            invariant
                self.wf(),
                i <= self.entries@.len(),
                result@.len() == i,
                forall|j: int| 0 <= j < i ==> (#[trigger] result@[j])@ == self.entries_view()[j].0,
            decreases self.entries@.len() - i,
        {
            result.push(KVKey::new(self.entries[i].0.as_bytes()));
            i = i + 1;
        }
        proof {
            assert forall|j: int| 0 <= j < result@.len() implies self@.contains_key(#[trigger] result@[j]@) by {
                self.lemma_view_at(j);
            }
            assert forall|k: Seq<u8>| #[trigger] self@.contains_key(k) implies exists|j: int| 0 <= j < result@.len() && result@[j]@ == k by {
                let j = choose|j: int| 0 <= j < self.entries_view().len() && self.entries_view()[j].0 == k;
                assert(result@[j]@ == k);
            }
            assert forall|a: int, b: int| 0 <= a < b < result@.len() implies (#[trigger] result@[a])@ != (#[trigger] result@[b])@ by {
                assert(self.entries_view()[a].0 != self.entries_view()[b].0);
            }
        }
        result
    }
}


/// A live transaction as the contracts see it: the keys it wrote, in order, and the snapshot
/// it reads from.
pub struct TransactionView {
    pub affected_keys: Seq<Seq<u8>>,
    pub snapshot: Map<Seq<u8>, Map<Option<u64>, u64>>,
}

/// The transaction manager as the contracts see it: the last id handed out and the live
/// transactions.
pub struct TransactionManagerView {
    pub current_transaction_id: u64,
    pub transactions: Map<u64, TransactionView>,
}

/// A call on the transaction manager, with plain values for its arguments.
pub enum TransactionManagerOp {
    AddAffectedKey(u64, Seq<u8>),
    InitializeAffectedKeys(u64),
    InitializeTransaction(u64, Map<Seq<u8>, Map<Option<u64>, u64>>),
    UpdateMetaData(Seq<u8>, u64, u64),
    RemoveTransaction(u64),
    GenerateId,
    UpdateId(u64),
}

/// The transaction manager after one call, as each call's contract says.
pub open spec fn spec_tm_call(tm: TransactionManagerView, op: TransactionManagerOp) -> TransactionManagerView {
    match op {
        TransactionManagerOp::AddAffectedKey(t, key) => TransactionManagerView {
            current_transaction_id: tm.current_transaction_id,
            transactions: tm.transactions.insert(
                t,
                if tm.transactions.contains_key(t) {
                    TransactionView {
                        affected_keys: tm.transactions[t].affected_keys.push(key),
                        snapshot: tm.transactions[t].snapshot,
                    }
                } else {
                    TransactionView { affected_keys: seq![key], snapshot: Map::empty() }
                },
            ),
        },
        TransactionManagerOp::InitializeAffectedKeys(t) => TransactionManagerView {
            current_transaction_id: tm.current_transaction_id,
            transactions: tm.transactions.insert(
                t,
                TransactionView {
                    affected_keys: Seq::empty(),
                    snapshot: if tm.transactions.contains_key(t) {
                        tm.transactions[t].snapshot
                    } else {
                        Map::empty()
                    },
                },
            ),
        },
        TransactionManagerOp::InitializeTransaction(t, snapshot) => TransactionManagerView {
            current_transaction_id: tm.current_transaction_id,
            transactions: tm.transactions.insert(t, TransactionView { affected_keys: Seq::empty(), snapshot }),
        },
        TransactionManagerOp::UpdateMetaData(key, height, t) => if tm.transactions.contains_key(t) {
            TransactionManagerView {
                current_transaction_id: tm.current_transaction_id,
                transactions: tm.transactions.insert(
                    t,
                    TransactionView {
                        affected_keys: tm.transactions[t].affected_keys,
                        snapshot: tm.transactions[t].snapshot.insert(
                            key,
                            key_pointers(tm.transactions[t].snapshot, key).insert(Some(t), height),
                        ),
                    },
                ),
            }
        } else {
            tm
        },
        TransactionManagerOp::RemoveTransaction(t) => TransactionManagerView {
            current_transaction_id: tm.current_transaction_id,
            transactions: tm.transactions.remove(t),
        },
        TransactionManagerOp::GenerateId => if tm.current_transaction_id >= MAX_TRANSACTION_ID {
            tm
        } else {
            TransactionManagerView { current_transaction_id: (tm.current_transaction_id + 1) as u64, transactions: tm.transactions }
        },
        TransactionManagerOp::UpdateId(t) => TransactionManagerView { current_transaction_id: t, transactions: tm.transactions },
    }
}

/// The transaction manager after the calls, one after another.
pub open spec fn spec_tm_run(tm: TransactionManagerView, ops: Seq<TransactionManagerOp>) -> TransactionManagerView
    decreases ops.len(),
{
    if ops.len() == 0 {
        tm
    } else {
        spec_tm_call(spec_tm_run(tm, ops.drop_last()), ops.last())
    }
}

/// Whether a call makes transaction `t` live.
pub open spec fn opens_transaction(op: TransactionManagerOp, t: u64) -> bool {
    ||| op matches TransactionManagerOp::AddAffectedKey(x, _) && x == t
    ||| op matches TransactionManagerOp::InitializeAffectedKeys(x) && x == t
    ||| op matches TransactionManagerOp::InitializeTransaction(x, _) && x == t
}

/// Whether transaction `t` is live after the calls: some call made it live and no later call
/// removed it, or it was live before and no call removed it.
pub open spec fn live_after(tm: TransactionManagerView, ops: Seq<TransactionManagerOp>, t: u64) -> bool {
    ||| exists|i: int| 0 <= i < ops.len() && opens_transaction(#[trigger] ops[i], t) && forall|j: int|
        i < j < ops.len() ==> ops[j] != TransactionManagerOp::RemoveTransaction(t)
    ||| tm.transactions.contains_key(t) && forall|j: int| 0 <= j < ops.len() ==> ops[j] != TransactionManagerOp::RemoveTransaction(t)
}

/// A transaction is live after a history of calls exactly when, since it was last removed (or
/// from the start), a call made it live; `validate_transaction_id` then answers `Ok`.
pub proof fn law_transaction_live_after_history(tm: TransactionManagerView, ops: Seq<TransactionManagerOp>, t: u64)
    ensures
        spec_tm_run(tm, ops).transactions.contains_key(t) <==> live_after(tm, ops, t),
    decreases ops.len(),
{
    if ops.len() > 0 {
        let init = ops.drop_last();
        let op = ops.last();
        let n = ops.len() - 1;
        law_transaction_live_after_history(tm, init, t);
        assert(op == ops[n]);
        if live_after(tm, init, t) && op != TransactionManagerOp::RemoveTransaction(t) {
            if exists|i: int| 0 <= i < init.len() && opens_transaction(#[trigger] init[i], t) && forall|j: int|
                i < j < init.len() ==> init[j] != TransactionManagerOp::RemoveTransaction(t) {
                let i = choose|i: int| 0 <= i < init.len() && opens_transaction(#[trigger] init[i], t) && forall|j: int|
                    i < j < init.len() ==> init[j] != TransactionManagerOp::RemoveTransaction(t);
                assert(ops[i] == init[i]);
                assert forall|j: int| i < j < ops.len() implies ops[j] != TransactionManagerOp::RemoveTransaction(t) by {
                    if j < n {
                        assert(ops[j] == init[j]);
                    }
                }
                assert(opens_transaction(ops[i], t));
            } else {
                assert forall|j: int| 0 <= j < ops.len() implies ops[j] != TransactionManagerOp::RemoveTransaction(t) by {
                    if j < n {
                        assert(ops[j] == init[j]);
                    }
                }
            }
        }
        if opens_transaction(op, t) {
            assert(opens_transaction(ops[n], t));
        }
        if live_after(tm, ops, t) && !opens_transaction(op, t) {
            assert(op != TransactionManagerOp::RemoveTransaction(t)) by {
                if op == TransactionManagerOp::RemoveTransaction(t) {
                    if exists|i: int| 0 <= i < ops.len() && opens_transaction(#[trigger] ops[i], t) && forall|j: int|
                        i < j < ops.len() ==> ops[j] != TransactionManagerOp::RemoveTransaction(t) {
                        let i = choose|i: int| 0 <= i < ops.len() && opens_transaction(#[trigger] ops[i], t) && forall|j: int|
                            i < j < ops.len() ==> ops[j] != TransactionManagerOp::RemoveTransaction(t);
                        assert(i != n);
                    } else {
                        assert(ops[n] != TransactionManagerOp::RemoveTransaction(t));
                    }
                }
            }
            if exists|i: int| 0 <= i < ops.len() && opens_transaction(#[trigger] ops[i], t) && forall|j: int|
                i < j < ops.len() ==> ops[j] != TransactionManagerOp::RemoveTransaction(t) {
                let i = choose|i: int| 0 <= i < ops.len() && opens_transaction(#[trigger] ops[i], t) && forall|j: int|
                    i < j < ops.len() ==> ops[j] != TransactionManagerOp::RemoveTransaction(t);
                assert(i != n);
                assert(init[i] == ops[i]);
                assert(opens_transaction(init[i], t));
                assert forall|j: int| i < j < init.len() implies init[j] != TransactionManagerOp::RemoveTransaction(t) by {
                    assert(init[j] == ops[j]);
                }
            } else {
                assert forall|j: int| 0 <= j < init.len() implies init[j] != TransactionManagerOp::RemoveTransaction(t) by {
                    assert(init[j] == ops[j]);
                }
            }
        }
    }
}

/// The bookkeeping of one live transaction: the keys it wrote and the snapshot it reads from.
pub struct TransactionMetaData {
    affected_keys: Vec<KVKey>,
    snapshot: Snapshot,
}

impl View for TransactionMetaData {
    type V = TransactionView;

    closed spec fn view(&self) -> TransactionView {
        TransactionView {
            affected_keys: self.affected_keys@.map_values(|k: KVKey| k@),
            snapshot: self.snapshot@,
        }
    }
}

/// Hands out transaction ids and keeps, for each live transaction, the keys it wrote and the
/// snapshot it reads from, keyed by the transaction's id.
pub struct TransactionManager {
    current_transaction_id: TransactionId,
    transactions: HashMap<u64, TransactionMetaData>,
}

impl TransactionManager {
    /// Every live transaction's snapshot is well formed.
    pub closed spec fn wf(&self) -> bool {
        forall|t: u64| #[trigger] self.transactions@.contains_key(t) ==> self.transactions@[t].snapshot.wf()
    }
}

impl View for TransactionManager {
    type V = TransactionManagerView;

    closed spec fn view(&self) -> TransactionManagerView {
        TransactionManagerView {
            current_transaction_id: self.current_transaction_id@,
            transactions: self.transactions@.map_values(|m: TransactionMetaData| m@),
        }
    }
}

impl TransactionManager {
    pub fn new() -> (result: TransactionManager)
        ensures
            result.wf(),
            result@.current_transaction_id == 0,
            result@.transactions == Map::<u64, TransactionView>::empty(),
    {
        let result = TransactionManager { current_transaction_id: TransactionId::new(0), transactions: HashMap::new() };
        proof {
            assert(result@.transactions =~= Map::<u64, TransactionView>::empty());
        }
        result
    }

    /// Puts `record` in place of the transaction's record, or adds it.
    fn put_record(&mut self, transaction_id: TransactionId, record: TransactionMetaData)
        requires
            old(self).wf(),
            record.snapshot.wf(),
        ensures
            final(self).wf(),
            final(self)@.current_transaction_id == old(self)@.current_transaction_id,
            final(self)@.transactions == old(self)@.transactions.insert(transaction_id@, record@),
    {
        broadcast use vstd::std_specs::hash::group_hash_axioms;

        let ghost rv = record@;
        let _ = self.transactions.insert(transaction_id.as_u64(), record);
        proof {
            assert(self@.transactions =~= old(self)@.transactions.insert(transaction_id@, rv));
        }
    }

    /// Takes the transaction's record out, where it is live.
    fn take_record(&mut self, transaction_id: TransactionId) -> (result: Option<TransactionMetaData>)
        requires
            old(self).wf(),
        ensures
            final(self).wf(),
            final(self).current_transaction_id == old(self).current_transaction_id,
            final(self)@.transactions == old(self)@.transactions.remove(transaction_id@),
            match result {
                Some(r) => old(self)@.transactions.contains_key(transaction_id@)
                    && r@ == old(self)@.transactions[transaction_id@] && r.snapshot.wf(),
                None => !old(self)@.transactions.contains_key(transaction_id@),
            },
    {
        broadcast use vstd::std_specs::hash::group_hash_axioms;

        let t = transaction_id.as_u64();
        let result = self.transactions.remove(&t);
        proof {
            assert(self@.transactions =~= old(self)@.transactions.remove(transaction_id@));
        }
        result
    }

    /// Hands out the id after the last one.
    pub fn generate_new_transaction_id(&mut self) -> (result: Result<TransactionId, TransactionManagerError>)
        requires
            old(self).wf(),
        ensures
            final(self).wf(),
            final(self)@ == spec_tm_call(old(self)@, TransactionManagerOp::GenerateId),
            final(self)@.transactions == old(self)@.transactions,
            old(self)@.current_transaction_id >= MAX_TRANSACTION_ID ==> result == Err::<
                TransactionId,
                TransactionManagerError,
            >(TransactionManagerError::TransactionIdOutOfRange) && final(self)@ == old(self)@,
            old(self)@.current_transaction_id < MAX_TRANSACTION_ID ==> (result matches Ok(t)
                && t@ == old(self)@.current_transaction_id + 1 && final(self)@.current_transaction_id
                == t@),
    {
        self.current_transaction_id.increment()
    }

    /// Makes `transaction_id` the last id handed out.
    pub fn update_transaction_id(&mut self, transaction_id: &TransactionId)
        requires
            old(self).wf(),
        ensures
            final(self).wf(),
            final(self)@ == spec_tm_call(old(self)@, TransactionManagerOp::UpdateId(transaction_id@)),
            final(self)@.current_transaction_id == transaction_id@,
            final(self)@.transactions == old(self)@.transactions,
    {
        self.current_transaction_id = *transaction_id;
    }

    /// Records that the transaction wrote `key`; a transaction not yet known starts with this
    /// key and an empty snapshot.
    pub fn add_affected_keys(&mut self, transaction_id: &TransactionId, key: &KVKey)
        requires
            old(self).wf(),
        ensures
            final(self).wf(),
            final(self)@ == spec_tm_call(old(self)@, TransactionManagerOp::AddAffectedKey(transaction_id@, key@)),
            final(self)@.current_transaction_id == old(self)@.current_transaction_id,
            final(self)@.transactions == old(self)@.transactions.insert(
                transaction_id@,
                if old(self)@.transactions.contains_key(transaction_id@) {
                    TransactionView {
                        affected_keys: old(self)@.transactions[transaction_id@].affected_keys.push(key@),
                        snapshot: old(self)@.transactions[transaction_id@].snapshot,
                    }
                } else {
                    TransactionView { affected_keys: seq![key@], snapshot: Map::empty() }
                },
            ),
    {
        let r = match self.take_record(*transaction_id) {
            Some(record) => {
                let mut affected_keys = record.affected_keys;
                affected_keys.push(KVKey::new(key.as_bytes()));
                let r = TransactionMetaData { affected_keys, snapshot: record.snapshot };
                proof {
                    assert(r@.affected_keys =~= old(self)@.transactions[transaction_id@].affected_keys.push(key@));
                }
                r
            },
            None => {
                let mut affected_keys: Vec<KVKey> = Vec::new();
                affected_keys.push(KVKey::new(key.as_bytes()));
                let r = TransactionMetaData { affected_keys, snapshot: Snapshot::new() };
                proof {
                    assert(r@.affected_keys =~= seq![key@]);
                }
                r
            },
        };
        self.put_record(*transaction_id, r);
        proof {
            assert(self@.transactions =~= old(self)@.transactions.remove(transaction_id@).insert(transaction_id@, r@));
            assert(self@.transactions =~= spec_tm_call(old(self)@, TransactionManagerOp::AddAffectedKey(transaction_id@, key@)).transactions);
        }
    }

    /// Starts the transaction afresh with no keys written; it keeps the snapshot it had, or gets
    /// an empty one.
    pub fn initialize_affected_keys(&mut self, transaction_id: &TransactionId)
        requires
            old(self).wf(),
        ensures
            final(self).wf(),
            final(self)@ == spec_tm_call(old(self)@, TransactionManagerOp::InitializeAffectedKeys(transaction_id@)),
            final(self)@.current_transaction_id == old(self)@.current_transaction_id,
            final(self)@.transactions == old(self)@.transactions.insert(
                transaction_id@,
                TransactionView {
                    affected_keys: Seq::empty(),
                    snapshot: if old(self)@.transactions.contains_key(transaction_id@) {
                        old(self)@.transactions[transaction_id@].snapshot
                    } else {
                        Map::empty()
                    },
                },
            ),
    {
        let snapshot = match self.take_record(*transaction_id) {
            Some(record) => record.snapshot,
            None => Snapshot::new(),
        };
        let r = TransactionMetaData { affected_keys: Vec::new(), snapshot };
        proof {
            assert(r@.affected_keys =~= Seq::<Seq<u8>>::empty());
        }
        self.put_record(*transaction_id, r);
        proof {
            assert(self@.transactions =~= old(self)@.transactions.remove(transaction_id@).insert(transaction_id@, r@));
            assert(self@.transactions =~= spec_tm_call(old(self)@, TransactionManagerOp::InitializeAffectedKeys(transaction_id@)).transactions);
        }
    }

    /// Makes the transaction live, with no keys written and `snapshot` to read from.
    pub fn initialize_transaction(&mut self, transaction_id: &TransactionId, snapshot: Snapshot)
        requires
            old(self).wf(),
            snapshot.wf(),
        ensures
            final(self).wf(),
            final(self)@ == spec_tm_call(old(self)@, TransactionManagerOp::InitializeTransaction(transaction_id@, snapshot@)),
            final(self)@.current_transaction_id == old(self)@.current_transaction_id,
            final(self)@.transactions == old(self)@.transactions.insert(
                transaction_id@,
                TransactionView { affected_keys: Seq::empty(), snapshot: snapshot@ },
            ),
    {
        let r = TransactionMetaData { affected_keys: Vec::new(), snapshot };
        proof {
            assert(r@.affected_keys =~= Seq::<Seq<u8>>::empty());
        }
        self.put_record(*transaction_id, r);
    }

    /// The transaction's record, where it is live.
    fn record(&self, transaction_id: &TransactionId) -> (result: Option<&TransactionMetaData>)
        requires
            self.wf(),
        ensures
            match result {
                Some(r) => self@.transactions.contains_key(transaction_id@)
                    && r@ == self@.transactions[transaction_id@] && r.snapshot.wf(),
                None => !self@.transactions.contains_key(transaction_id@),
            },
    {
        broadcast use vstd::std_specs::hash::group_hash_axioms;

        let t = transaction_id.as_u64();
        self.transactions.get(&t)
    }

    /// `Ok` exactly when the transaction is live.
    pub fn validate_transaction_id(&self, transaction_id: &TransactionId) -> (result: Result<(), TransactionManagerError>)
        requires
            self.wf(),
        ensures
            result == (if self@.transactions.contains_key(transaction_id@) {
                Ok::<(), TransactionManagerError>(())
            } else {
                Err::<(), TransactionManagerError>(TransactionManagerError::TransactionNotAlive)
            }),
    {
        match self.record(transaction_id) {
            Some(_) => Ok(()),
            None => Err(TransactionManagerError::TransactionNotAlive),
        }
    }

    /// The keys the transaction wrote, in order; none for a transaction that is not live.
    pub fn get_affected_keys(&self, transaction_id: &TransactionId) -> (result: Vec<KVKey>)
        requires
            self.wf(),
        ensures
            result@.map_values(|k: KVKey| k@) == (if self@.transactions.contains_key(transaction_id@) {
                self@.transactions[transaction_id@].affected_keys
            } else {
                Seq::<Seq<u8>>::empty()
            }),
    {
        let mut result: Vec<KVKey> = Vec::new();
        match self.record(transaction_id) {
            Some(record) => {
                let keys = &record.affected_keys;
                let mut j: usize = 0;
                while j < keys.len()
                    invariant
                        j <= keys@.len(),
                        result@.len() == j,
                        forall|x: int| 0 <= x < j ==> (#[trigger] result@[x])@ == keys@[x]@,
                    decreases keys@.len() - j,
                {
                    result.push(KVKey::new(keys[j].as_bytes()));
                    j = j + 1;
                }
                assert(result@.map_values(|k: KVKey| k@) =~= keys@.map_values(|k: KVKey| k@));
            },
            None => {
                assert(result@.map_values(|k: KVKey| k@) =~= Seq::<Seq<u8>>::empty());
            },
        }
        result
    }

    /// A copy of the transaction's bookkeeping; an error for a transaction that is not live.
    pub fn get_transaction_meta_data(&self, transaction_id: &TransactionId) -> (result: Result<TransactionMetaData, TransactionManagerError>)
        requires
            self.wf(),
        ensures
            match result {
                Ok(m) => self@.transactions.contains_key(transaction_id@) && m.wf()
                    && m@ == self@.transactions[transaction_id@],
                Err(e) => !self@.transactions.contains_key(transaction_id@)
                    && e == TransactionManagerError::TransactionNotAlive,
            },
    {
        match self.record(transaction_id) {
            Some(record) => {
                let mut affected_keys: Vec<KVKey> = Vec::new();
                let mut j: usize = 0;
                while j < record.affected_keys.len()
                    invariant
                        j <= record.affected_keys@.len(),
                        affected_keys@.len() == j,
                        forall|x: int| 0 <= x < j ==> (#[trigger] affected_keys@[x])@ == record.affected_keys@[x]@,
                    decreases record.affected_keys@.len() - j,
                {
                    affected_keys.push(KVKey::new(record.affected_keys[j].as_bytes()));
                    j = j + 1;
                }
                assert(affected_keys@.map_values(|k: KVKey| k@) =~= record.affected_keys@.map_values(|k: KVKey| k@));
                let m = TransactionMetaData { affected_keys, snapshot: record.snapshot.duplicate() };
                Ok(m)
            },
            None => Err(TransactionManagerError::TransactionNotAlive),
        }
    }

    /// Points `key` for the transaction at `height` in the transaction's own snapshot; an error
    /// for a transaction that is not live.
    pub fn update_transaction_meta_data(&mut self, key: &KVKey, height: u64, transaction_id: &TransactionId) -> (result: Result<(), TransactionManagerError>)
        requires
            old(self).wf(),
        ensures
            final(self).wf(),
            final(self)@ == spec_tm_call(old(self)@, TransactionManagerOp::UpdateMetaData(key@, height, transaction_id@)),
            final(self)@.current_transaction_id == old(self)@.current_transaction_id,
            old(self)@.transactions.contains_key(transaction_id@) ==> result is Ok && final(self)@.transactions
                == old(self)@.transactions.insert(
                transaction_id@,
                TransactionView {
                    affected_keys: old(self)@.transactions[transaction_id@].affected_keys,
                    snapshot: old(self)@.transactions[transaction_id@].snapshot.insert(
                        key@,
                        key_pointers(old(self)@.transactions[transaction_id@].snapshot, key@).insert(
                            Some(transaction_id@),
                            height,
                        ),
                    ),
                },
            ),
            !old(self)@.transactions.contains_key(transaction_id@) ==> result == Err::<(), TransactionManagerError>(
                TransactionManagerError::TransactionNotAlive,
            ) && final(self)@ == old(self)@,
    {
        match self.take_record(*transaction_id) {
            Some(record) => {
                let mut snapshot = record.snapshot;
                snapshot.set_pointer(key, Some(*transaction_id), height);
                let r = TransactionMetaData { affected_keys: record.affected_keys, snapshot };
                self.put_record(*transaction_id, r);
                proof {
                    assert(self@.transactions =~= old(self)@.transactions.remove(transaction_id@).insert(transaction_id@, r@));
                    assert(self@.transactions =~= spec_tm_call(old(self)@, TransactionManagerOp::UpdateMetaData(key@, height, transaction_id@)).transactions);
                }
                Ok(())
            },
            None => {
                proof {
                    assert(self@.transactions =~= old(self)@.transactions);
                }
                Err(TransactionManagerError::TransactionNotAlive)
            },
        }
    }

    /// Forgets the transaction.
    pub fn remove_transaction(&mut self, transaction_id: &TransactionId)
        requires
            old(self).wf(),
        ensures
            final(self).wf(),
            final(self)@ == spec_tm_call(old(self)@, TransactionManagerOp::RemoveTransaction(transaction_id@)),
            final(self)@.current_transaction_id == old(self)@.current_transaction_id,
            final(self)@.transactions == old(self)@.transactions.remove(transaction_id@),
    {
        let _ = self.take_record(*transaction_id);
    }

    /// The live transactions, each once, in no particular order.
    pub fn transaction_ids(&self) -> (result: Vec<TransactionId>)
        requires
            self.wf(),
        ensures
            forall|i: int| 0 <= i < result@.len() ==> self@.transactions.contains_key(#[trigger] result@[i]@),
            forall|t: u64| #[trigger] self@.transactions.contains_key(t) ==> exists|i: int| 0 <= i < result@.len() && result@[i]@ == t,
            forall|i: int, j: int| 0 <= i < j < result@.len() ==> result@[i]@ != result@[j]@,
    {
        broadcast use vstd::std_specs::hash::group_hash_axioms;

        let mut result: Vec<TransactionId> = Vec::new();
        for k in it: self.transactions.keys()
            invariant
                result@.len() == it.index(),
                it.seq() == vstd::std_specs::hash::spec_keys_iter(&self.transactions).remaining(),
                forall|j: int| 0 <= j < it.index() ==> (#[trigger] result@[j])@ == *it.seq()[j],
        {
            result.push(TransactionId::new(*k));
        }
        proof {
            let keys = vstd::std_specs::hash::spec_keys_iter(&self.transactions).remaining();
            vstd::std_specs::hash::axiom_spec_keys_iter(&self.transactions);
            assert forall|j: int| 0 <= j < result@.len() implies self@.transactions.contains_key(#[trigger] result@[j]@) by {
                assert(keys.unref()[j] == *keys[j]);
                assert(keys.unref().contains(*keys[j]));
                assert(keys.unref().to_set().contains(*keys[j]));
            }
            assert forall|t: u64| #[trigger] self@.transactions.contains_key(t) implies exists|j: int| 0 <= j < result@.len() && result@[j]@ == t by {
                assert(keys.unref().to_set().contains(t));
                let j = choose|j: int| 0 <= j < keys.unref().len() && keys.unref()[j] == t;
                assert(result@[j]@ == t);
            }
            assert forall|i: int, j: int| 0 <= i < j < result@.len() implies result@[i]@ != result@[j]@ by {
                assert(keys.no_duplicates());
            }
        }
        result
    }
}

impl TransactionMetaData {
    /// The snapshot is well formed.
    pub closed spec fn wf(&self) -> bool {
        self.snapshot.wf()
    }

    /// The snapshot the transaction reads from.
    pub fn snapshot(&self) -> (result: &Snapshot)
        ensures
            result@ == self@.snapshot,
            self.wf() ==> result.wf(),
    {
        &self.snapshot
    }
}

} // verus!
