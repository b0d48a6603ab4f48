//! Commands to the database and the conditions that select units, with their byte forms.

use vstd::prelude::*;
use crate::storage::chain_height::ChainHeight;
use crate::storage::executor::command_error::{CommandError, SelectConditionError};
use crate::storage::executor::grouping_label::{GroupingLabel, GroupingLabelError};
use crate::storage::executor::predicate::{
    predicate_eq, predicate_equals, spec_parse_predicate, spec_predicate_bytes, Predicate,
    PredicateView,
};
use crate::storage::executor::unit_content::{
    content_eq, content_equals, spec_content_bytes, spec_parse_content, ContentView, UnitContent,
};
use crate::storage::executor::unit_key::UnitKey;
use crate::storage::instruction::{Instruction, InstructionView};
use crate::storage::kvkey::KVKey;
use crate::storage::kvvalue::KVValue;
use crate::storage::transaction_manager::TransactionId;
use crate::utils::bytes::{append_bytes, bytes_eq, tail_bytes};
use crate::utils::ints::{read_u64_le, spec_u64_from_le, spec_u64_le, u64_to_u8_array};
use crate::utils::serialize::lemma_length_prefixed_consumed;
use crate::utils::varint::{spec_varint_decode, spec_varint_encode, varint_decode, varint_encode};
use vstd::std_specs::cmp::PartialEqSpecImpl;

verus! {

/// Which units a select command reads.
#[derive(Debug)]
pub enum SelectCondition {
    Key(GroupingLabel, UnitKey, Option<TransactionId>),
    UnconditionalMatch(GroupingLabel),
    Predicate(GroupingLabel, Predicate),
    AllGrouping,
}

/// The first byte of each select condition's byte form.
#[derive(Debug, Clone, Copy, PartialEq, Eq, Structural)]
pub enum SelectConditionPrefix {
    KeyWithTransactionId,
    KeyWithoutTransactionId,
    UnconditionalMatch,
    Predicate,
    AllGrouping,
}

impl SelectConditionPrefix {
    pub open spec fn spec_byte(self) -> u8 {
        match self {
            SelectConditionPrefix::KeyWithTransactionId => 0x00,
            SelectConditionPrefix::KeyWithoutTransactionId => 0x01,
            SelectConditionPrefix::UnconditionalMatch => 0x02,
            SelectConditionPrefix::Predicate => 0x03,
            SelectConditionPrefix::AllGrouping => 0x04,
        }
    }

    pub fn byte(&self) -> (result: u8)
        ensures
            result == self.spec_byte(),
    {
        match self {
            SelectConditionPrefix::KeyWithTransactionId => 0x00,
            SelectConditionPrefix::KeyWithoutTransactionId => 0x01,
            SelectConditionPrefix::UnconditionalMatch => 0x02,
            SelectConditionPrefix::Predicate => 0x03,
            SelectConditionPrefix::AllGrouping => 0x04,
        }
    }
}

/// A select condition as plain values: labels and keys as bytes, ids as numbers.
pub enum ConditionView {
    Key(Seq<u8>, Seq<u8>, Option<u64>),
    UnconditionalMatch(Seq<u8>),
    Predicate(Seq<u8>, PredicateView),
    AllGrouping,
}

pub open spec fn optional_id_view(t: Option<TransactionId>) -> Option<u64> {
    match t {
        Some(t) => Some(t@),
        None => None,
    }
}

impl View for SelectCondition {
    type V = ConditionView;

    open spec fn view(&self) -> ConditionView {
        match self {
            SelectCondition::Key(g, k, t) => ConditionView::Key(g@, k@, optional_id_view(*t)),
            SelectCondition::UnconditionalMatch(g) => ConditionView::UnconditionalMatch(g@),
            SelectCondition::Predicate(g, p) => ConditionView::Predicate(g@, p@),
            SelectCondition::AllGrouping => ConditionView::AllGrouping,
        }
    }
}

/// The number stored little-endian in the eight bytes of `data` from `pos`; `None` where
/// fewer than eight bytes are left there.
pub open spec fn spec_u64_at(data: Seq<u8>, pos: int) -> Option<u64> {
    if 0 <= pos && pos + 8 <= data.len() {
        Some(spec_u64_from_le(data.subrange(pos, pos + 8)))
    } else {
        None
    }
}

/// The number stored little-endian at `pos`; see `spec_u64_at`.
pub fn read_u64_at(data: &[u8], pos: usize) -> (result: Option<u64>)
    ensures
        result == spec_u64_at(data@, pos as int),
{
    if pos <= data.len() && data.len() - pos >= 8 {
        Some(read_u64_le(data, pos))
    } else {
        None
    }
}

/// The byte form of a select condition: its prefix, the marshalled grouping, then for a key
/// the id of the transaction (eight bytes, where there is one) and the marshalled key, for a
/// predicate its byte form.
pub open spec fn spec_condition_bytes(c: ConditionView) -> Seq<u8> {
    match c {
        ConditionView::Key(g, k, Some(t)) => seq![0x00u8] + GroupingLabel::spec_marshal(g)
            + spec_u64_le(t) + UnitKey::spec_marshal(k),
        ConditionView::Key(g, k, None) => seq![0x01u8] + GroupingLabel::spec_marshal(g)
            + UnitKey::spec_marshal(k),
        ConditionView::UnconditionalMatch(g) => seq![0x02u8] + GroupingLabel::spec_marshal(g),
        ConditionView::Predicate(g, p) => seq![0x03u8] + GroupingLabel::spec_marshal(g)
            + spec_predicate_bytes(p),
        ConditionView::AllGrouping => seq![0x04u8],
    }
}

/// What `Predicate::parse` gives for `data`; kept folded in the specifications of this module.
#[verifier::opaque]
pub open spec fn predicate_part(data: Seq<u8>) -> Option<Result<(PredicateView, nat), crate::storage::executor::predicate::PredicateError>> {
    spec_parse_predicate(data)
}

/// What `UnitContent::parse` gives for `data`; kept folded in the specifications of this module.
#[verifier::opaque]
pub open spec fn content_part(data: Seq<u8>) -> Option<Result<(ContentView, nat), crate::storage::executor::unit_content::UnitContentError>> {
    spec_parse_content(data)
}

/// What `SelectCondition::parse` gives for `data`, with the bytes it takes; `None` where it
/// would read past the end.
#[verifier::opaque]
pub open spec fn spec_parse_condition(data: Seq<u8>) -> Option<Result<(ConditionView, nat), SelectConditionError>> {
    if data.len() == 0 {
        None
    } else {
        let p = data[0];
        if p == 0x04 {
            Some(Ok((ConditionView::AllGrouping, 1nat)))
        } else if p > 0x04 {
            Some(Err(SelectConditionError::InvalidPrefix))
        } else {
            match GroupingLabel::spec_parse(data.subrange(1, data.len() as int)) {
                None => None,
                Some(Err(e)) => Some(Err(SelectConditionError::GroupingError(e))),
                Some(Ok((g, n))) => {
                    let pos: int = 1 + n as int;
                    if p == 0x02 {
                        Some(Ok((ConditionView::UnconditionalMatch(g), pos as nat)))
                    } else if p == 0x03 {
                        match predicate_part(data.subrange(pos, data.len() as int)) {
                            None => None,
                            Some(Err(e)) => Some(Err(SelectConditionError::PredicateError(e))),
                            Some(Ok((q, m))) => Some(Ok((ConditionView::Predicate(g, q), (pos + m) as nat))),
                        }
                    } else if p == 0x00 && spec_u64_at(data, pos) is None {
                        None
                    } else {
                        let tid = if p == 0x00 { spec_u64_at(data, pos) } else { None };
                        let kpos: int = if p == 0x00 { pos + 8 } else { pos };
                        match UnitKey::spec_parse(data.subrange(kpos, data.len() as int)) {
                            None => None,
                            Some(Err(e)) => Some(Err(SelectConditionError::UnitKeyError(e))),
                            Some(Ok((k, m))) => Some(Ok((ConditionView::Key(g, k, tid), (kpos + m) as nat))),
                        }
                    }
                },
            }
        }
    }
}

impl SelectCondition {
    pub fn marshal(&self) -> (result: Vec<u8>)
        ensures
            result@ == spec_condition_bytes(self@),
    {
        match self {
            SelectCondition::UnconditionalMatch(grouping) => {
                let mut result = vec![SelectConditionPrefix::UnconditionalMatch.byte()];
                append_bytes(&mut result, &grouping.marshal());
                result
            },
            SelectCondition::Key(grouping, key, transaction_id) => {
                let mut result: Vec<u8> = Vec::new();
                match transaction_id {
                    Some(transaction_id) => {
                        result.push(SelectConditionPrefix::KeyWithTransactionId.byte());
                        append_bytes(&mut result, &grouping.marshal());
                        let id_bytes = u64_to_u8_array(transaction_id.as_u64());
                        append_bytes(&mut result, &id_bytes);
                    },
                    None => {
                        result.push(SelectConditionPrefix::KeyWithoutTransactionId.byte());
                        append_bytes(&mut result, &grouping.marshal());
                    },
                }
                append_bytes(&mut result, &key.marshal());
                assert(result@ =~= spec_condition_bytes(self@));
                result
            },
            SelectCondition::Predicate(grouping, predicate) => {
                let mut result = vec![SelectConditionPrefix::Predicate.byte()];
                append_bytes(&mut result, &grouping.marshal());
                append_bytes(&mut result, &predicate.serialize());
                assert(result@ =~= spec_condition_bytes(self@));
                result
            },
            SelectCondition::AllGrouping => {
                let result = vec![SelectConditionPrefix::AllGrouping.byte()];
                assert(result@ =~= spec_condition_bytes(self@));
                result
            },
        }
    }

    /// Reads the condition at the start of `data`, with the bytes it takes; see
    /// `spec_parse_condition`.
    pub fn parse(data: &[u8]) -> (result: Result<(Self, usize), SelectConditionError>)
        requires
            spec_parse_condition(data@) is Some,
        ensures
            match result {
                Ok((c, n)) => spec_parse_condition(data@) == Some(Ok::<(ConditionView, nat), SelectConditionError>((c@, n as nat))),
                Err(e) => spec_parse_condition(data@) == Some(Err::<(ConditionView, nat), SelectConditionError>(e)),
            },
    {
        match Self::parse_checked(data) {
            Some(r) => r,
            None => {
                assert(false);
                Err(SelectConditionError::ParseSelectConditionErrorError)
            },
        }
    }

    /// Like `parse`, with `None` where it would read past the end.
    pub fn parse_checked(data: &[u8]) -> (result: Option<Result<(Self, usize), SelectConditionError>>)
        ensures
            match result {
                None => spec_parse_condition(data@) is None,
                Some(Ok((c, n))) => spec_parse_condition(data@) == Some(Ok::<(ConditionView, nat), SelectConditionError>((c@, n as nat)))
                    && n <= data@.len(),
                Some(Err(e)) => spec_parse_condition(data@) == Some(Err::<(ConditionView, nat), SelectConditionError>(e)),
            },
    {
        proof {
            reveal(spec_parse_condition);
        }
        if data.len() == 0 {
            return None;
        }
        let p = data[0];
        if p == 0x04 {
            return Some(Ok((SelectCondition::AllGrouping, 1)));
        } else if p > 0x04 {
            return Some(Err(SelectConditionError::InvalidPrefix));
        }
        let (grouping, n) = match GroupingLabel::parse_checked(tail_bytes(data, 1)) {
            None => {
                return None;
            },
            Some(Err(e)) => {
                return Some(Err(SelectConditionError::GroupingError(e)));
            },
            Some(Ok(r)) => r,
        };
        let pos = 1 + n;
        if p == 0x02 {
            return Some(Ok((SelectCondition::UnconditionalMatch(grouping), pos)));
        }
        if p == 0x03 {
            proof {
                reveal(predicate_part);
            }
            return match Predicate::parse_checked(tail_bytes(data, pos)) {
                None => None,
                Some(Err(e)) => Some(Err(SelectConditionError::PredicateError(e))),
                Some(Ok((q, m))) => Some(Ok((SelectCondition::Predicate(grouping, q), pos + m))),
            };
        }
        let mut kpos = pos;
        let mut transaction_id: Option<TransactionId> = None;
        if p == 0x00 {
            match read_u64_at(data, pos) {
                None => {
                    return None;
                },
                Some(t) => {
                    transaction_id = Some(TransactionId::new(t));
                    kpos = pos + 8;
                },
            }
        }
        assert(optional_id_view(transaction_id) == (if p == 0x00 { spec_u64_at(data@, pos as int) } else { None::<u64> }));
        match UnitKey::parse_checked(tail_bytes(data, kpos)) {
            None => None,
            Some(Err(e)) => Some(Err(SelectConditionError::UnitKeyError(e))),
            Some(Ok((key, m))) => Some(Ok((SelectCondition::Key(grouping, key, transaction_id), kpos + m))),
        }
    }
}

/// A request to the database.
#[derive(Debug)]
pub enum Command {
    Select { condition: SelectCondition },
    InspectOne { grouping: GroupingLabel, key: UnitKey },
    InspectAll,
    Insert { grouping: GroupingLabel, key: UnitKey, content: UnitContent },
    RevertOne { grouping: GroupingLabel, key: UnitKey, height: ChainHeight },
    RevertAll { height: ChainHeight },
    RemoveOne { grouping: GroupingLabel, key: UnitKey },
    RemoveAll,
    RemoveGroupings { groupings: Vec<GroupingLabel> },
    CreateTransaction,
    TransactionalInsert {
        grouping: GroupingLabel,
        key: UnitKey,
        content: UnitContent,
        transaction_id: TransactionId,
    },
    TransactionalRevertOne {
        grouping: GroupingLabel,
        key: UnitKey,
        height: ChainHeight,
        transaction_id: TransactionId,
    },
    TransactionalRemoveOne { grouping: GroupingLabel, key: UnitKey, transaction_id: TransactionId },
    TransactionCommit { transaction_id: TransactionId },
    TransactionAbort { transaction_id: TransactionId },
}

/// The first byte of each command's byte form.
#[derive(Debug, Clone, Copy, PartialEq, Eq, Structural)]
pub enum CommandPrefix {
    Select,
    InspectOne,
    InspectAll,
    Insert,
    RevertOne,
    RevertAll,
    RemoveOne,
    RemoveAll,
    RemoveGroupings,
    TransactionalInsert,
    TransactionalRevertOne,
    TransactionalRemoveOne,
    CreateTransaction,
    TransactionCommit,
    TransactionAbort,
}

impl CommandPrefix {
    pub open spec fn spec_byte(self) -> u8 {
        match self {
            CommandPrefix::Select => 0x01,
            CommandPrefix::InspectOne => 0x02,
            CommandPrefix::InspectAll => 0x03,
            CommandPrefix::Insert => 0x04,
            CommandPrefix::RevertOne => 0x05,
            CommandPrefix::RevertAll => 0x06,
            CommandPrefix::RemoveOne => 0x07,
            CommandPrefix::RemoveAll => 0x08,
            CommandPrefix::RemoveGroupings => 0x09,
            CommandPrefix::TransactionalInsert => 0x54,
            CommandPrefix::TransactionalRevertOne => 0x55,
            CommandPrefix::TransactionalRemoveOne => 0x57,
            CommandPrefix::CreateTransaction => 0xc0,
            CommandPrefix::TransactionCommit => 0xc1,
            CommandPrefix::TransactionAbort => 0xc2,
        }
    }

    pub fn byte(&self) -> (result: u8)
        ensures
            result == self.spec_byte(),
    {
        match self {
            CommandPrefix::Select => 0x01,
            CommandPrefix::InspectOne => 0x02,
            CommandPrefix::InspectAll => 0x03,
            CommandPrefix::Insert => 0x04,
            CommandPrefix::RevertOne => 0x05,
            CommandPrefix::RevertAll => 0x06,
            CommandPrefix::RemoveOne => 0x07,
            CommandPrefix::RemoveAll => 0x08,
            CommandPrefix::RemoveGroupings => 0x09,
            CommandPrefix::TransactionalInsert => 0x54,
            CommandPrefix::TransactionalRevertOne => 0x55,
            CommandPrefix::TransactionalRemoveOne => 0x57,
            CommandPrefix::CreateTransaction => 0xc0,
            CommandPrefix::TransactionCommit => 0xc1,
            CommandPrefix::TransactionAbort => 0xc2,
        }
    }
}

/// A command as plain values: labels and keys as bytes, units by their views, heights and
/// ids as numbers.
pub enum CommandView {
    Select(ConditionView),
    InspectOne(Seq<u8>, Seq<u8>),
    InspectAll,
    Insert(Seq<u8>, Seq<u8>, ContentView),
    RevertOne(Seq<u8>, Seq<u8>, u64),
    RevertAll(u64),
    RemoveOne(Seq<u8>, Seq<u8>),
    RemoveAll,
    RemoveGroupings(Seq<Seq<u8>>),
    CreateTransaction,
    TransactionalInsert(Seq<u8>, Seq<u8>, ContentView, u64),
    TransactionalRevertOne(Seq<u8>, Seq<u8>, u64, u64),
    TransactionalRemoveOne(Seq<u8>, Seq<u8>, u64),
    TransactionCommit(u64),
    TransactionAbort(u64),
}

pub open spec fn labels_view(groupings: Seq<GroupingLabel>) -> Seq<Seq<u8>> {
    groupings.map_values(|g: GroupingLabel| g@)
}

impl View for Command {
    type V = CommandView;

    open spec fn view(&self) -> CommandView {
        match self {
            Command::Select { condition } => CommandView::Select(condition@),
            Command::InspectOne { grouping, key } => CommandView::InspectOne(grouping@, key@),
            Command::InspectAll => CommandView::InspectAll,
            Command::Insert { grouping, key, content } => CommandView::Insert(grouping@, key@, content@),
            Command::RevertOne { grouping, key, height } => CommandView::RevertOne(grouping@, key@, height@),
            Command::RevertAll { height } => CommandView::RevertAll(height@),
            Command::RemoveOne { grouping, key } => CommandView::RemoveOne(grouping@, key@),
            Command::RemoveAll => CommandView::RemoveAll,
            Command::RemoveGroupings { groupings } => CommandView::RemoveGroupings(labels_view(groupings@)),
            Command::CreateTransaction => CommandView::CreateTransaction,
            Command::TransactionalInsert { grouping, key, content, transaction_id } =>
                CommandView::TransactionalInsert(grouping@, key@, content@, transaction_id@),
            Command::TransactionalRevertOne { grouping, key, height, transaction_id } =>
                CommandView::TransactionalRevertOne(grouping@, key@, height@, transaction_id@),
            Command::TransactionalRemoveOne { grouping, key, transaction_id } =>
                CommandView::TransactionalRemoveOne(grouping@, key@, transaction_id@),
            Command::TransactionCommit { transaction_id } => CommandView::TransactionCommit(transaction_id@),
            Command::TransactionAbort { transaction_id } => CommandView::TransactionAbort(transaction_id@),
        }
    }
}

/// The marshalled grouping followed by the marshalled key.
pub open spec fn spec_target_bytes(g: Seq<u8>, k: Seq<u8>) -> Seq<u8> {
    GroupingLabel::spec_marshal(g) + UnitKey::spec_marshal(k)
}

/// The marshalled groupings, one after the other.
pub open spec fn spec_groupings_bytes(gs: Seq<Seq<u8>>) -> Seq<u8>
    decreases gs.len(),
{
    if gs.len() == 0 {
        Seq::empty()
    } else {
        GroupingLabel::spec_marshal(gs[0]) + spec_groupings_bytes(gs.drop_first())
    }
}

/// The byte form of a command: its prefix, then its fields in order; labels and keys
/// marshalled, units in their byte form, heights and ids as eight little-endian bytes, and a
/// list of groupings as the width of their marshalled bytes followed by those bytes.
pub open spec fn spec_command_bytes(c: CommandView) -> Seq<u8> {
    match c {
        CommandView::Select(cond) => seq![0x01u8] + spec_condition_bytes(cond),
        CommandView::InspectOne(g, k) => seq![0x02u8] + spec_target_bytes(g, k),
        CommandView::InspectAll => seq![0x03u8],
        CommandView::Insert(g, k, u) => seq![0x04u8] + spec_target_bytes(g, k) + spec_content_bytes(u),
        CommandView::RevertOne(g, k, h) => seq![0x05u8] + spec_target_bytes(g, k) + spec_u64_le(h),
        CommandView::RevertAll(h) => seq![0x06u8] + spec_u64_le(h),
        CommandView::RemoveOne(g, k) => seq![0x07u8] + spec_target_bytes(g, k),
        CommandView::RemoveAll => seq![0x08u8],
        CommandView::RemoveGroupings(gs) => seq![0x09u8] + spec_varint_encode(
            spec_groupings_bytes(gs).len() as u64,
        ) + spec_groupings_bytes(gs),
        CommandView::CreateTransaction => seq![0xc0u8],
        CommandView::TransactionalInsert(g, k, u, t) => seq![0x54u8] + spec_target_bytes(g, k)
            + spec_content_bytes(u) + spec_u64_le(t),
        CommandView::TransactionalRevertOne(g, k, h, t) => seq![0x55u8] + spec_target_bytes(g, k)
            + spec_u64_le(h) + spec_u64_le(t),
        CommandView::TransactionalRemoveOne(g, k, t) => seq![0x57u8] + spec_target_bytes(g, k)
            + spec_u64_le(t),
        CommandView::TransactionCommit(t) => seq![0xc1u8] + spec_u64_le(t),
        CommandView::TransactionAbort(t) => seq![0xc2u8] + spec_u64_le(t),
    }
}

/// Marshalled groupings read one after another until at least `total` bytes have been read,
/// with the bytes they take; `None` where a width overruns the bytes.
pub open spec fn spec_parse_groupings(data: Seq<u8>, total: int) -> Option<Result<(Seq<Seq<u8>>, nat), GroupingLabelError>>
    decreases data.len(),
{
    if total <= 0 {
        Some(Ok((Seq::empty(), 0nat)))
    } else {
        match GroupingLabel::spec_parse(data) {
            None => None,
            Some(Err(e)) => Some(Err(e)),
            Some(Ok((g, n))) => {
                proof {
                    lemma_length_prefixed_consumed(data);
                }
                match spec_parse_groupings(data.subrange(n as int, data.len() as int), total - n) {
                    None => None,
                    Some(Err(e)) => Some(Err(e)),
                    Some(Ok((gs, m))) => Some(Ok((seq![g] + gs, n + m))),
                }
            },
        }
    }
}

/// A grouping and a key marshalled one after the other from `pos`, with the position after
/// them; `None` where a width overruns the bytes.
pub open spec fn spec_parse_target(data: Seq<u8>, pos: int) -> Option<Result<(Seq<u8>, Seq<u8>, int), CommandError>> {
    match GroupingLabel::spec_parse(data.subrange(pos, data.len() as int)) {
        None => None,
        Some(Err(e)) => Some(Err(CommandError::GroupingErr(e))),
        Some(Ok((g, n))) => match UnitKey::spec_parse(data.subrange(pos + n, data.len() as int)) {
            None => None,
            Some(Err(e)) => Some(Err(CommandError::UnitKeyError(e))),
            Some(Ok((k, m))) => Some(Ok((g, k, pos + n + m))),
        },
    }
}

/// The fields that follow the grouping and the key of a command with prefix `p`, read from
/// `pos`.
#[verifier::opaque]
pub open spec fn spec_parse_command_rest(p: u8, g: Seq<u8>, k: Seq<u8>, data: Seq<u8>, pos: int) -> Option<Result<(CommandView, nat), CommandError>> {
    if p == 0x02 {
        Some(Ok((CommandView::InspectOne(g, k), pos as nat)))
    } else if p == 0x07 {
        Some(Ok((CommandView::RemoveOne(g, k), pos as nat)))
    } else if p == 0x04 || p == 0x54 {
        match content_part(data.subrange(pos, data.len() as int)) {
            None => None,
            Some(Err(e)) => Some(Err(CommandError::UnitContentErr(e))),
            Some(Ok((u, m))) => if p == 0x04 {
                Some(Ok((CommandView::Insert(g, k, u), (pos + m) as nat)))
            } else {
                match spec_u64_at(data, pos + m) {
                    None => None,
                    Some(t) => Some(Ok((CommandView::TransactionalInsert(g, k, u, t), (pos + m + 8) as nat))),
                }
            },
        }
    } else if p == 0x05 || p == 0x57 {
        match spec_u64_at(data, pos) {
            None => None,
            Some(v) => Some(Ok((
                if p == 0x05 { CommandView::RevertOne(g, k, v) } else { CommandView::TransactionalRemoveOne(g, k, v) },
                (pos + 8) as nat,
            ))),
        }
    } else {
        match (spec_u64_at(data, pos), spec_u64_at(data, pos + 8)) {
            (Some(h), Some(t)) => Some(Ok((CommandView::TransactionalRevertOne(g, k, h, t), (pos + 16) as nat))),
            _ => None,
        }
    }
}

/// Whether commands with prefix `p` start with a grouping and a key.
pub open spec fn has_target(p: u8) -> bool {
    p == 0x02 || p == 0x04 || p == 0x05 || p == 0x07 || p == 0x54 || p == 0x55 || p == 0x57
}

/// A command that removes groupings: the width of the marshalled groupings, then the
/// groupings.
#[verifier::opaque]
pub open spec fn spec_parse_remove_groupings(data: Seq<u8>) -> Option<Result<(CommandView, nat), CommandError>> {
    match spec_varint_decode(data.subrange(1, data.len() as int)) {
        Err(e) => Some(Err(CommandError::VarIntError(e))),
        Ok((total, w)) => match spec_parse_groupings(data.subrange(1 + w as int, data.len() as int), total as int) {
            None => None,
            Some(Err(e)) => Some(Err(CommandError::GroupingErr(e))),
            Some(Ok((gs, m))) => Some(Ok((CommandView::RemoveGroupings(gs), 1 + w + m))),
        },
    }
}

/// A command with prefix `p` whose fields start with a grouping and a key.
#[verifier::opaque]
pub open spec fn spec_parse_targeted(p: u8, data: Seq<u8>) -> Option<Result<(CommandView, nat), CommandError>> {
    match spec_parse_target(data, 1) {
        None => None,
        Some(Err(e)) => Some(Err(e)),
        Some(Ok((g, k, pos))) => spec_parse_command_rest(p, g, k, data, pos),
    }
}

/// What `Command::parse` gives for `data`, with the bytes it takes; `None` where it would
/// read past the end.
pub open spec fn spec_parse_command(data: Seq<u8>) -> Option<Result<(CommandView, nat), CommandError>> {
    if data.len() == 0 {
        None
    } else {
        let p = data[0];
        if p == 0x01 {
            match spec_parse_condition(data.subrange(1, data.len() as int)) {
                None => None,
                Some(Err(e)) => Some(Err(CommandError::SelectConditionErr(e))),
                Some(Ok((c, n))) => Some(Ok((CommandView::Select(c), 1 + n))),
            }
        } else if p == 0x03 {
            Some(Ok((CommandView::InspectAll, 1nat)))
        } else if p == 0x08 {
            Some(Ok((CommandView::RemoveAll, 1nat)))
        } else if p == 0xc0 {
            Some(Ok((CommandView::CreateTransaction, 1nat)))
        } else if p == 0x06 || p == 0xc1 || p == 0xc2 {
            match spec_u64_at(data, 1) {
                None => None,
                Some(v) => Some(Ok((
                    if p == 0x06 {
                        CommandView::RevertAll(v)
                    } else if p == 0xc1 {
                        CommandView::TransactionCommit(v)
                    } else {
                        CommandView::TransactionAbort(v)
                    },
                    9nat,
                ))),
            }
        } else if p == 0x09 {
            spec_parse_remove_groupings(data)
        } else if has_target(p) {
            spec_parse_targeted(p, data)
        } else {
            Some(Err(CommandError::InvalidPrefix))
        }
    }
}

/// The bytes of groupings grow by the marshalled grouping that is added at the end.
pub proof fn lemma_groupings_bytes_push(gs: Seq<Seq<u8>>, g: Seq<u8>)
    ensures
        spec_groupings_bytes(gs.push(g)) == spec_groupings_bytes(gs) + GroupingLabel::spec_marshal(g),
    decreases gs.len(),
{
    if gs.len() == 0 {
        assert(gs.push(g).drop_first() =~= Seq::<Seq<u8>>::empty());
        assert(spec_groupings_bytes(gs.push(g).drop_first()) == Seq::<u8>::empty());
        assert(gs.push(g)[0] == g);
        assert(spec_groupings_bytes(gs.push(g)) =~= spec_groupings_bytes(gs) + GroupingLabel::spec_marshal(g));
    } else {
        assert(gs.push(g).drop_first() =~= gs.drop_first().push(g));
        lemma_groupings_bytes_push(gs.drop_first(), g);
        assert(spec_groupings_bytes(gs.push(g)) =~= spec_groupings_bytes(gs) + GroupingLabel::spec_marshal(g));
    }
}

/// Marshalled groupings read until at least `total` bytes have been read; see
/// `spec_parse_groupings`.
fn parse_groupings(data: &[u8], total: u64) -> (result: Option<Result<(Vec<GroupingLabel>, usize), GroupingLabelError>>)
    ensures
        match result {
            None => spec_parse_groupings(data@, total as int) is None,
            Some(Ok((gs, n))) => spec_parse_groupings(data@, total as int) == Some(
                Ok::<(Seq<Seq<u8>>, nat), GroupingLabelError>((labels_view(gs@), n as nat)),
            ) && n <= data@.len(),
            Some(Err(e)) => spec_parse_groupings(data@, total as int) == Some(
                Err::<(Seq<Seq<u8>>, nat), GroupingLabelError>(e),
            ),
        },
    decreases data@.len(),
{
    let _ = data.len();
    if total == 0 {
        let empty: Vec<GroupingLabel> = Vec::new();
        assert(labels_view(empty@) =~= Seq::<Seq<u8>>::empty());
        return Some(Ok((empty, 0)));
    }
    match GroupingLabel::parse_checked(data) {
        None => None,
        Some(Err(e)) => Some(Err(e)),
        Some(Ok((grouping, n))) => {
            let remaining: u64 = if n as u64 >= total { 0 } else { total - n as u64 };
            assert(spec_parse_groupings(data@.subrange(n as int, data@.len() as int), total - n)
                == spec_parse_groupings(data@.subrange(n as int, data@.len() as int), remaining as int));
            let tail = tail_bytes(data, n);
            assert(tail@.len() == data@.len() - n);
            match parse_groupings(tail, remaining) {
                None => None,
                Some(Err(e)) => Some(Err(e)),
                Some(Ok((rest, m))) => {
                    let ghost rest_view = labels_view(rest@);
                    let ghost head = grouping@;
                    let mut groupings = rest;
                    groupings.insert(0, grouping);
                    assert(labels_view(groupings@) =~= seq![head] + rest_view);
                    Some(Ok((groupings, n + m)))
                },
            }
        },
    }
}

/// A grouping and a key read one after the other from `pos`; see `spec_parse_target`.
fn parse_target(data: &[u8], pos: usize) -> (result: Option<Result<(GroupingLabel, UnitKey, usize), CommandError>>)
    requires
        pos <= data@.len(),
    ensures
        match result {
            None => spec_parse_target(data@, pos as int) is None,
            Some(Ok((g, k, end))) => spec_parse_target(data@, pos as int) == Some(
                Ok::<(Seq<u8>, Seq<u8>, int), CommandError>((g@, k@, end as int)),
            ) && pos <= end <= data@.len(),
            Some(Err(e)) => spec_parse_target(data@, pos as int) == Some(
                Err::<(Seq<u8>, Seq<u8>, int), CommandError>(e),
            ),
        },
{
    let _ = data.len();
    let (grouping, n) = match GroupingLabel::parse_checked(tail_bytes(data, pos)) {
        None => {
            return None;
        },
        Some(Err(e)) => {
            return Some(Err(CommandError::GroupingErr(e)));
        },
        Some(Ok(r)) => r,
    };
    assert(n <= data@.len() - pos);
    let kpos = pos + n;
    let tail = tail_bytes(data, kpos);
    assert(tail@.len() == data@.len() - kpos);
    match UnitKey::parse_checked(tail) {
        None => None,
        Some(Err(e)) => Some(Err(CommandError::UnitKeyError(e))),
        Some(Ok((key, m))) => Some(Ok((grouping, key, kpos + m))),
    }
}

/// The fields after the grouping and the key; see `spec_parse_command_rest`.
fn parse_command_rest(p: u8, grouping: GroupingLabel, key: UnitKey, data: &[u8], pos: usize) -> (result: Option<Result<(Command, usize), CommandError>>)
    requires
        has_target(p),
        pos <= data@.len(),
    ensures
        match result {
            None => spec_parse_command_rest(p, grouping@, key@, data@, pos as int) is None,
            Some(Ok((c, n))) => spec_parse_command_rest(p, grouping@, key@, data@, pos as int) == Some(
                Ok::<(CommandView, nat), CommandError>((c@, n as nat)),
            ) && n <= data@.len(),
            Some(Err(e)) => spec_parse_command_rest(p, grouping@, key@, data@, pos as int) == Some(
                Err::<(CommandView, nat), CommandError>(e),
            ),
        },
{
    let _ = data.len();
    proof {
        reveal(spec_parse_command_rest);
    }
    if p == 0x02 {
        return Some(Ok((Command::InspectOne { grouping, key }, pos)));
    }
    if p == 0x07 {
        return Some(Ok((Command::RemoveOne { grouping, key }, pos)));
    }
    if p == 0x04 || p == 0x54 {
        let tail = tail_bytes(data, pos);
        assert(tail@.len() == data@.len() - pos);
        proof {
            reveal(content_part);
        }
        let (content, m) = match UnitContent::parse_checked(tail) {
            None => {
                return None;
            },
            Some(Err(e)) => {
                return Some(Err(CommandError::UnitContentErr(e)));
            },
            Some(Ok(r)) => r,
        };
        let end = pos + m;
        if p == 0x04 {
            return Some(Ok((Command::Insert { grouping, key, content }, end)));
        }
        return match read_u64_at(data, end) {
            None => None,
            Some(t) => {
                assert(spec_u64_at(data@, end as int) is Some);
                Some(Ok((
                Command::TransactionalInsert { grouping, key, content, transaction_id: TransactionId::new(t) },
                end + 8,
            )))
            },
        };
    }
    if p == 0x05 || p == 0x57 {
        return match read_u64_at(data, pos) {
            None => None,
            Some(v) => {
                if p == 0x05 {
                    Some(Ok((Command::RevertOne { grouping, key, height: ChainHeight::new(v) }, pos + 8)))
                } else {
                    Some(Ok((
                        Command::TransactionalRemoveOne { grouping, key, transaction_id: TransactionId::new(v) },
                        pos + 8,
                    )))
                }
            },
        };
    }
    let height = match read_u64_at(data, pos) {
        None => {
            return None;
        },
        Some(h) => h,
    };
    match read_u64_at(data, pos + 8) {
        None => None,
        Some(t) => Some(Ok((
            Command::TransactionalRevertOne {
                grouping,
                key,
                height: ChainHeight::new(height),
                transaction_id: TransactionId::new(t),
            },
            pos + 16,
        ))),
    }
}

/// The marshalled grouping followed by the marshalled key.
fn target_bytes(grouping: &GroupingLabel, key: &UnitKey) -> (result: Vec<u8>)
    ensures
        result@ == spec_target_bytes(grouping@, key@),
{
    let mut result = grouping.marshal();
    append_bytes(&mut result, &key.marshal());
    result
}

impl Command {
    /// Reads the command at the start of `data`, with the bytes it takes; see
    /// `spec_parse_command`.
    pub fn parse(data: &[u8]) -> (result: Result<(Command, usize), CommandError>)
        requires
            spec_parse_command(data@) is Some,
        ensures
            match result {
                Ok((c, n)) => spec_parse_command(data@) == Some(Ok::<(CommandView, nat), CommandError>((c@, n as nat))),
                Err(e) => spec_parse_command(data@) == Some(Err::<(CommandView, nat), CommandError>(e)),
            },
    {
        match Self::parse_checked(data) {
            Some(r) => r,
            None => {
                assert(false);
                Err(CommandError::InvalidPrefix)
            },
        }
    }

    /// Like `parse`, with `None` where it would read past the end.
    pub fn parse_checked(data: &[u8]) -> (result: Option<Result<(Command, usize), CommandError>>)
        ensures
            match result {
                None => spec_parse_command(data@) is None,
                Some(Ok((c, n))) => spec_parse_command(data@) == Some(Ok::<(CommandView, nat), CommandError>((c@, n as nat)))
                    && n <= data@.len(),
                Some(Err(e)) => spec_parse_command(data@) == Some(Err::<(CommandView, nat), CommandError>(e)),
            },
    {
        if data.len() == 0 {
            return None;
        }
        let p = data[0];
        if p == 0x01 {
            match SelectCondition::parse_checked(tail_bytes(data, 1)) {
                None => None,
                Some(Err(e)) => Some(Err(CommandError::SelectConditionErr(e))),
                Some(Ok((condition, n))) => Some(Ok((Command::Select { condition }, 1 + n))),
            }
        } else if p == 0x03 {
            Some(Ok((Command::InspectAll, 1)))
        } else if p == 0x08 {
            Some(Ok((Command::RemoveAll, 1)))
        } else if p == 0xc0 {
            Some(Ok((Command::CreateTransaction, 1)))
        } else if p == 0x06 || p == 0xc1 || p == 0xc2 {
            match read_u64_at(data, 1) {
                None => None,
                Some(v) => {
                    let command = if p == 0x06 {
                        Command::RevertAll { height: ChainHeight::new(v) }
                    } else if p == 0xc1 {
                        Command::TransactionCommit { transaction_id: TransactionId::new(v) }
                    } else {
                        Command::TransactionAbort { transaction_id: TransactionId::new(v) }
                    };
                    Some(Ok((command, 9)))
                },
            }
        } else if p == 0x09 {
            proof {
                reveal(spec_parse_remove_groupings);
            }
            match varint_decode(tail_bytes(data, 1)) {
                Err(e) => Some(Err(CommandError::VarIntError(e))),
                Ok((total, w)) => match parse_groupings(tail_bytes(data, 1 + w), total) {
                    None => None,
                    Some(Err(e)) => Some(Err(CommandError::GroupingErr(e))),
                    Some(Ok((groupings, m))) => Some(Ok((Command::RemoveGroupings { groupings }, 1 + w + m))),
                },
            }
        } else if p == 0x02 || p == 0x04 || p == 0x05 || p == 0x07 || p == 0x54 || p == 0x55 || p == 0x57 {
            proof {
                reveal(spec_parse_targeted);
            }
            match parse_target(data, 1) {
                None => None,
                Some(Err(e)) => Some(Err(e)),
                Some(Ok((grouping, key, pos))) => parse_command_rest(p, grouping, key, data, pos),
            }
        } else {
            Some(Err(CommandError::InvalidPrefix))
        }
    }

    pub fn marshal(&self) -> (result: Vec<u8>)
        ensures
            result@ == spec_command_bytes(self@),
    {
        match self {
            Command::Select { condition } => {
                let mut result = vec![CommandPrefix::Select.byte()];
                append_bytes(&mut result, &condition.marshal());
                result
            },
            Command::InspectOne { grouping, key } => {
                let mut result = vec![CommandPrefix::InspectOne.byte()];
                append_bytes(&mut result, &target_bytes(grouping, key));
                result
            },
            Command::InspectAll => {
                let result = vec![CommandPrefix::InspectAll.byte()];
                assert(result@ =~= spec_command_bytes(self@));
                result
            },
            Command::Insert { grouping, key, content } => {
                let mut result = vec![CommandPrefix::Insert.byte()];
                append_bytes(&mut result, &target_bytes(grouping, key));
                append_bytes(&mut result, &content.marshal());
                assert(result@ =~= spec_command_bytes(self@));
                result
            },
            Command::RevertOne { grouping, key, height } => {
                let mut result = vec![CommandPrefix::RevertOne.byte()];
                append_bytes(&mut result, &target_bytes(grouping, key));
                append_bytes(&mut result, &u64_to_u8_array(height.as_u64()));
                assert(result@ =~= spec_command_bytes(self@));
                result
            },
            Command::RevertAll { height } => {
                let mut result = vec![CommandPrefix::RevertAll.byte()];
                append_bytes(&mut result, &u64_to_u8_array(height.as_u64()));
                result
            },
            Command::RemoveOne { grouping, key } => {
                let mut result = vec![CommandPrefix::RemoveOne.byte()];
                append_bytes(&mut result, &target_bytes(grouping, key));
                result
            },
            Command::RemoveAll => {
                let result = vec![CommandPrefix::RemoveAll.byte()];
                assert(result@ =~= spec_command_bytes(self@));
                result
            },
            Command::RemoveGroupings { groupings } => {
                let mut body: Vec<u8> = Vec::new();
                let mut i: usize = 0;
                while i < groupings.len()
                    invariant
                        i <= groupings@.len(),
                        body@ == spec_groupings_bytes(labels_view(groupings@.take(i as int))),
                    decreases groupings@.len() - i,
                {
                    proof {
                        lemma_groupings_bytes_push(labels_view(groupings@.take(i as int)), groupings@[i as int]@);
                        assert(labels_view(groupings@.take(i + 1)) =~= labels_view(groupings@.take(i as int)).push(
                            groupings@[i as int]@,
                        ));
                    }
                    append_bytes(&mut body, &groupings[i].marshal());
                    i = i + 1;
                }
                assert(groupings@.take(i as int) =~= groupings@);
                let mut result = vec![CommandPrefix::RemoveGroupings.byte()];
                append_bytes(&mut result, &varint_encode(body.len() as u64));
                append_bytes(&mut result, &body);
                assert(result@ =~= spec_command_bytes(self@));
                result
            },
            Command::CreateTransaction => {
                let result = vec![CommandPrefix::CreateTransaction.byte()];
                assert(result@ =~= spec_command_bytes(self@));
                result
            },
            Command::TransactionalInsert { grouping, key, content, transaction_id } => {
                let mut result = vec![CommandPrefix::TransactionalInsert.byte()];
                append_bytes(&mut result, &target_bytes(grouping, key));
                append_bytes(&mut result, &content.marshal());
                append_bytes(&mut result, &u64_to_u8_array(transaction_id.as_u64()));
                assert(result@ =~= spec_command_bytes(self@));
                result
            },
            Command::TransactionalRevertOne { grouping, key, height, transaction_id } => {
                let mut result = vec![CommandPrefix::TransactionalRevertOne.byte()];
                append_bytes(&mut result, &target_bytes(grouping, key));
                append_bytes(&mut result, &u64_to_u8_array(height.as_u64()));
                append_bytes(&mut result, &u64_to_u8_array(transaction_id.as_u64()));
                assert(result@ =~= spec_command_bytes(self@));
                result
            },
            Command::TransactionalRemoveOne { grouping, key, transaction_id } => {
                let mut result = vec![CommandPrefix::TransactionalRemoveOne.byte()];
                append_bytes(&mut result, &target_bytes(grouping, key));
                append_bytes(&mut result, &u64_to_u8_array(transaction_id.as_u64()));
                assert(result@ =~= spec_command_bytes(self@));
                result
            },
            Command::TransactionCommit { transaction_id } => {
                let mut result = vec![CommandPrefix::TransactionCommit.byte()];
                append_bytes(&mut result, &u64_to_u8_array(transaction_id.as_u64()));
                result
            },
            Command::TransactionAbort { transaction_id } => {
                let mut result = vec![CommandPrefix::TransactionAbort.byte()];
                append_bytes(&mut result, &u64_to_u8_array(transaction_id.as_u64()));
                result
            },
        }
    }
}

/// When two select conditions are equal: the same variant with the same labels, keys and
/// ids, and equal predicates.
pub open spec fn condition_eq(a: ConditionView, b: ConditionView) -> bool {
    match (a, b) {
        (ConditionView::Key(g1, k1, t1), ConditionView::Key(g2, k2, t2)) => g1 == g2 && k1 == k2 && t1 == t2,
        (ConditionView::UnconditionalMatch(g1), ConditionView::UnconditionalMatch(g2)) => g1 == g2,
        (ConditionView::Predicate(g1, p1), ConditionView::Predicate(g2, p2)) => g1 == g2 && predicate_eq(p1, p2),
        (ConditionView::AllGrouping, ConditionView::AllGrouping) => true,
        _ => false,
    }
}

/// When two commands are equal: the same variant with the same labels, keys, heights and ids,
/// equal units and equal conditions.
pub open spec fn command_eq(a: CommandView, b: CommandView) -> bool {
    match (a, b) {
        (CommandView::Select(c1), CommandView::Select(c2)) => condition_eq(c1, c2),
        (CommandView::InspectOne(g1, k1), CommandView::InspectOne(g2, k2)) => g1 == g2 && k1 == k2,
        (CommandView::InspectAll, CommandView::InspectAll) => true,
        (CommandView::Insert(g1, k1, u1), CommandView::Insert(g2, k2, u2)) => g1 == g2 && k1 == k2 && content_eq(u1, u2),
        (CommandView::RevertOne(g1, k1, h1), CommandView::RevertOne(g2, k2, h2)) => g1 == g2 && k1 == k2 && h1 == h2,
        (CommandView::RevertAll(h1), CommandView::RevertAll(h2)) => h1 == h2,
        (CommandView::RemoveOne(g1, k1), CommandView::RemoveOne(g2, k2)) => g1 == g2 && k1 == k2,
        (CommandView::RemoveAll, CommandView::RemoveAll) => true,
        (CommandView::RemoveGroupings(gs1), CommandView::RemoveGroupings(gs2)) => gs1 == gs2,
        (CommandView::CreateTransaction, CommandView::CreateTransaction) => true,
        (CommandView::TransactionalInsert(g1, k1, u1, t1), CommandView::TransactionalInsert(g2, k2, u2, t2)) =>
            g1 == g2 && k1 == k2 && content_eq(u1, u2) && t1 == t2,
        (CommandView::TransactionalRevertOne(g1, k1, h1, t1), CommandView::TransactionalRevertOne(g2, k2, h2, t2)) =>
            g1 == g2 && k1 == k2 && h1 == h2 && t1 == t2,
        (CommandView::TransactionalRemoveOne(g1, k1, t1), CommandView::TransactionalRemoveOne(g2, k2, t2)) =>
            g1 == g2 && k1 == k2 && t1 == t2,
        (CommandView::TransactionCommit(t1), CommandView::TransactionCommit(t2)) => t1 == t2,
        (CommandView::TransactionAbort(t1), CommandView::TransactionAbort(t2)) => t1 == t2,
        _ => false,
    }
}

/// Whether two labels and two keys are the same bytes.
fn same_target(g1: &GroupingLabel, k1: &UnitKey, g2: &GroupingLabel, k2: &UnitKey) -> (result: bool)
    ensures
        result == (g1@ == g2@ && k1@ == k2@),
{
    bytes_eq(g1.as_bytes(), g2.as_bytes()) && bytes_eq(k1.as_bytes(), k2.as_bytes())
}

/// Whether two lists of groupings hold the same labels in the same order.
fn same_groupings(a: &Vec<GroupingLabel>, b: &Vec<GroupingLabel>) -> (result: bool)
    ensures
        result == (labels_view(a@) == labels_view(b@)),
{
    if a.len() != b.len() {
        assert(labels_view(a@).len() != labels_view(b@).len());
        return false;
    }
    let mut i: usize = 0;
    while i < a.len()
        invariant
            i <= a@.len(),
            a@.len() == b@.len(),
            forall|j: int| 0 <= j < i ==> a@[j]@ == b@[j]@,
        decreases a@.len() - i,
    {
        if !bytes_eq(a[i].as_bytes(), b[i].as_bytes()) {
            assert(labels_view(a@)[i as int] != labels_view(b@)[i as int]);
            return false;
        }
        i = i + 1;
    }
    assert(labels_view(a@) =~= labels_view(b@));
    true
}

/// Whether two select conditions are equal; see `condition_eq`.
pub fn condition_equals(a: &SelectCondition, b: &SelectCondition) -> (result: bool)
    ensures
        result == condition_eq(a@, b@),
{
    match (a, b) {
        (SelectCondition::Key(g1, k1, t1), SelectCondition::Key(g2, k2, t2)) => {
            let same_id = match (t1, t2) {
                (Some(x), Some(y)) => x.as_u64() == y.as_u64(),
                (None, None) => true,
                _ => false,
            };
            same_target(g1, k1, g2, k2) && same_id
        },
        (SelectCondition::UnconditionalMatch(g1), SelectCondition::UnconditionalMatch(g2)) => {
            bytes_eq(g1.as_bytes(), g2.as_bytes())
        },
        (SelectCondition::Predicate(g1, p1), SelectCondition::Predicate(g2, p2)) => {
            bytes_eq(g1.as_bytes(), g2.as_bytes()) && predicate_equals(p1, p2)
        },
        (SelectCondition::AllGrouping, SelectCondition::AllGrouping) => true,
        _ => false,
    }
}

/// Whether two commands are equal; see `command_eq`.
pub fn command_equals(a: &Command, b: &Command) -> (result: bool)
    ensures
        result == command_eq(a@, b@),
{
    match (a, b) {
        (Command::Select { condition: c1 }, Command::Select { condition: c2 }) => condition_equals(c1, c2),
        (Command::InspectOne { grouping: g1, key: k1 }, Command::InspectOne { grouping: g2, key: k2 }) => {
            same_target(g1, k1, g2, k2)
        },
        (Command::InspectAll, Command::InspectAll) => true,
        (
            Command::Insert { grouping: g1, key: k1, content: u1 },
            Command::Insert { grouping: g2, key: k2, content: u2 },
        ) => same_target(g1, k1, g2, k2) && content_equals(u1, u2),
        (
            Command::RevertOne { grouping: g1, key: k1, height: h1 },
            Command::RevertOne { grouping: g2, key: k2, height: h2 },
        ) => same_target(g1, k1, g2, k2) && h1.as_u64() == h2.as_u64(),
        (Command::RevertAll { height: h1 }, Command::RevertAll { height: h2 }) => h1.as_u64() == h2.as_u64(),
        (Command::RemoveOne { grouping: g1, key: k1 }, Command::RemoveOne { grouping: g2, key: k2 }) => {
            same_target(g1, k1, g2, k2)
        },
        (Command::RemoveAll, Command::RemoveAll) => true,
        (Command::RemoveGroupings { groupings: gs1 }, Command::RemoveGroupings { groupings: gs2 }) => {
            same_groupings(gs1, gs2)
        },
        (Command::CreateTransaction, Command::CreateTransaction) => true,
        (
            Command::TransactionalInsert { grouping: g1, key: k1, content: u1, transaction_id: t1 },
            Command::TransactionalInsert { grouping: g2, key: k2, content: u2, transaction_id: t2 },
        ) => same_target(g1, k1, g2, k2) && content_equals(u1, u2) && t1.as_u64() == t2.as_u64(),
        (
            Command::TransactionalRevertOne { grouping: g1, key: k1, height: h1, transaction_id: t1 },
            Command::TransactionalRevertOne { grouping: g2, key: k2, height: h2, transaction_id: t2 },
        ) => same_target(g1, k1, g2, k2) && h1.as_u64() == h2.as_u64() && t1.as_u64() == t2.as_u64(),
        (
            Command::TransactionalRemoveOne { grouping: g1, key: k1, transaction_id: t1 },
            Command::TransactionalRemoveOne { grouping: g2, key: k2, transaction_id: t2 },
        ) => same_target(g1, k1, g2, k2) && t1.as_u64() == t2.as_u64(),
        (Command::TransactionCommit { transaction_id: t1 }, Command::TransactionCommit { transaction_id: t2 }) => {
            t1.as_u64() == t2.as_u64()
        },
        (Command::TransactionAbort { transaction_id: t1 }, Command::TransactionAbort { transaction_id: t2 }) => {
            t1.as_u64() == t2.as_u64()
        },
        _ => false,
    }
}

impl PartialEq for SelectCondition {
    fn eq(&self, other: &Self) -> (result: bool) {
        condition_equals(self, other)
    }
}

impl PartialEqSpecImpl for SelectCondition {
    open spec fn obeys_eq_spec() -> bool {
        true
    }

    open spec fn eq_spec(&self, other: &Self) -> bool {
        condition_eq(self@, other@)
    }
}

impl PartialEq for Command {
    fn eq(&self, other: &Self) -> (result: bool) {
        command_equals(self, other)
    }
}

impl PartialEqSpecImpl for Command {
    open spec fn obeys_eq_spec() -> bool {
        true
    }

    open spec fn eq_spec(&self, other: &Self) -> bool {
        command_eq(self@, other@)
    }
}

/// A key of the store split into the grouping marshalled at its start and the unit key that
/// is the rest of its bytes; `None` where the grouping's width overruns the key.
pub open spec fn spec_split_key(key: Seq<u8>) -> Option<Result<(Seq<u8>, Seq<u8>), CommandError>> {
    match GroupingLabel::spec_parse(key) {
        None => None,
        Some(Err(e)) => Some(Err(CommandError::GroupingErr(e))),
        Some(Ok((g, n))) => Some(Ok((g, key.subrange(n as int, key.len() as int)))),
    }
}

/// The command that an instruction of the log records; `None` where a key's grouping or a
/// value's unit overruns its bytes.
pub open spec fn spec_command_of_instruction(i: InstructionView) -> Option<Result<CommandView, CommandError>> {
    match i {
        InstructionView::Put { key, value } => match spec_split_key(key) {
            None => None,
            Some(Err(e)) => Some(Err(e)),
            Some(Ok((g, k))) => match content_part(value) {
                None => None,
                Some(Err(e)) => Some(Err(CommandError::UnitContentErr(e))),
                Some(Ok((u, _))) => Some(Ok(CommandView::Insert(g, k, u))),
            },
        },
        InstructionView::RevertOne { key, height } => match spec_split_key(key) {
            None => None,
            Some(Err(e)) => Some(Err(e)),
            Some(Ok((g, k))) => Some(Ok(CommandView::RevertOne(g, k, height))),
        },
        InstructionView::RevertAll { height } => Some(Ok(CommandView::RevertAll(height))),
        InstructionView::RemoveOne { key } => match spec_split_key(key) {
            None => None,
            Some(Err(e)) => Some(Err(e)),
            Some(Ok((g, k))) => Some(Ok(CommandView::RemoveOne(g, k))),
        },
        InstructionView::RemoveAll => Some(Ok(CommandView::RemoveAll)),
        InstructionView::TransactionStart { .. } => Some(Ok(CommandView::CreateTransaction)),
        InstructionView::TransactionalSet { key, value, transaction_id } => match spec_split_key(key) {
            None => None,
            Some(Err(e)) => Some(Err(e)),
            Some(Ok((g, k))) => match content_part(value) {
                None => None,
                Some(Err(e)) => Some(Err(CommandError::UnitContentErr(e))),
                Some(Ok((u, _))) => Some(Ok(CommandView::TransactionalInsert(g, k, u, transaction_id))),
            },
        },
        InstructionView::TransactionalRevertOne { key, height, transaction_id } => match spec_split_key(key) {
            None => None,
            Some(Err(e)) => Some(Err(e)),
            Some(Ok((g, k))) => Some(Ok(CommandView::TransactionalRevertOne(g, k, height, transaction_id))),
        },
        InstructionView::TransactionalRemoveOne { key, transaction_id } => match spec_split_key(key) {
            None => None,
            Some(Err(e)) => Some(Err(e)),
            Some(Ok((g, k))) => Some(Ok(CommandView::TransactionalRemoveOne(g, k, transaction_id))),
        },
        InstructionView::TransactionCommit { transaction_id } => Some(Ok(CommandView::TransactionCommit(transaction_id))),
        InstructionView::TransactionAbort { transaction_id } => Some(Ok(CommandView::TransactionAbort(transaction_id))),
    }
}

/// Splits a key of the store; see `spec_split_key`.
fn split_key(key: &KVKey) -> (result: Option<Result<(GroupingLabel, UnitKey), CommandError>>)
    ensures
        match result {
            None => spec_split_key(key@) is None,
            Some(Ok((g, k))) => spec_split_key(key@) == Some(Ok::<(Seq<u8>, Seq<u8>), CommandError>((g@, k@))),
            Some(Err(e)) => spec_split_key(key@) == Some(Err::<(Seq<u8>, Seq<u8>), CommandError>(e)),
        },
{
    let bytes = key.as_bytes();
    match GroupingLabel::parse_checked(bytes) {
        None => None,
        Some(Err(e)) => Some(Err(CommandError::GroupingErr(e))),
        Some(Ok((grouping, n))) => Some(Ok((grouping, UnitKey::new(tail_bytes(bytes, n))))),
    }
}

/// Reads a value of the store as a unit; see `content_part`.
fn value_content(value: &KVValue) -> (result: Option<Result<UnitContent, CommandError>>)
    ensures
        match result {
            None => content_part(value@) is None,
            Some(Ok(u)) => content_part(value@) matches Some(Ok((v, _))) && v == u@,
            Some(Err(e)) => content_part(value@) matches Some(Err(f)) && e == CommandError::UnitContentErr(f),
        },
{
    proof {
        reveal(content_part);
    }
    match UnitContent::parse_checked(value.as_bytes()) {
        None => None,
        Some(Err(e)) => Some(Err(CommandError::UnitContentErr(e))),
        Some(Ok((content, _))) => Some(Ok(content)),
    }
}

impl Command {
    /// The command that an instruction of the log records; see
    /// `spec_command_of_instruction`.
    pub fn try_from(instruction: &Instruction) -> (result: Result<Command, CommandError>)
        requires
            spec_command_of_instruction(instruction@) is Some,
        ensures
            match result {
                Ok(c) => spec_command_of_instruction(instruction@) == Some(Ok::<CommandView, CommandError>(c@)),
                Err(e) => spec_command_of_instruction(instruction@) == Some(Err::<CommandView, CommandError>(e)),
            },
    {
        match Self::try_from_checked(instruction) {
            Some(r) => r,
            None => {
                assert(false);
                Err(CommandError::InvalidPrefix)
            },
        }
    }

    /// Like `try_from`, with `None` where a key's grouping or a value's unit overruns its bytes.
    pub fn try_from_checked(instruction: &Instruction) -> (result: Option<Result<Command, CommandError>>)
        ensures
            match result {
                None => spec_command_of_instruction(instruction@) is None,
                Some(Ok(c)) => spec_command_of_instruction(instruction@) == Some(Ok::<CommandView, CommandError>(c@)),
                Some(Err(e)) => spec_command_of_instruction(instruction@) == Some(Err::<CommandView, CommandError>(e)),
            },
    {
        match instruction {
            Instruction::Put { key, value } => {
                let (grouping, key) = match split_key(key) {
                    None => {
                        return None;
                    },
                    Some(Err(e)) => {
                        return Some(Err(e));
                    },
                    Some(Ok(r)) => r,
                };
                match value_content(value) {
                    None => None,
                    Some(Err(e)) => Some(Err(e)),
                    Some(Ok(content)) => Some(Ok(Command::Insert { grouping, key, content })),
                }
            },
            Instruction::RevertOne { key, height } => match split_key(key) {
                None => None,
                Some(Err(e)) => Some(Err(e)),
                Some(Ok((grouping, key))) => Some(Ok(Command::RevertOne { grouping, key, height: *height })),
            },
            Instruction::RevertAll { height } => Some(Ok(Command::RevertAll { height: *height })),
            Instruction::RemoveOne { key } => match split_key(key) {
                None => None,
                Some(Err(e)) => Some(Err(e)),
                Some(Ok((grouping, key))) => Some(Ok(Command::RemoveOne { grouping, key })),
            },
            Instruction::RemoveAll => Some(Ok(Command::RemoveAll)),
            Instruction::TransactionStart { .. } => Some(Ok(Command::CreateTransaction)),
            Instruction::TransactionalSet { key, value, transaction_id } => {
                let (grouping, key) = match split_key(key) {
                    None => {
                        return None;
                    },
                    Some(Err(e)) => {
                        return Some(Err(e));
                    },
                    Some(Ok(r)) => r,
                };
                match value_content(value) {
                    None => None,
                    Some(Err(e)) => Some(Err(e)),
                    Some(Ok(content)) => Some(
                        Ok(Command::TransactionalInsert { grouping, key, content, transaction_id: *transaction_id }),
                    ),
                }
            },
            Instruction::TransactionalRevertOne { key, height, transaction_id } => match split_key(key) {
                None => None,
                Some(Err(e)) => Some(Err(e)),
                Some(Ok((grouping, key))) => Some(
                    Ok(Command::TransactionalRevertOne { grouping, key, height: *height, transaction_id: *transaction_id }),
                ),
            },
            Instruction::TransactionalRemoveOne { key, transaction_id } => match split_key(key) {
                None => None,
                Some(Err(e)) => Some(Err(e)),
                Some(Ok((grouping, key))) => Some(
                    Ok(Command::TransactionalRemoveOne { grouping, key, transaction_id: *transaction_id }),
                ),
            },
            Instruction::TransactionCommit { transaction_id } => Some(
                Ok(Command::TransactionCommit { transaction_id: *transaction_id }),
            ),
            Instruction::TransactionAbort { transaction_id } => Some(
                Ok(Command::TransactionAbort { transaction_id: *transaction_id }),
            ),
        }
    }
}

} // verus!
