//! What the executor answers to a command, with its byte form.

use vstd::prelude::*;
use vstd::std_specs::cmp::PartialEqSpecImpl;
use crate::storage::chain_height::ChainHeight;
use crate::storage::executor::command::{
    command_eq, command_equals, read_u64_at, spec_command_bytes, spec_parse_command, spec_u64_at, Command,
    CommandView,
};
use crate::storage::executor::command_error::CommandError;
use crate::storage::executor::grouping_label::{GroupingLabel, GroupingLabelError};
use crate::storage::executor::unit_content::{
    content_eq, content_equals, contents_view, lemma_contents_view_all, spec_content_bytes, spec_items_bytes, spec_parse_content, ContentView,
    UnitContent, UnitContentError,
};
use crate::storage::transaction_manager::TransactionId;
use crate::utils::bytes::{append_bytes, bytes_eq, tail_bytes};
use crate::utils::ints::{spec_u64_le, u64_to_u8_array};
use crate::utils::varint::{spec_varint_decode, spec_varint_encode, varint_decode, varint_encode, VarIntError};

verus! {

#[derive(Debug, Clone, PartialEq, Eq, Structural)]
pub enum OutcomeError {
    UnexpectedPrefix,
    VarIntError(VarIntError),
    UnitContentError(UnitContentError),
    CommandError(CommandError),
    GroupingLabelError(GroupingLabelError),
}

/// The first byte of each outcome's byte form.
#[derive(Debug, Clone, Copy, PartialEq, Eq, Structural)]
pub enum OutcomePrefix {
    SelectSuccess,
    InspectOneSuccess,
    InspectAllSuccess,
    InsertSuccess,
    RevertOneSuccess,
    RevertAllSuccess,
    RemoveOneSuccess,
    RemoveAllSuccess,
    GetAllGroupingsSuccess,
    DeleteGroupingSuccess,
    TransactionalInsertSuccess,
    TransactionalRevertOneSuccess,
    TransactionalRemoveOneSuccess,
    CreateTransactionSuccess,
    TransactionCommitSuccess,
    TransactionAbortSuccess,
}

impl OutcomePrefix {
    pub open spec fn spec_byte(self) -> u8 {
        match self {
            OutcomePrefix::SelectSuccess => 0x11,
            OutcomePrefix::InspectOneSuccess => 0x12,
            OutcomePrefix::InspectAllSuccess => 0x13,
            OutcomePrefix::InsertSuccess => 0x14,
            OutcomePrefix::RevertOneSuccess => 0x15,
            OutcomePrefix::RevertAllSuccess => 0x16,
            OutcomePrefix::RemoveOneSuccess => 0x17,
            OutcomePrefix::RemoveAllSuccess => 0x18,
            OutcomePrefix::GetAllGroupingsSuccess => 0x19,
            OutcomePrefix::DeleteGroupingSuccess => 0x1a,
            OutcomePrefix::TransactionalInsertSuccess => 0x64,
            OutcomePrefix::TransactionalRevertOneSuccess => 0x65,
            OutcomePrefix::TransactionalRemoveOneSuccess => 0x67,
            OutcomePrefix::CreateTransactionSuccess => 0xd0,
            OutcomePrefix::TransactionCommitSuccess => 0xd1,
            OutcomePrefix::TransactionAbortSuccess => 0xd2,
        }
    }

    pub fn byte(&self) -> (result: u8)
        ensures
            result == self.spec_byte(),
    {
        match self {
            OutcomePrefix::SelectSuccess => 0x11,
            OutcomePrefix::InspectOneSuccess => 0x12,
            OutcomePrefix::InspectAllSuccess => 0x13,
            OutcomePrefix::InsertSuccess => 0x14,
            OutcomePrefix::RevertOneSuccess => 0x15,
            OutcomePrefix::RevertAllSuccess => 0x16,
            OutcomePrefix::RemoveOneSuccess => 0x17,
            OutcomePrefix::RemoveAllSuccess => 0x18,
            OutcomePrefix::GetAllGroupingsSuccess => 0x19,
            OutcomePrefix::DeleteGroupingSuccess => 0x1a,
            OutcomePrefix::TransactionalInsertSuccess => 0x64,
            OutcomePrefix::TransactionalRevertOneSuccess => 0x65,
            OutcomePrefix::TransactionalRemoveOneSuccess => 0x67,
            OutcomePrefix::CreateTransactionSuccess => 0xd0,
            OutcomePrefix::TransactionCommitSuccess => 0xd1,
            OutcomePrefix::TransactionAbortSuccess => 0xd2,
        }
    }
}

/// The answer of the executor to a command.
#[derive(Debug)]
pub enum Outcome {
    Select(Vec<UnitContent>),
    InspectOne(Vec<(Command, ChainHeight)>),
    InspectAll(Vec<(Command, ChainHeight)>),
    InsertSuccess,
    RevertOneSuccess,
    RevertAllSuccess,
    RemoveOneSuccess,
    RemoveAllSuccess,
    GetAllGroupingsSuccess(Vec<GroupingLabel>),
    DeleteGroupingSuccess,
    CreateTransaction(TransactionId),
    TransactionalInsertSuccess,
    TransactionalRevertOneSuccess,
    TransactionalRemoveOneSuccess,
    TransactionCommitSuccess,
    TransactionAbortSuccess,
}

/// An outcome as plain values.
pub enum OutcomeView {
    Select(Seq<ContentView>),
    InspectOne(Seq<(CommandView, u64)>),
    InspectAll(Seq<(CommandView, u64)>),
    InsertSuccess,
    RevertOneSuccess,
    RevertAllSuccess,
    RemoveOneSuccess,
    RemoveAllSuccess,
    GetAllGroupingsSuccess(Seq<Seq<u8>>),
    DeleteGroupingSuccess,
    CreateTransaction(u64),
    TransactionalInsertSuccess,
    TransactionalRevertOneSuccess,
    TransactionalRemoveOneSuccess,
    TransactionCommitSuccess,
    TransactionAbortSuccess,
}

/// Commands with the heights at which they were recorded, as plain values.
pub open spec fn history_view(entries: Seq<(Command, ChainHeight)>) -> Seq<(CommandView, u64)> {
    entries.map_values(|e: (Command, ChainHeight)| (e.0@, e.1@))
}

/// Labels as their bytes.
pub open spec fn groupings_view(groupings: Seq<GroupingLabel>) -> Seq<Seq<u8>> {
    groupings.map_values(|g: GroupingLabel| g@)
}

impl View for Outcome {
    type V = OutcomeView;

    open spec fn view(&self) -> OutcomeView {
        match self {
            Outcome::Select(contents) => OutcomeView::Select(contents_view(contents@)),
            Outcome::InspectOne(entries) => OutcomeView::InspectOne(history_view(entries@)),
            Outcome::InspectAll(entries) => OutcomeView::InspectAll(history_view(entries@)),
            Outcome::InsertSuccess => OutcomeView::InsertSuccess,
            Outcome::RevertOneSuccess => OutcomeView::RevertOneSuccess,
            Outcome::RevertAllSuccess => OutcomeView::RevertAllSuccess,
            Outcome::RemoveOneSuccess => OutcomeView::RemoveOneSuccess,
            Outcome::RemoveAllSuccess => OutcomeView::RemoveAllSuccess,
            Outcome::GetAllGroupingsSuccess(groupings) => OutcomeView::GetAllGroupingsSuccess(groupings_view(groupings@)),
            Outcome::DeleteGroupingSuccess => OutcomeView::DeleteGroupingSuccess,
            Outcome::CreateTransaction(t) => OutcomeView::CreateTransaction(t@),
            Outcome::TransactionalInsertSuccess => OutcomeView::TransactionalInsertSuccess,
            Outcome::TransactionalRevertOneSuccess => OutcomeView::TransactionalRevertOneSuccess,
            Outcome::TransactionalRemoveOneSuccess => OutcomeView::TransactionalRemoveOneSuccess,
            Outcome::TransactionCommitSuccess => OutcomeView::TransactionCommitSuccess,
            Outcome::TransactionAbortSuccess => OutcomeView::TransactionAbortSuccess,
        }
    }
}

/// The byte forms of commands, each followed by its height as eight little-endian bytes.
pub open spec fn spec_history_bytes(entries: Seq<(CommandView, u64)>) -> Seq<u8>
    decreases entries.len(),
{
    if entries.len() == 0 {
        Seq::empty()
    } else {
        spec_history_bytes(entries.drop_last()) + spec_command_bytes(entries.last().0) + spec_u64_le(entries.last().1)
    }
}

/// The marshalled labels, one after the other.
pub open spec fn spec_labels_bytes(groupings: Seq<Seq<u8>>) -> Seq<u8>
    decreases groupings.len(),
{
    if groupings.len() == 0 {
        Seq::empty()
    } else {
        spec_labels_bytes(groupings.drop_last()) + GroupingLabel::spec_marshal(groupings.last())
    }
}

/// The byte form of an outcome: its prefix; for a list, the number of its items as a varint
/// followed by the items' byte forms; for a new transaction, its id as eight little-endian
/// bytes.
pub open spec fn spec_outcome_bytes(o: OutcomeView) -> Seq<u8> {
    match o {
        OutcomeView::Select(us) => seq![0x11u8] + spec_varint_encode(us.len() as u64) + spec_items_bytes(us),
        OutcomeView::InspectOne(es) => seq![0x12u8] + spec_varint_encode(es.len() as u64) + spec_history_bytes(es),
        OutcomeView::InspectAll(es) => seq![0x13u8] + spec_varint_encode(es.len() as u64) + spec_history_bytes(es),
        OutcomeView::InsertSuccess => seq![0x14u8],
        OutcomeView::RevertOneSuccess => seq![0x15u8],
        OutcomeView::RevertAllSuccess => seq![0x16u8],
        OutcomeView::RemoveOneSuccess => seq![0x17u8],
        OutcomeView::RemoveAllSuccess => seq![0x18u8],
        OutcomeView::GetAllGroupingsSuccess(gs) => seq![0x19u8] + spec_varint_encode(gs.len() as u64) + spec_labels_bytes(gs),
        OutcomeView::DeleteGroupingSuccess => seq![0x1au8],
        OutcomeView::CreateTransaction(t) => seq![0xd0u8] + spec_u64_le(t),
        OutcomeView::TransactionalInsertSuccess => seq![0x64u8],
        OutcomeView::TransactionalRevertOneSuccess => seq![0x65u8],
        OutcomeView::TransactionalRemoveOneSuccess => seq![0x67u8],
        OutcomeView::TransactionCommitSuccess => seq![0xd1u8],
        OutcomeView::TransactionAbortSuccess => seq![0xd2u8],
    }
}

/// What `UnitContent::parse` gives; kept folded in the specifications of this module.
#[verifier::opaque]
pub open spec fn unit_part(data: Seq<u8>) -> Option<Result<(ContentView, nat), UnitContentError>> {
    spec_parse_content(data)
}

/// What `Command::parse` gives; kept folded in the specifications of this module.
#[verifier::opaque]
pub open spec fn command_part(data: Seq<u8>) -> Option<Result<(CommandView, nat), CommandError>> {
    spec_parse_command(data)
}

/// Adds `prefix` in front of the items that were read and `consumed` to the bytes they took.
pub open spec fn prepend_read<T>(prefix: Seq<T>, consumed: nat, r: Option<Result<(Seq<T>, nat), OutcomeError>>) -> Option<Result<(Seq<T>, nat), OutcomeError>> {
    match r {
        None => None,
        Some(Err(e)) => Some(Err(e)),
        Some(Ok((xs, k))) => Some(Ok((prefix + xs, consumed + k))),
    }
}

/// `n` units read one after another, with the bytes they take; `None` where one overruns
/// the bytes.
pub open spec fn spec_parse_units(data: Seq<u8>, n: nat) -> Option<Result<(Seq<ContentView>, nat), OutcomeError>>
    decreases n,
{
    if n == 0 {
        Some(Ok((Seq::empty(), 0nat)))
    } else {
        match unit_part(data) {
            None => None,
            Some(Err(e)) => Some(Err(OutcomeError::UnitContentError(e))),
            Some(Ok((u, m))) => prepend_read(seq![u], m, spec_parse_units(data.subrange(m as int, data.len() as int), (n - 1) as nat)),
        }
    }
}

/// `n` commands, each followed by its height, read one after another; `None` where one
/// overruns the bytes.
pub open spec fn spec_parse_history(data: Seq<u8>, n: nat) -> Option<Result<(Seq<(CommandView, u64)>, nat), OutcomeError>>
    decreases n,
{
    if n == 0 {
        Some(Ok((Seq::empty(), 0nat)))
    } else {
        match command_part(data) {
            None => None,
            Some(Err(e)) => Some(Err(OutcomeError::CommandError(e))),
            Some(Ok((c, m))) => match spec_u64_at(data, m as int) {
                None => None,
                Some(h) => prepend_read(
                    seq![(c, h)],
                    m + 8,
                    spec_parse_history(data.subrange(m + 8int, data.len() as int), (n - 1) as nat),
                ),
            },
        }
    }
}

/// `n` labels read one after another; `None` where one overruns the bytes.
pub open spec fn spec_parse_labels(data: Seq<u8>, n: nat) -> Option<Result<(Seq<Seq<u8>>, nat), OutcomeError>>
    decreases n,
{
    if n == 0 {
        Some(Ok((Seq::empty(), 0nat)))
    } else {
        match GroupingLabel::spec_parse(data) {
            None => None,
            Some(Err(e)) => Some(Err(OutcomeError::GroupingLabelError(e))),
            Some(Ok((g, m))) => prepend_read(seq![g], m, spec_parse_labels(data.subrange(m as int, data.len() as int), (n - 1) as nat)),
        }
    }
}

/// A list outcome with prefix `p`: the number of items as a varint, then the items.
#[verifier::opaque]
pub open spec fn spec_parse_list_outcome(p: u8, data: Seq<u8>) -> Option<Result<(OutcomeView, nat), OutcomeError>> {
    match spec_varint_decode(data.subrange(1, data.len() as int)) {
        Err(e) => Some(Err(OutcomeError::VarIntError(e))),
        Ok((n, w)) => {
            let body = data.subrange(1 + w as int, data.len() as int);
            if p == 0x11 {
                match spec_parse_units(body, n as nat) {
                    None => None,
                    Some(Err(e)) => Some(Err(e)),
                    Some(Ok((us, k))) => Some(Ok((OutcomeView::Select(us), 1 + w + k))),
                }
            } else if p == 0x19 {
                match spec_parse_labels(body, n as nat) {
                    None => None,
                    Some(Err(e)) => Some(Err(e)),
                    Some(Ok((gs, k))) => Some(Ok((OutcomeView::GetAllGroupingsSuccess(gs), 1 + w + k))),
                }
            } else {
                match spec_parse_history(body, n as nat) {
                    None => None,
                    Some(Err(e)) => Some(Err(e)),
                    Some(Ok((es, k))) => Some(Ok((
                        if p == 0x12 { OutcomeView::InspectOne(es) } else { OutcomeView::InspectAll(es) },
                        1 + w + k,
                    ))),
                }
            }
        },
    }
}

/// The outcome without fields whose prefix is `p`, if there is one.
pub open spec fn bare_outcome(p: u8) -> Option<OutcomeView> {
    if p == 0x14 {
        Some(OutcomeView::InsertSuccess)
    } else if p == 0x15 {
        Some(OutcomeView::RevertOneSuccess)
    } else if p == 0x16 {
        Some(OutcomeView::RevertAllSuccess)
    } else if p == 0x17 {
        Some(OutcomeView::RemoveOneSuccess)
    } else if p == 0x18 {
        Some(OutcomeView::RemoveAllSuccess)
    } else if p == 0x1a {
        Some(OutcomeView::DeleteGroupingSuccess)
    } else if p == 0x64 {
        Some(OutcomeView::TransactionalInsertSuccess)
    } else if p == 0x65 {
        Some(OutcomeView::TransactionalRevertOneSuccess)
    } else if p == 0x67 {
        Some(OutcomeView::TransactionalRemoveOneSuccess)
    } else if p == 0xd1 {
        Some(OutcomeView::TransactionCommitSuccess)
    } else if p == 0xd2 {
        Some(OutcomeView::TransactionAbortSuccess)
    } else {
        None
    }
}

/// What `Outcome::parse` gives for `data`, with the bytes it takes; `None` where it would read
/// past the end.
pub open spec fn spec_parse_outcome(data: Seq<u8>) -> Option<Result<(OutcomeView, nat), OutcomeError>> {
    if data.len() == 0 {
        None
    } else {
        let p = data[0];
        if p == 0x11 || p == 0x12 || p == 0x13 || p == 0x19 {
            spec_parse_list_outcome(p, data)
        } else if p == 0xd0 {
            match spec_u64_at(data, 1) {
                None => None,
                Some(t) => Some(Ok((OutcomeView::CreateTransaction(t), 9nat))),
            }
        } else {
            match bare_outcome(p) {
                Some(o) => Some(Ok((o, 1nat))),
                None => Some(Err(OutcomeError::UnexpectedPrefix)),
            }
        }
    }
}

/// Reads `n` units one after another; see `spec_parse_units`.
fn parse_units(data: &[u8], n: u64) -> (result: Option<Result<(Vec<UnitContent>, usize), OutcomeError>>)
    ensures
        match result {
            None => spec_parse_units(data@, n as nat) is None,
            Some(Ok((us, k))) => spec_parse_units(data@, n as nat) == Some(
                Ok::<(Seq<ContentView>, nat), OutcomeError>((contents_view(us@), k as nat)),
            ) && k <= data@.len(),
            Some(Err(e)) => spec_parse_units(data@, n as nat) == Some(Err::<(Seq<ContentView>, nat), OutcomeError>(e)),
        },
{
    let _ = data.len();
    let mut result: Vec<UnitContent> = Vec::new();
    let mut pos: usize = 0;
    let mut i: u64 = 0;
    assert(contents_view(result@) =~= Seq::<ContentView>::empty());
    assert(data@.subrange(0, data@.len() as int) =~= data@);
    while i < n
        invariant
            pos <= data@.len(),
            data@.len() <= usize::MAX,
            i <= n,
            spec_parse_units(data@, n as nat) == prepend_read(
                contents_view(result@),
                pos as nat,
                spec_parse_units(data@.subrange(pos as int, data@.len() as int), (n - i) as nat),
            ),
        decreases n - i,
    {
        let tail = tail_bytes(data, pos);
        assert(tail@.len() == data@.len() - pos);
        proof {
            reveal(unit_part);
        }
        match UnitContent::parse_checked(tail) {
            None => {
                return None;
            },
            Some(Err(e)) => {
                return Some(Err(OutcomeError::UnitContentError(e)));
            },
            Some(Ok((u, m))) => {
                let ghost before = contents_view(result@);
                let ghost old_seq = result@;
                proof {
                    let rest = tail@.subrange(m as int, tail@.len() as int);
                    assert(rest =~= data@.subrange(pos + m, data@.len() as int));
                    match spec_parse_units(rest, (n - i - 1) as nat) {
                        Some(Ok((us, k))) => {
                            assert(before.push(u@) + us =~= before + (seq![u@] + us));
                        },
                        _ => {},
                    }
                }
                result.push(u);
                proof {
                    assert(result@.drop_last() =~= old_seq);
                }
                pos = pos + m;
                i = i + 1;
            },
        }
    }
    assert(contents_view(result@) + Seq::<ContentView>::empty() =~= contents_view(result@));
    Some(Ok((result, pos)))
}

/// Reads `n` commands, each followed by its height; see `spec_parse_history`.
fn parse_history(data: &[u8], n: u64) -> (result: Option<Result<(Vec<(Command, ChainHeight)>, usize), OutcomeError>>)
    ensures
        match result {
            None => spec_parse_history(data@, n as nat) is None,
            Some(Ok((es, k))) => spec_parse_history(data@, n as nat) == Some(
                Ok::<(Seq<(CommandView, u64)>, nat), OutcomeError>((history_view(es@), k as nat)),
            ) && k <= data@.len(),
            Some(Err(e)) => spec_parse_history(data@, n as nat) == Some(
                Err::<(Seq<(CommandView, u64)>, nat), OutcomeError>(e),
            ),
        },
{
    let _ = data.len();
    let mut result: Vec<(Command, ChainHeight)> = Vec::new();
    let mut pos: usize = 0;
    let mut i: u64 = 0;
    assert(history_view(result@) =~= Seq::<(CommandView, u64)>::empty());
    assert(data@.subrange(0, data@.len() as int) =~= data@);
    while i < n
        invariant
            pos <= data@.len(),
            data@.len() <= usize::MAX,
            i <= n,
            spec_parse_history(data@, n as nat) == prepend_read(
                history_view(result@),
                pos as nat,
                spec_parse_history(data@.subrange(pos as int, data@.len() as int), (n - i) as nat),
            ),
        decreases n - i,
    {
        let tail = tail_bytes(data, pos);
        assert(tail@.len() == data@.len() - pos);
        proof {
            reveal(command_part);
        }
        match Command::parse_checked(tail) {
            None => {
                return None;
            },
            Some(Err(e)) => {
                return Some(Err(OutcomeError::CommandError(e)));
            },
            Some(Ok((c, m))) => {
                let h = match read_u64_at(tail, m) {
                    None => {
                        return None;
                    },
                    Some(h) => h,
                };
                assert(spec_u64_at(tail@, m as int) is Some);
                let ghost before = history_view(result@);
                let ghost entry = (c@, h);
                proof {
                    let rest = tail@.subrange(m + 8int, tail@.len() as int);
                    assert(rest =~= data@.subrange(pos + m + 8, data@.len() as int));
                    match spec_parse_history(rest, (n - i - 1) as nat) {
                        Some(Ok((es, k))) => {
                            assert(before.push(entry) + es =~= before + (seq![entry] + es));
                        },
                        _ => {},
                    }
                }
                result.push((c, ChainHeight::new(h)));
                proof {
                    assert(history_view(result@) =~= before.push(entry));
                }
                pos = pos + m + 8;
                i = i + 1;
            },
        }
    }
    assert(history_view(result@) + Seq::<(CommandView, u64)>::empty() =~= history_view(result@));
    Some(Ok((result, pos)))
}

/// Reads `n` labels one after another; see `spec_parse_labels`.
fn parse_labels(data: &[u8], n: u64) -> (result: Option<Result<(Vec<GroupingLabel>, usize), OutcomeError>>)
    ensures
        match result {
            None => spec_parse_labels(data@, n as nat) is None,
            Some(Ok((gs, k))) => spec_parse_labels(data@, n as nat) == Some(
                Ok::<(Seq<Seq<u8>>, nat), OutcomeError>((groupings_view(gs@), k as nat)),
            ) && k <= data@.len(),
            Some(Err(e)) => spec_parse_labels(data@, n as nat) == Some(Err::<(Seq<Seq<u8>>, nat), OutcomeError>(e)),
        },
{
    let _ = data.len();
    let mut result: Vec<GroupingLabel> = Vec::new();
    let mut pos: usize = 0;
    let mut i: u64 = 0;
    assert(groupings_view(result@) =~= Seq::<Seq<u8>>::empty());
    assert(data@.subrange(0, data@.len() as int) =~= data@);
    while i < n
        invariant
            pos <= data@.len(),
            data@.len() <= usize::MAX,
            i <= n,
            spec_parse_labels(data@, n as nat) == prepend_read(
                groupings_view(result@),
                pos as nat,
                spec_parse_labels(data@.subrange(pos as int, data@.len() as int), (n - i) as nat),
            ),
        decreases n - i,
    {
        let tail = tail_bytes(data, pos);
        assert(tail@.len() == data@.len() - pos);
        match GroupingLabel::parse_checked(tail) {
            None => {
                return None;
            },
            Some(Err(e)) => {
                return Some(Err(OutcomeError::GroupingLabelError(e)));
            },
            Some(Ok((g, m))) => {
                let ghost before = groupings_view(result@);
                let ghost label = g@;
                proof {
                    let rest = tail@.subrange(m as int, tail@.len() as int);
                    assert(rest =~= data@.subrange(pos + m, data@.len() as int));
                    match spec_parse_labels(rest, (n - i - 1) as nat) {
                        Some(Ok((gs, k))) => {
                            assert(before.push(label) + gs =~= before + (seq![label] + gs));
                        },
                        _ => {},
                    }
                }
                result.push(g);
                proof {
                    assert(groupings_view(result@) =~= before.push(label));
                }
                pos = pos + m;
                i = i + 1;
            },
        }
    }
    assert(groupings_view(result@) + Seq::<Seq<u8>>::empty() =~= groupings_view(result@));
    Some(Ok((result, pos)))
}

impl Outcome {
    /// Reads the outcome at the start of `data`, with the bytes it takes; see
    /// `spec_parse_outcome`.
    pub fn parse(data: &[u8]) -> (result: Result<(Outcome, usize), OutcomeError>)
        requires
            spec_parse_outcome(data@) is Some,
        ensures
            match result {
                Ok((o, n)) => spec_parse_outcome(data@) == Some(Ok::<(OutcomeView, nat), OutcomeError>((o@, n as nat))),
                Err(e) => spec_parse_outcome(data@) == Some(Err::<(OutcomeView, nat), OutcomeError>(e)),
            },
    {
        match Self::parse_checked(data) {
            Some(r) => r,
            None => {
                assert(false);
                Err(OutcomeError::UnexpectedPrefix)
            },
        }
    }

    /// Like `parse`, with `None` where it would read past the end.
    pub fn parse_checked(data: &[u8]) -> (result: Option<Result<(Outcome, usize), OutcomeError>>)
        ensures
            match result {
                None => spec_parse_outcome(data@) is None,
                Some(Ok((o, n))) => spec_parse_outcome(data@) == Some(Ok::<(OutcomeView, nat), OutcomeError>((o@, n as nat)))
                    && n <= data@.len(),
                Some(Err(e)) => spec_parse_outcome(data@) == Some(Err::<(OutcomeView, nat), OutcomeError>(e)),
            },
    {
        let _ = data.len();
        if data.len() == 0 {
            return None;
        }
        let p = data[0];
        if p == 0x11 || p == 0x12 || p == 0x13 || p == 0x19 {
            proof {
                reveal(spec_parse_list_outcome);
            }
            let (n, w) = match varint_decode(tail_bytes(data, 1)) {
                Err(e) => {
                    return Some(Err(OutcomeError::VarIntError(e)));
                },
                Ok(r) => r,
            };
            let body = tail_bytes(data, 1 + w);
            assert(body@.len() == data@.len() - 1 - w);
            if p == 0x11 {
                match parse_units(body, n) {
                    None => None,
                    Some(Err(e)) => Some(Err(e)),
                    Some(Ok((units, k))) => Some(Ok((Outcome::Select(units), 1 + w + k))),
                }
            } else if p == 0x19 {
                match parse_labels(body, n) {
                    None => None,
                    Some(Err(e)) => Some(Err(e)),
                    Some(Ok((groupings, k))) => Some(Ok((Outcome::GetAllGroupingsSuccess(groupings), 1 + w + k))),
                }
            } else {
                match parse_history(body, n) {
                    None => None,
                    Some(Err(e)) => Some(Err(e)),
                    Some(Ok((entries, k))) => {
                        let outcome = if p == 0x12 {
                            Outcome::InspectOne(entries)
                        } else {
                            Outcome::InspectAll(entries)
                        };
                        Some(Ok((outcome, 1 + w + k)))
                    },
                }
            }
        } else if p == 0xd0 {
            match read_u64_at(data, 1) {
                None => None,
                Some(t) => Some(Ok((Outcome::CreateTransaction(TransactionId::new(t)), 9))),
            }
        } else {
            let outcome = if p == 0x14 {
                Outcome::InsertSuccess
            } else if p == 0x15 {
                Outcome::RevertOneSuccess
            } else if p == 0x16 {
                Outcome::RevertAllSuccess
            } else if p == 0x17 {
                Outcome::RemoveOneSuccess
            } else if p == 0x18 {
                Outcome::RemoveAllSuccess
            } else if p == 0x1a {
                Outcome::DeleteGroupingSuccess
            } else if p == 0x64 {
                Outcome::TransactionalInsertSuccess
            } else if p == 0x65 {
                Outcome::TransactionalRevertOneSuccess
            } else if p == 0x67 {
                Outcome::TransactionalRemoveOneSuccess
            } else if p == 0xd1 {
                Outcome::TransactionCommitSuccess
            } else if p == 0xd2 {
                Outcome::TransactionAbortSuccess
            } else {
                return Some(Err(OutcomeError::UnexpectedPrefix));
            };
            Some(Ok((outcome, 1)))
        }
    }

    pub fn marshal(&self) -> (result: Vec<u8>)
        ensures
            result@ == spec_outcome_bytes(self@),
    {
        match self {
            Outcome::Select(contents) => {
                let mut result = vec![OutcomePrefix::SelectSuccess.byte()];
                proof {
                    crate::storage::executor::unit_content::lemma_contents_view_all(contents@);
                }
                append_bytes(&mut result, &varint_encode(contents.len() as u64));
                let ghost head = result@;
                let mut i: usize = 0;
                while i < contents.len()
                    invariant
                        i <= contents@.len(),
                        result@ == head + spec_items_bytes(contents_view(contents@.take(i as int))),
                    decreases contents@.len() - i,
                {
                    proof {
                        let before = contents@.take(i as int);
                        assert(contents@.take(i + 1).drop_last() =~= before);
                        assert(contents_view(contents@.take(i + 1)) == contents_view(before).push(contents@[i as int]@));
                        assert(contents_view(contents@.take(i + 1)).drop_last() =~= contents_view(before));
                    }
                    append_bytes(&mut result, &contents[i].marshal());
                    i = i + 1;
                    proof {
                        assert(result@ =~= head + spec_items_bytes(contents_view(contents@.take(i as int))));
                    }
                }
                assert(contents@.take(i as int) =~= contents@);
                result
            },
            Outcome::InspectOne(entries) => {
                let mut result = vec![OutcomePrefix::InspectOneSuccess.byte()];
                append_bytes(&mut result, &history_bytes(entries));
                result
            },
            Outcome::InspectAll(entries) => {
                let mut result = vec![OutcomePrefix::InspectAllSuccess.byte()];
                append_bytes(&mut result, &history_bytes(entries));
                result
            },
            Outcome::InsertSuccess => vec![OutcomePrefix::InsertSuccess.byte()],
            Outcome::RevertOneSuccess => vec![OutcomePrefix::RevertOneSuccess.byte()],
            Outcome::RevertAllSuccess => vec![OutcomePrefix::RevertAllSuccess.byte()],
            Outcome::RemoveOneSuccess => vec![OutcomePrefix::RemoveOneSuccess.byte()],
            Outcome::RemoveAllSuccess => vec![OutcomePrefix::RemoveAllSuccess.byte()],
            Outcome::GetAllGroupingsSuccess(groupings) => {
                let mut result = vec![OutcomePrefix::GetAllGroupingsSuccess.byte()];
                append_bytes(&mut result, &varint_encode(groupings.len() as u64));
                let ghost head = result@;
                let mut i: usize = 0;
                while i < groupings.len()
                    invariant
                        i <= groupings@.len(),
                        result@ == head + spec_labels_bytes(groupings_view(groupings@.take(i as int))),
                    decreases groupings@.len() - i,
                {
                    proof {
                        assert(groupings_view(groupings@.take(i + 1)) =~= groupings_view(groupings@.take(i as int)).push(
                            groupings@[i as int]@,
                        ));
                        assert(groupings_view(groupings@.take(i + 1)).drop_last() =~= groupings_view(groupings@.take(i as int)));
                    }
                    append_bytes(&mut result, &groupings[i].marshal());
                    i = i + 1;
                    proof {
                        assert(result@ =~= head + spec_labels_bytes(groupings_view(groupings@.take(i as int))));
                    }
                }
                assert(groupings@.take(i as int) =~= groupings@);
                result
            },
            Outcome::DeleteGroupingSuccess => vec![OutcomePrefix::DeleteGroupingSuccess.byte()],
            Outcome::CreateTransaction(transaction_id) => {
                let mut result = vec![OutcomePrefix::CreateTransactionSuccess.byte()];
                append_bytes(&mut result, &u64_to_u8_array(transaction_id.as_u64()));
                result
            },
            Outcome::TransactionalInsertSuccess => vec![OutcomePrefix::TransactionalInsertSuccess.byte()],
            Outcome::TransactionalRevertOneSuccess => vec![OutcomePrefix::TransactionalRevertOneSuccess.byte()],
            Outcome::TransactionalRemoveOneSuccess => vec![OutcomePrefix::TransactionalRemoveOneSuccess.byte()],
            Outcome::TransactionCommitSuccess => vec![OutcomePrefix::TransactionCommitSuccess.byte()],
            Outcome::TransactionAbortSuccess => vec![OutcomePrefix::TransactionAbortSuccess.byte()],
        }
    }
}

/// The number of entries as a varint, then each command followed by its height.
fn history_bytes(entries: &Vec<(Command, ChainHeight)>) -> (result: Vec<u8>)
    ensures
        result@ == spec_varint_encode(entries@.len() as u64) + spec_history_bytes(history_view(entries@)),
{
    let mut result = varint_encode(entries.len() as u64);
    let ghost head = result@;
    let mut i: usize = 0;
    while i < entries.len()
        invariant
            i <= entries@.len(),
            result@ == head + spec_history_bytes(history_view(entries@.take(i as int))),
        decreases entries@.len() - i,
    {
        proof {
            assert(history_view(entries@.take(i + 1)) =~= history_view(entries@.take(i as int)).push(
                (entries@[i as int].0@, entries@[i as int].1@),
            ));
            assert(history_view(entries@.take(i + 1)).drop_last() =~= history_view(entries@.take(i as int)));
        }
        let (command, height) = &entries[i];
        append_bytes(&mut result, &command.marshal());
        append_bytes(&mut result, &u64_to_u8_array(height.as_u64()));
        i = i + 1;
        proof {
            assert(result@ =~= head + spec_history_bytes(history_view(entries@.take(i as int))));
        }
    }
    assert(entries@.take(i as int) =~= entries@);
    result
}


/// When two outcomes are equal: the same variant, lists of the same length whose items are
/// equal one by one (units and commands as their own equality says, heights, labels and ids
/// as values).
pub open spec fn outcome_eq(a: OutcomeView, b: OutcomeView) -> bool {
    match (a, b) {
        (OutcomeView::Select(x), OutcomeView::Select(y)) => x.len() == y.len() && forall|i: int|
            0 <= i < x.len() ==> content_eq(#[trigger] x[i], y[i]),
        (OutcomeView::InspectOne(x), OutcomeView::InspectOne(y)) => histories_eq(x, y),
        (OutcomeView::InspectAll(x), OutcomeView::InspectAll(y)) => histories_eq(x, y),
        (OutcomeView::GetAllGroupingsSuccess(x), OutcomeView::GetAllGroupingsSuccess(y)) => x == y,
        (OutcomeView::CreateTransaction(x), OutcomeView::CreateTransaction(y)) => x == y,
        (OutcomeView::InsertSuccess, OutcomeView::InsertSuccess) => true,
        (OutcomeView::RevertOneSuccess, OutcomeView::RevertOneSuccess) => true,
        (OutcomeView::RevertAllSuccess, OutcomeView::RevertAllSuccess) => true,
        (OutcomeView::RemoveOneSuccess, OutcomeView::RemoveOneSuccess) => true,
        (OutcomeView::RemoveAllSuccess, OutcomeView::RemoveAllSuccess) => true,
        (OutcomeView::DeleteGroupingSuccess, OutcomeView::DeleteGroupingSuccess) => true,
        (OutcomeView::TransactionalInsertSuccess, OutcomeView::TransactionalInsertSuccess) => true,
        (OutcomeView::TransactionalRevertOneSuccess, OutcomeView::TransactionalRevertOneSuccess) => true,
        (OutcomeView::TransactionalRemoveOneSuccess, OutcomeView::TransactionalRemoveOneSuccess) => true,
        (OutcomeView::TransactionCommitSuccess, OutcomeView::TransactionCommitSuccess) => true,
        (OutcomeView::TransactionAbortSuccess, OutcomeView::TransactionAbortSuccess) => true,
        _ => false,
    }
}

/// Two histories of the same length whose entries have equal commands and the same heights.
pub open spec fn histories_eq(x: Seq<(CommandView, u64)>, y: Seq<(CommandView, u64)>) -> bool {
    x.len() == y.len() && forall|i: int| 0 <= i < x.len() ==> command_eq((#[trigger] x[i]).0, y[i].0) && x[i].1 == y[i].1
}

/// Whether two lists of units are equal item by item.
fn contents_equal(a: &Vec<UnitContent>, b: &Vec<UnitContent>) -> (result: bool)
    ensures
        result == {
            let x = contents_view(a@);
            let y = contents_view(b@);
            x.len() == y.len() && forall|i: int| 0 <= i < x.len() ==> content_eq(#[trigger] x[i], y[i])
        },
{
    proof {
        lemma_contents_view_all(a@);
        lemma_contents_view_all(b@);
    }
    if a.len() != b.len() {
        return false;
    }
    let mut i: usize = 0;
    while i < a.len()
        invariant
            i <= a@.len(),
            a@.len() == b@.len(),
            contents_view(a@).len() == a@.len(),
            contents_view(b@).len() == b@.len(),
            forall|k: int| 0 <= k < a@.len() ==> #[trigger] contents_view(a@)[k] == a@[k]@,
            forall|k: int| 0 <= k < b@.len() ==> #[trigger] contents_view(b@)[k] == b@[k]@,
            forall|j: int| 0 <= j < i ==> content_eq(#[trigger] contents_view(a@)[j], contents_view(b@)[j]),
        decreases a@.len() - i,
    {
        if !content_equals(&a[i], &b[i]) {
            assert(!content_eq(contents_view(a@)[i as int], contents_view(b@)[i as int]));
            return false;
        }
        i = i + 1;
    }
    true
}

/// Whether two histories hold equal commands at the same heights, entry by entry.
fn histories_equal(a: &Vec<(Command, ChainHeight)>, b: &Vec<(Command, ChainHeight)>) -> (result: bool)
    ensures
        result == histories_eq(history_view(a@), history_view(b@)),
{
    assert(history_view(a@).len() == a@.len() && history_view(b@).len() == b@.len());
    if a.len() != b.len() {
        return false;
    }
    let mut i: usize = 0;
    while i < a.len()
        invariant
            i <= a@.len(),
            a@.len() == b@.len(),
            forall|j: int| 0 <= j < i ==> command_eq(#[trigger] history_view(a@)[j].0, history_view(b@)[j].0)
                && history_view(a@)[j].1 == history_view(b@)[j].1,
        decreases a@.len() - i,
    {
        assert(history_view(a@)[i as int] == (a@[i as int].0@, a@[i as int].1@));
        assert(history_view(b@)[i as int] == (b@[i as int].0@, b@[i as int].1@));
        if !command_equals(&a[i].0, &b[i].0) || a[i].1.as_u64() != b[i].1.as_u64() {
            assert(!(command_eq(history_view(a@)[i as int].0, history_view(b@)[i as int].0)
                && history_view(a@)[i as int].1 == history_view(b@)[i as int].1));
            return false;
        }
        i = i + 1;
    }
    true
}

/// Whether two lists of labels hold the same bytes in the same order.
fn labels_equal(a: &Vec<GroupingLabel>, b: &Vec<GroupingLabel>) -> (result: bool)
    ensures
        result == (groupings_view(a@) == groupings_view(b@)),
{
    if a.len() != b.len() {
        assert(groupings_view(a@).len() != groupings_view(b@).len());
        return false;
    }
    let mut i: usize = 0;
    while i < a.len()
        invariant
            i <= a@.len(),
            a@.len() == b@.len(),
            forall|j: int| 0 <= j < i ==> a@[j]@ == b@[j]@,
        decreases a@.len() - i,
    {
        if !bytes_eq(a[i].as_bytes(), b[i].as_bytes()) {
            assert(groupings_view(a@)[i as int] != groupings_view(b@)[i as int]);
            return false;
        }
        i = i + 1;
    }
    assert(groupings_view(a@) =~= groupings_view(b@));
    true
}

/// Whether two outcomes are equal; see `outcome_eq`.
pub fn outcome_equals(a: &Outcome, b: &Outcome) -> (result: bool)
    ensures
        result == outcome_eq(a@, b@),
{
    match (a, b) {
        (Outcome::Select(x), Outcome::Select(y)) => contents_equal(x, y),
        (Outcome::InspectOne(x), Outcome::InspectOne(y)) => histories_equal(x, y),
        (Outcome::InspectAll(x), Outcome::InspectAll(y)) => histories_equal(x, y),
        (Outcome::GetAllGroupingsSuccess(x), Outcome::GetAllGroupingsSuccess(y)) => labels_equal(x, y),
        (Outcome::CreateTransaction(x), Outcome::CreateTransaction(y)) => x.as_u64() == y.as_u64(),
        (Outcome::InsertSuccess, Outcome::InsertSuccess) => true,
        (Outcome::RevertOneSuccess, Outcome::RevertOneSuccess) => true,
        (Outcome::RevertAllSuccess, Outcome::RevertAllSuccess) => true,
        (Outcome::RemoveOneSuccess, Outcome::RemoveOneSuccess) => true,
        (Outcome::RemoveAllSuccess, Outcome::RemoveAllSuccess) => true,
        (Outcome::DeleteGroupingSuccess, Outcome::DeleteGroupingSuccess) => true,
        (Outcome::TransactionalInsertSuccess, Outcome::TransactionalInsertSuccess) => true,
        (Outcome::TransactionalRevertOneSuccess, Outcome::TransactionalRevertOneSuccess) => true,
        (Outcome::TransactionalRemoveOneSuccess, Outcome::TransactionalRemoveOneSuccess) => true,
        (Outcome::TransactionCommitSuccess, Outcome::TransactionCommitSuccess) => true,
        (Outcome::TransactionAbortSuccess, Outcome::TransactionAbortSuccess) => true,
        _ => false,
    }
}

impl PartialEq for Outcome {
    fn eq(&self, other: &Self) -> (result: bool) {
        outcome_equals(self, other)
    }
}

impl PartialEqSpecImpl for Outcome {
    open spec fn obeys_eq_spec() -> bool {
        true
    }

    open spec fn eq_spec(&self, other: &Self) -> bool {
        outcome_eq(self@, other@)
    }
}

} // verus!
