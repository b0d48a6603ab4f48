//! Requests to the executor that name a unit by its key alone, as the HTTP routes carry them.

use vstd::prelude::*;
use crate::storage::chain_height::ChainHeight;
use crate::storage::executor::unit_content::{spec_parse_content, ContentView, UnitContent, UnitContentError};
use crate::storage::executor::unit_key::UnitKey;
use crate::storage::instruction::{Instruction as LogInstruction, InstructionView as LogInstructionView};
use crate::storage::transaction_manager::TransactionId;

verus! {

/// A request that names its unit by key.
#[derive(Debug)]
pub enum Instruction {
    Select { key: UnitKey, transaction_id: Option<TransactionId> },
    InspectOne { key: UnitKey },
    InspectAll,
    Insert { key: UnitKey, content: UnitContent },
    RevertOne { key: UnitKey, height: ChainHeight },
    RevertAll { height: ChainHeight },
    RemoveOne { key: UnitKey },
    RemoveAll,
    CreateTransaction,
    TransactionalInsert { key: UnitKey, content: UnitContent, transaction_id: TransactionId },
    TransactionalRevertOne { key: UnitKey, height: ChainHeight, transaction_id: TransactionId },
    TransactionalRemoveOne { key: UnitKey, transaction_id: TransactionId },
    TransactionCommit { transaction_id: TransactionId },
    TransactionAbort { transaction_id: TransactionId },
}

/// A request as plain values: keys as their bytes, heights and ids as numbers.
pub enum RequestView {
    Select(Seq<u8>, Option<u64>),
    InspectOne(Seq<u8>),
    InspectAll,
    Insert(Seq<u8>, ContentView),
    RevertOne(Seq<u8>, u64),
    RevertAll(u64),
    RemoveOne(Seq<u8>),
    RemoveAll,
    CreateTransaction,
    TransactionalInsert(Seq<u8>, ContentView, u64),
    TransactionalRevertOne(Seq<u8>, u64, u64),
    TransactionalRemoveOne(Seq<u8>, u64),
    TransactionCommit(u64),
    TransactionAbort(u64),
}

impl View for Instruction {
    type V = RequestView;

    open spec fn view(&self) -> RequestView {
        match self {
            Instruction::Select { key, transaction_id } => RequestView::Select(
                key@,
                match transaction_id {
                    Some(t) => Some(t@),
                    None => None,
                },
            ),
            Instruction::InspectOne { key } => RequestView::InspectOne(key@),
            Instruction::InspectAll => RequestView::InspectAll,
            Instruction::Insert { key, content } => RequestView::Insert(key@, content@),
            Instruction::RevertOne { key, height } => RequestView::RevertOne(key@, height@),
            Instruction::RevertAll { height } => RequestView::RevertAll(height@),
            Instruction::RemoveOne { key } => RequestView::RemoveOne(key@),
            Instruction::RemoveAll => RequestView::RemoveAll,
            Instruction::CreateTransaction => RequestView::CreateTransaction,
            Instruction::TransactionalInsert { key, content, transaction_id } => RequestView::TransactionalInsert(
                key@,
                content@,
                transaction_id@,
            ),
            Instruction::TransactionalRevertOne { key, height, transaction_id } => RequestView::TransactionalRevertOne(
                key@,
                height@,
                transaction_id@,
            ),
            Instruction::TransactionalRemoveOne { key, transaction_id } => RequestView::TransactionalRemoveOne(
                key@,
                transaction_id@,
            ),
            Instruction::TransactionCommit { transaction_id } => RequestView::TransactionCommit(transaction_id@),
            Instruction::TransactionAbort { transaction_id } => RequestView::TransactionAbort(transaction_id@),
        }
    }
}

/// The unit at the start of a value of the log, without the width it takes.
pub open spec fn spec_value_unit(value: Seq<u8>) -> Option<Result<ContentView, UnitContentError>> {
    match spec_parse_content(value) {
        None => None,
        Some(Err(e)) => Some(Err(e)),
        Some(Ok((c, _))) => Some(Ok(c)),
    }
}

/// The request that an instruction of the log stands for: its whole key names the unit, a
/// value is read as the unit at its start, and a transaction's start asks for a new one;
/// `None` where reading a value would run past its end.
pub open spec fn spec_request_of_instruction(i: LogInstructionView) -> Option<Result<RequestView, UnitContentError>> {
    match i {
        LogInstructionView::Put { key, value } => match spec_value_unit(value) {
            None => None,
            Some(Err(e)) => Some(Err(e)),
            Some(Ok(c)) => Some(Ok(RequestView::Insert(key, c))),
        },
        LogInstructionView::RevertOne { key, height } => Some(Ok(RequestView::RevertOne(key, height))),
        LogInstructionView::RevertAll { height } => Some(Ok(RequestView::RevertAll(height))),
        LogInstructionView::RemoveOne { key } => Some(Ok(RequestView::RemoveOne(key))),
        LogInstructionView::RemoveAll => Some(Ok(RequestView::RemoveAll)),
        LogInstructionView::TransactionStart { .. } => Some(Ok(RequestView::CreateTransaction)),
        LogInstructionView::TransactionalSet { key, value, transaction_id } => match spec_value_unit(value) {
            None => None,
            Some(Err(e)) => Some(Err(e)),
            Some(Ok(c)) => Some(Ok(RequestView::TransactionalInsert(key, c, transaction_id))),
        },
        LogInstructionView::TransactionalRevertOne { key, height, transaction_id } => Some(
            Ok(RequestView::TransactionalRevertOne(key, height, transaction_id)),
        ),
        LogInstructionView::TransactionalRemoveOne { key, transaction_id } => Some(
            Ok(RequestView::TransactionalRemoveOne(key, transaction_id)),
        ),
        LogInstructionView::TransactionCommit { transaction_id } => Some(Ok(RequestView::TransactionCommit(transaction_id))),
        LogInstructionView::TransactionAbort { transaction_id } => Some(Ok(RequestView::TransactionAbort(transaction_id))),
    }
}

/// Reads the unit at the start of a value; see `spec_value_unit`.
fn value_unit(value: &[u8]) -> (result: Option<Result<UnitContent, UnitContentError>>)
    ensures
        match result {
            None => spec_value_unit(value@) is None,
            Some(Ok(c)) => spec_value_unit(value@) == Some(Ok::<ContentView, UnitContentError>(c@)),
            Some(Err(e)) => spec_value_unit(value@) == Some(Err::<ContentView, UnitContentError>(e)),
        },
{
    match UnitContent::parse_checked(value) {
        None => None,
        Some(Err(e)) => Some(Err(e)),
        Some(Ok((content, _))) => Some(Ok(content)),
    }
}

impl Instruction {
    /// The request that an instruction of the log stands for; see
    /// `spec_request_of_instruction`.
    pub fn try_from(instruction: &LogInstruction) -> (result: Result<Instruction, UnitContentError>)
        requires
            spec_request_of_instruction(instruction@) is Some,
        ensures
            match result {
                Ok(r) => spec_request_of_instruction(instruction@) == Some(Ok::<RequestView, UnitContentError>(r@)),
                Err(e) => spec_request_of_instruction(instruction@) == Some(Err::<RequestView, UnitContentError>(e)),
            },
    {
        match Self::try_from_checked(instruction) {
            Some(r) => r,
            None => {
                assert(false);
                Err(UnitContentError::EmptyInput)
            },
        }
    }

    /// Like `try_from`, with `None` where reading a value would run past its end.
    pub fn try_from_checked(instruction: &LogInstruction) -> (result: Option<Result<Instruction, UnitContentError>>)
        ensures
            match result {
                None => spec_request_of_instruction(instruction@) is None,
                Some(Ok(r)) => spec_request_of_instruction(instruction@) == Some(Ok::<RequestView, UnitContentError>(r@)),
                Some(Err(e)) => spec_request_of_instruction(instruction@) == Some(Err::<RequestView, UnitContentError>(e)),
            },
    {
        match instruction {
            LogInstruction::Put { key, value } => match value_unit(value.as_bytes()) {
                None => None,
                Some(Err(e)) => Some(Err(e)),
                Some(Ok(content)) => Some(Ok(Instruction::Insert { key: UnitKey::new(key.as_bytes()), content })),
            },
            LogInstruction::RevertOne { key, height } => Some(
                Ok(Instruction::RevertOne { key: UnitKey::new(key.as_bytes()), height: *height }),
            ),
            LogInstruction::RevertAll { height } => Some(Ok(Instruction::RevertAll { height: *height })),
            LogInstruction::RemoveOne { key } => Some(Ok(Instruction::RemoveOne { key: UnitKey::new(key.as_bytes()) })),
            LogInstruction::RemoveAll => Some(Ok(Instruction::RemoveAll)),
            LogInstruction::TransactionStart { .. } => Some(Ok(Instruction::CreateTransaction)),
            LogInstruction::TransactionalSet { key, value, transaction_id } => match value_unit(value.as_bytes()) {
                None => None,
                Some(Err(e)) => Some(Err(e)),
                Some(Ok(content)) => Some(
                    Ok(
                        Instruction::TransactionalInsert {
                            key: UnitKey::new(key.as_bytes()),
                            content,
                            transaction_id: *transaction_id,
                        },
                    ),
                ),
            },
            LogInstruction::TransactionalRevertOne { key, height, transaction_id } => Some(
                Ok(
                    Instruction::TransactionalRevertOne {
                        key: UnitKey::new(key.as_bytes()),
                        height: *height,
                        transaction_id: *transaction_id,
                    },
                ),
            ),
            LogInstruction::TransactionalRemoveOne { key, transaction_id } => Some(
                Ok(Instruction::TransactionalRemoveOne { key: UnitKey::new(key.as_bytes()), transaction_id: *transaction_id }),
            ),
            LogInstruction::TransactionCommit { transaction_id } => Some(
                Ok(Instruction::TransactionCommit { transaction_id: *transaction_id }),
            ),
            LogInstruction::TransactionAbort { transaction_id } => Some(
                Ok(Instruction::TransactionAbort { transaction_id: *transaction_id }),
            ),
        }
    }
}

} // verus!
