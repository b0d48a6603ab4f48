//! Instructions: the records of the log, their byte form, and instruction packs (an
//! instruction's bytes protected by error correction, with a header).

use vstd::prelude::*;
use crate::constants::{INSTRUCTION_PACK_MAGIC, INSTRUCTION_PACK_VERSION};
use crate::storage::chain_height::ChainHeight;
use crate::storage::ecc::{
    ECCMode, ErrorCorrectionError, IdentityCode, TripleRedundancyCode, spec_tmr_decode,
    spec_tmr_encode,
};
use crate::storage::kvkey::KVKey;
use crate::storage::kvvalue::KVValue;
use crate::storage::transaction_manager::TransactionId;
use crate::utils::bytes::{append_bytes, sub_bytes, tail_bytes};
use crate::utils::ints::{
    byte_slice_to_u32, lemma_u32_le_roundtrip, lemma_u64_le_roundtrip, read_u64_le, spec_u32_from_le,
    spec_u32_le, spec_u64_from_le, spec_u64_le, u32_to_u8_array, u64_to_u8_array,
};
use crate::utils::serialize::{
    lemma_read_bytes_at, lemma_read_varint_at, read_bytes_at, read_varint_at,
    spec_prepend_varint_width, spec_read_bytes_at, spec_read_varint_at,
};
use crate::utils::varint::{spec_varint_encode, VarIntError};

verus! {

/// An instruction as the contracts see it: keys and values as bytes, heights and transaction
/// ids as numbers.
pub enum InstructionView {
    Put { key: Seq<u8>, value: Seq<u8> },
    RevertOne { key: Seq<u8>, height: u64 },
    RevertAll { height: u64 },
    RemoveOne { key: Seq<u8> },
    RemoveAll,
    TransactionStart { transaction_id: u64 },
    TransactionalSet { key: Seq<u8>, value: Seq<u8>, transaction_id: u64 },
    TransactionalRevertOne { key: Seq<u8>, height: u64, transaction_id: u64 },
    TransactionalRemoveOne { key: Seq<u8>, transaction_id: u64 },
    TransactionCommit { transaction_id: u64 },
    TransactionAbort { transaction_id: u64 },
}

#[derive(Debug, Clone, PartialEq)]
pub enum Instruction {
    Put { key: KVKey, value: KVValue },
    RevertOne { key: KVKey, height: ChainHeight },
    RevertAll { height: ChainHeight },
    RemoveOne { key: KVKey },
    RemoveAll,
    TransactionStart { transaction_id: TransactionId },
    TransactionalSet { key: KVKey, value: KVValue, transaction_id: TransactionId },
    TransactionalRevertOne { key: KVKey, height: ChainHeight, transaction_id: TransactionId },
    TransactionalRemoveOne { key: KVKey, transaction_id: TransactionId },
    TransactionCommit { transaction_id: TransactionId },
    TransactionAbort { transaction_id: TransactionId },
}

impl View for Instruction {
    type V = InstructionView;

    open spec fn view(&self) -> InstructionView {
        match self {
            Instruction::Put { key, value } => InstructionView::Put { key: key@, value: value@ },
            Instruction::RevertOne { key, height } => InstructionView::RevertOne {
                key: key@,
                height: height@,
            },
            Instruction::RevertAll { height } => InstructionView::RevertAll { height: height@ },
            Instruction::RemoveOne { key } => InstructionView::RemoveOne { key: key@ },
            Instruction::RemoveAll => InstructionView::RemoveAll,
            Instruction::TransactionStart { transaction_id } => InstructionView::TransactionStart {
                transaction_id: transaction_id@,
            },
            Instruction::TransactionalSet { key, value, transaction_id } => InstructionView::TransactionalSet {
                key: key@,
                value: value@,
                transaction_id: transaction_id@,
            },
            Instruction::TransactionalRevertOne { key, height, transaction_id } => InstructionView::TransactionalRevertOne {
                key: key@,
                height: height@,
                transaction_id: transaction_id@,
            },
            Instruction::TransactionalRemoveOne { key, transaction_id } => InstructionView::TransactionalRemoveOne {
                key: key@,
                transaction_id: transaction_id@,
            },
            Instruction::TransactionCommit { transaction_id } => InstructionView::TransactionCommit {
                transaction_id: transaction_id@,
            },
            Instruction::TransactionAbort { transaction_id } => InstructionView::TransactionAbort {
                transaction_id: transaction_id@,
            },
        }
    }
}

#[derive(Debug, Clone, Copy, PartialEq, Eq)]
pub enum InstructionError {
    MissingPrefixByte,
    KeyExceedsMaxLength,
    VarIntError(VarIntError),
    UnknownPrefix(u8),
    PackTooShort(usize),
    UnexpectedMagicNumber([u8; 4]),
    UnexpectedPackVersion(u8),
    ErrorCorrection(ErrorCorrectionError),
    UnexpectedECCMode(u8),
}

/// Every key and value of the instruction has a length that a varint can hold.
pub open spec fn instruction_fits(v: InstructionView) -> bool {
    match v {
        InstructionView::Put { key, value } => key.len() <= u64::MAX && value.len() <= u64::MAX,
        InstructionView::RevertOne { key, .. } => key.len() <= u64::MAX,
        InstructionView::RemoveOne { key } => key.len() <= u64::MAX,
        InstructionView::TransactionalSet { key, value, .. } => key.len() <= u64::MAX && value.len()
            <= u64::MAX,
        InstructionView::TransactionalRevertOne { key, .. } => key.len() <= u64::MAX,
        InstructionView::TransactionalRemoveOne { key, .. } => key.len() <= u64::MAX,
        _ => true,
    }
}

/// The bytes of an instruction: a prefix byte, then its fields (keys and values with their
/// widths in front, heights and transaction ids as varints).
pub open spec fn spec_instruction_bytes(v: InstructionView) -> Seq<u8> {
    match v {
        InstructionView::Put { key, value } => seq![0x00u8] + spec_prepend_varint_width(key)
            + spec_prepend_varint_width(value),
        InstructionView::RevertOne { key, height } => seq![0x01u8] + spec_prepend_varint_width(key)
            + spec_varint_encode(height),
        InstructionView::RevertAll { height } => seq![0x02u8] + spec_varint_encode(height),
        InstructionView::RemoveOne { key } => seq![0x03u8] + spec_prepend_varint_width(key),
        InstructionView::RemoveAll => seq![0x04u8],
        InstructionView::TransactionStart { transaction_id } => seq![0x05u8] + spec_varint_encode(
            transaction_id,
        ),
        InstructionView::TransactionalSet { key, value, transaction_id } => seq![0x06u8]
            + spec_prepend_varint_width(key) + spec_prepend_varint_width(value) + spec_varint_encode(
            transaction_id,
        ),
        InstructionView::TransactionalRevertOne { key, height, transaction_id } => seq![0x07u8]
            + spec_prepend_varint_width(key) + spec_varint_encode(height) + spec_varint_encode(
            transaction_id,
        ),
        InstructionView::TransactionalRemoveOne { key, transaction_id } => seq![0x08u8]
            + spec_prepend_varint_width(key) + spec_varint_encode(transaction_id),
        InstructionView::TransactionCommit { transaction_id } => seq![0x09u8] + spec_varint_encode(
            transaction_id,
        ),
        InstructionView::TransactionAbort { transaction_id } => seq![0x10u8] + spec_varint_encode(
            transaction_id,
        ),
    }
}

/// A width-prefixed byte string at `pos`, with a malformed width as an instruction error.
pub open spec fn spec_field_bytes(data: Seq<u8>, pos: nat) -> Option<Result<(Seq<u8>, nat), InstructionError>> {
    match spec_read_bytes_at(data, pos) {
        None => None,
        Some(Err(e)) => Some(Err(InstructionError::VarIntError(e))),
        Some(Ok(r)) => Some(Ok(r)),
    }
}

/// A varint at `pos`, with a malformed varint as an instruction error.
pub open spec fn spec_field_number(data: Seq<u8>, pos: nat) -> Result<(u64, nat), InstructionError> {
    match spec_read_varint_at(data, pos) {
        Err(e) => Err(InstructionError::VarIntError(e)),
        Ok(r) => Ok(r),
    }
}

/// A key and a value.
pub open spec fn spec_parse_key_value(data: Seq<u8>) -> Option<Result<(Seq<u8>, Seq<u8>, nat), InstructionError>> {
    match spec_field_bytes(data, 1) {
        None => None,
        Some(Err(e)) => Some(Err(e)),
        Some(Ok((k, p))) => match spec_field_bytes(data, p) {
            None => None,
            Some(Err(e)) => Some(Err(e)),
            Some(Ok((v, q))) => Some(Ok((k, v, q))),
        },
    }
}

/// A key and a number.
pub open spec fn spec_parse_key_number(data: Seq<u8>) -> Option<Result<(Seq<u8>, u64, nat), InstructionError>> {
    match spec_field_bytes(data, 1) {
        None => None,
        Some(Err(e)) => Some(Err(e)),
        Some(Ok((k, p))) => match spec_field_number(data, p) {
            Err(e) => Some(Err(e)),
            Ok((h, q)) => Some(Ok((k, h, q))),
        },
    }
}

/// What `Instruction::parse` gives for `data`: the instruction and the bytes it took, or the
/// error. `None` where a width overruns `data`, where the parse would index past the end.
#[verifier::opaque]
pub open spec fn spec_parse_instruction(data: Seq<u8>) -> Option<Result<(InstructionView, nat), InstructionError>> {
    if data.len() == 0 {
        Some(Err(InstructionError::MissingPrefixByte))
    } else {
        let prefix = data[0];
        if prefix == 0x00 {
            match spec_parse_key_value(data) {
                None => None,
                Some(Err(e)) => Some(Err(e)),
                Some(Ok((k, v, q))) => Some(Ok((InstructionView::Put { key: k, value: v }, q))),
            }
        } else if prefix == 0x01 {
            match spec_parse_key_number(data) {
                None => None,
                Some(Err(e)) => Some(Err(e)),
                Some(Ok((k, h, q))) => Some(Ok((InstructionView::RevertOne { key: k, height: h }, q))),
            }
        } else if prefix == 0x02 {
            match spec_field_number(data, 1) {
                Err(e) => Some(Err(e)),
                Ok((h, q)) => Some(Ok((InstructionView::RevertAll { height: h }, q))),
            }
        } else if prefix == 0x03 {
            match spec_field_bytes(data, 1) {
                None => None,
                Some(Err(e)) => Some(Err(e)),
                Some(Ok((k, q))) => Some(Ok((InstructionView::RemoveOne { key: k }, q))),
            }
        } else if prefix == 0x04 {
            Some(Ok((InstructionView::RemoveAll, 1)))
        } else if prefix == 0x05 {
            match spec_field_number(data, 1) {
                Err(e) => Some(Err(e)),
                Ok((t, q)) => Some(Ok((InstructionView::TransactionStart { transaction_id: t }, q))),
            }
        } else if prefix == 0x06 {
            match spec_parse_key_value(data) {
                None => None,
                Some(Err(e)) => Some(Err(e)),
                Some(Ok((k, v, q))) => match spec_field_number(data, q) {
                    Err(e) => Some(Err(e)),
                    Ok((t, r)) => Some(
                        Ok((InstructionView::TransactionalSet { key: k, value: v, transaction_id: t }, r)),
                    ),
                },
            }
        } else if prefix == 0x08 {
            match spec_parse_key_number(data) {
                None => None,
                Some(Err(e)) => Some(Err(e)),
                Some(Ok((k, t, q))) => Some(
                    Ok((InstructionView::TransactionalRemoveOne { key: k, transaction_id: t }, q)),
                ),
            }
        } else if prefix == 0x07 {
            match spec_parse_key_number(data) {
                None => None,
                Some(Err(e)) => Some(Err(e)),
                Some(Ok((k, h, q))) => match spec_field_number(data, q) {
                    Err(e) => Some(Err(e)),
                    Ok((t, r)) => Some(
                        Ok(
                            (
                                InstructionView::TransactionalRevertOne {
                                    key: k,
                                    height: h,
                                    transaction_id: t,
                                },
                                r,
                            ),
                        ),
                    ),
                },
            }
        } else if prefix == 0x09 {
            match spec_field_number(data, 1) {
                Err(e) => Some(Err(e)),
                Ok((t, q)) => Some(Ok((InstructionView::TransactionCommit { transaction_id: t }, q))),
            }
        } else if prefix == 0x10 {
            match spec_field_number(data, 1) {
                Err(e) => Some(Err(e)),
                Ok((t, q)) => Some(Ok((InstructionView::TransactionAbort { transaction_id: t }, q))),
            }
        } else {
            Some(Err(InstructionError::UnknownPrefix(prefix)))
        }
    }
}

fn field_bytes(data: &[u8], pos: usize) -> (result: Option<Result<(KVKey, usize), InstructionError>>)
    requires
        pos <= data@.len(),
    ensures
        match result {
            None => spec_field_bytes(data@, pos as nat) is None,
            Some(Err(e)) => spec_field_bytes(data@, pos as nat) == Some(
                Err::<(Seq<u8>, nat), InstructionError>(e),
            ),
            Some(Ok((k, n))) => spec_field_bytes(data@, pos as nat) == Some(
                Ok::<(Seq<u8>, nat), InstructionError>((k@, n as nat)),
            ) && n <= data@.len(),
        },
{
    match read_bytes_at(data, pos) {
        None => None,
        Some(Err(e)) => Some(Err(InstructionError::VarIntError(e))),
        Some(Ok((bytes, n))) => Some(Ok((KVKey::new(bytes), n))),
    }
}

fn field_number(data: &[u8], pos: usize) -> (result: Result<(u64, usize), InstructionError>)
    requires
        pos <= data@.len(),
    ensures
        match result {
            Err(e) => spec_field_number(data@, pos as nat) == Err::<(u64, nat), InstructionError>(e),
            Ok((v, n)) => spec_field_number(data@, pos as nat) == Ok::<(u64, nat), InstructionError>(
                (v, n as nat),
            ) && n <= data@.len(),
        },
{
    match read_varint_at(data, pos) {
        Err(e) => Err(InstructionError::VarIntError(e)),
        Ok(r) => Ok(r),
    }
}

impl Instruction {
    pub fn serialize(&self) -> (result: Vec<u8>)
        ensures
            result@ == spec_instruction_bytes(self@),
    {
        let mut bytes: Vec<u8> = Vec::new();
        match self {
            Instruction::Put { key, value } => {
                bytes.push(0x00u8);
                append_bytes(&mut bytes, &key.serialize());
                append_bytes(&mut bytes, &value.serialize());
            },
            Instruction::RevertOne { key, height } => {
                bytes.push(0x01u8);
                append_bytes(&mut bytes, &key.serialize());
                append_bytes(&mut bytes, &height.serialize());
            },
            Instruction::RevertAll { height } => {
                bytes.push(0x02u8);
                append_bytes(&mut bytes, &height.serialize());
            },
            Instruction::RemoveOne { key } => {
                bytes.push(0x03u8);
                append_bytes(&mut bytes, &key.serialize());
            },
            Instruction::RemoveAll => {
                bytes.push(0x04u8);
            },
            Instruction::TransactionStart { transaction_id } => {
                bytes.push(0x05u8);
                append_bytes(&mut bytes, &transaction_id.serialize());
            },
            Instruction::TransactionalSet { key, value, transaction_id } => {
                bytes.push(0x06u8);
                append_bytes(&mut bytes, &key.serialize());
                append_bytes(&mut bytes, &value.serialize());
                append_bytes(&mut bytes, &transaction_id.serialize());
            },
            Instruction::TransactionalRevertOne { key, height, transaction_id } => {
                bytes.push(0x07u8);
                append_bytes(&mut bytes, &key.serialize());
                append_bytes(&mut bytes, &height.serialize());
                append_bytes(&mut bytes, &transaction_id.serialize());
            },
            Instruction::TransactionalRemoveOne { key, transaction_id } => {
                bytes.push(0x08u8);
                append_bytes(&mut bytes, &key.serialize());
                append_bytes(&mut bytes, &transaction_id.serialize());
            },
            Instruction::TransactionCommit { transaction_id } => {
                bytes.push(0x09u8);
                append_bytes(&mut bytes, &transaction_id.serialize());
            },
            Instruction::TransactionAbort { transaction_id } => {
                bytes.push(0x10u8);
                append_bytes(&mut bytes, &transaction_id.serialize());
            },
        }
        assert(bytes@ =~= spec_instruction_bytes(self@));
        bytes
    }

    pub fn parse(data: &[u8]) -> (result: Result<(Self, usize), InstructionError>)
        requires
            spec_parse_instruction(data@) is Some,
        ensures
            match result {
                Ok((i, n)) => spec_parse_instruction(data@) == Some(
                    Ok::<(InstructionView, nat), InstructionError>((i@, n as nat)),
                ),
                Err(e) => spec_parse_instruction(data@) == Some(
                    Err::<(InstructionView, nat), InstructionError>(e),
                ),
            },
    {
        match Self::parse_checked(data) {
            Some(r) => r,
            None => {
                assert(false);
                Err(InstructionError::MissingPrefixByte)
            },
        }
    }

    /// Like `parse`, with `None` where a width overruns `data`.
    pub fn parse_checked(data: &[u8]) -> (result: Option<Result<(Self, usize), InstructionError>>)
        ensures
            match result {
                None => spec_parse_instruction(data@) is None,
                Some(Ok((i, n))) => spec_parse_instruction(data@) == Some(
                    Ok::<(InstructionView, nat), InstructionError>((i@, n as nat)),
                ) && n <= data@.len(),
                Some(Err(e)) => spec_parse_instruction(data@) == Some(
                    Err::<(InstructionView, nat), InstructionError>(e),
                ),
            },
    {
        reveal(spec_parse_instruction);
        if data.len() == 0 {
            return Some(Err(InstructionError::MissingPrefixByte));
        }
        let prefix = data[0];
        if prefix == 0x00 || prefix == 0x06 {
            let (key, p) = match field_bytes(data, 1) {
                None => return None,
                Some(Err(e)) => return Some(Err(e)),
                Some(Ok(r)) => r,
            };
            let (value, q) = match field_bytes(data, p) {
                None => return None,
                Some(Err(e)) => return Some(Err(e)),
                Some(Ok(r)) => r,
            };
            let value = KVValue::new(value.as_bytes());
            if prefix == 0x00 {
                return Some(Ok((Instruction::Put { key, value }, q)));
            }
            let (t, r) = match field_number(data, q) {
                Err(e) => return Some(Err(e)),
                Ok(r) => r,
            };
            Some(
                Ok(
                    (
                        Instruction::TransactionalSet {
                            key,
                            value,
                            transaction_id: TransactionId::new(t),
                        },
                        r,
                    ),
                ),
            )
        } else if prefix == 0x01 || prefix == 0x07 || prefix == 0x08 {
            let (key, p) = match field_bytes(data, 1) {
                None => return None,
                Some(Err(e)) => return Some(Err(e)),
                Some(Ok(r)) => r,
            };
            let (n, q) = match field_number(data, p) {
                Err(e) => return Some(Err(e)),
                Ok(r) => r,
            };
            if prefix == 0x01 {
                return Some(Ok((Instruction::RevertOne { key, height: ChainHeight::new(n) }, q)));
            }
            if prefix == 0x08 {
                return Some(
                    Ok(
                        (
                            Instruction::TransactionalRemoveOne {
                                key,
                                transaction_id: TransactionId::new(n),
                            },
                            q,
                        ),
                    ),
                );
            }
            let (t, r) = match field_number(data, q) {
                Err(e) => return Some(Err(e)),
                Ok(r) => r,
            };
            Some(
                Ok(
                    (
                        Instruction::TransactionalRevertOne {
                            key,
                            height: ChainHeight::new(n),
                            transaction_id: TransactionId::new(t),
                        },
                        r,
                    ),
                ),
            )
        } else if prefix == 0x03 {
            match field_bytes(data, 1) {
                None => None,
                Some(Err(e)) => Some(Err(e)),
                Some(Ok((key, q))) => Some(Ok((Instruction::RemoveOne { key }, q))),
            }
        } else if prefix == 0x04 {
            Some(Ok((Instruction::RemoveAll, 1)))
        } else if prefix == 0x02 || prefix == 0x05 || prefix == 0x09 || prefix == 0x10 {
            let (n, q) = match field_number(data, 1) {
                Err(e) => return Some(Err(e)),
                Ok(r) => r,
            };
            let instruction = if prefix == 0x02 {
                Instruction::RevertAll { height: ChainHeight::new(n) }
            } else if prefix == 0x05 {
                Instruction::TransactionStart { transaction_id: TransactionId::new(n) }
            } else if prefix == 0x09 {
                Instruction::TransactionCommit { transaction_id: TransactionId::new(n) }
            } else {
                Instruction::TransactionAbort { transaction_id: TransactionId::new(n) }
            };
            Some(Ok((instruction, q)))
        } else {
            Some(Err(InstructionError::UnknownPrefix(prefix)))
        }
    }
}

proof fn lemma_key_value_at_one(p: u8, key: Seq<u8>, value: Seq<u8>, rest: Seq<u8>)
    requires
        key.len() <= u64::MAX,
        value.len() <= u64::MAX,
    ensures
        spec_parse_key_value(seq![p] + spec_prepend_varint_width(key) + spec_prepend_varint_width(value) + rest)
            == Some(
            Ok::<(Seq<u8>, Seq<u8>, nat), InstructionError>(
                (
                    key,
                    value,
                    1 + spec_prepend_varint_width(key).len() + spec_prepend_varint_width(value).len(),
                ),
            ),
        ),
{
    let p0 = seq![p];
    let wk = spec_prepend_varint_width(key);
    let wv = spec_prepend_varint_width(value);
    let d = p0 + wk + wv + rest;
    assert(d =~= p0 + wk + (wv + rest));
    lemma_read_bytes_at(p0, key, wv + rest);
    lemma_read_bytes_at(p0 + wk, value, rest);
}

proof fn lemma_key_number_at_one(p: u8, key: Seq<u8>, n: u64, rest: Seq<u8>)
    requires
        key.len() <= u64::MAX,
    ensures
        spec_parse_key_number(seq![p] + spec_prepend_varint_width(key) + spec_varint_encode(n) + rest)
            == Some(
            Ok::<(Seq<u8>, u64, nat), InstructionError>(
                (key, n, 1 + spec_prepend_varint_width(key).len() + spec_varint_encode(n).len()),
            ),
        ),
{
    let p0 = seq![p];
    let wk = spec_prepend_varint_width(key);
    let en = spec_varint_encode(n);
    let d = p0 + wk + en + rest;
    assert(d =~= p0 + wk + (en + rest));
    lemma_read_bytes_at(p0, key, en + rest);
    lemma_read_varint_at(p0 + wk, n, rest);
}

proof fn lemma_number_at(prefix: Seq<u8>, n: u64, rest: Seq<u8>)
    ensures
        spec_field_number(prefix + spec_varint_encode(n) + rest, prefix.len()) == Ok::<(u64, nat), InstructionError>(
            (n, prefix.len() + spec_varint_encode(n).len()),
        ),
{
    lemma_read_varint_at(prefix, n, rest);
}

proof fn lemma_key_at_one(p: u8, key: Seq<u8>, rest: Seq<u8>)
    requires
        key.len() <= u64::MAX,
    ensures
        spec_field_bytes(seq![p] + spec_prepend_varint_width(key) + rest, 1) == Some(
            Ok::<(Seq<u8>, nat), InstructionError>((key, 1 + spec_prepend_varint_width(key).len())),
        ),
{
    lemma_read_bytes_at(seq![p], key, rest);
}

/// Parsing the bytes of an instruction gives it back, with the number of its bytes, whatever
/// follows them.
#[verifier::rlimit(40)]
pub proof fn lemma_instruction_roundtrip(v: InstructionView, rest: Seq<u8>)
    requires
        instruction_fits(v),
    ensures
        spec_parse_instruction(spec_instruction_bytes(v) + rest) == Some(
            Ok::<(InstructionView, nat), InstructionError>((v, spec_instruction_bytes(v).len())),
        ),
{
    reveal(spec_parse_instruction);
    let b = spec_instruction_bytes(v);
    let d = b + rest;
    match v {
        InstructionView::Put { key, value } => {
            lemma_key_value_at_one(0x00u8, key, value, rest);
        },
        InstructionView::RevertOne { key, height } => {
            lemma_key_number_at_one(0x01u8, key, height, rest);
        },
        InstructionView::RevertAll { height } => {
            lemma_number_at(seq![0x02u8], height, rest);
        },
        InstructionView::RemoveOne { key } => {
            lemma_key_at_one(0x03u8, key, rest);
        },
        InstructionView::RemoveAll => {},
        InstructionView::TransactionStart { transaction_id } => {
            lemma_number_at(seq![0x05u8], transaction_id, rest);
        },
        InstructionView::TransactionalSet { key, value, transaction_id } => {
            let et = spec_varint_encode(transaction_id);
            let kv = seq![0x06u8] + spec_prepend_varint_width(key) + spec_prepend_varint_width(value);
            assert(d =~= kv + (et + rest));
            lemma_key_value_at_one(0x06u8, key, value, et + rest);
            lemma_number_at(kv, transaction_id, rest);
        },
        InstructionView::TransactionalRevertOne { key, height, transaction_id } => {
            let et = spec_varint_encode(transaction_id);
            let kh = seq![0x07u8] + spec_prepend_varint_width(key) + spec_varint_encode(height);
            assert(d =~= kh + (et + rest));
            lemma_key_number_at_one(0x07u8, key, height, et + rest);
            lemma_number_at(kh, transaction_id, rest);
        },
        InstructionView::TransactionalRemoveOne { key, transaction_id } => {
            lemma_key_number_at_one(0x08u8, key, transaction_id, rest);
        },
        InstructionView::TransactionCommit { transaction_id } => {
            lemma_number_at(seq![0x09u8], transaction_id, rest);
        },
        InstructionView::TransactionAbort { transaction_id } => {
            lemma_number_at(seq![0x10u8], transaction_id, rest);
        },
    }
}


impl InstructionError {
    pub open spec fn spec_marshal(self) -> Seq<u8> {
        match self {
            InstructionError::MissingPrefixByte => seq![0x01u8],
            InstructionError::KeyExceedsMaxLength => seq![0x02u8],
            InstructionError::VarIntError(e) => seq![0x03u8] + e.spec_marshal(),
            InstructionError::UnknownPrefix(b) => seq![0x04u8, b],
            InstructionError::PackTooShort(n) => seq![0x05u8] + spec_u64_le(n as u64),
            InstructionError::UnexpectedMagicNumber(m) => seq![0x06u8] + m@,
            InstructionError::UnexpectedPackVersion(b) => seq![0x07u8, b],
            InstructionError::ErrorCorrection(e) => seq![0x08u8] + e.spec_marshal(),
            InstructionError::UnexpectedECCMode(b) => seq![0x09u8, b],
        }
    }

    /// What `parse` gives for `data`; `None` where it would index past the end. An unknown
    /// prefix reads as a missing prefix byte.
    pub open spec fn spec_parse(data: Seq<u8>) -> Option<(InstructionError, nat)> {
        if data.len() == 0 {
            None
        } else {
            let p = data[0];
            let rest = data.subrange(1, data.len() as int);
            if p == 0x02 {
                Some((InstructionError::KeyExceedsMaxLength, 1))
            } else if p == 0x03 {
                match VarIntError::spec_parse(rest) {
                    None => None,
                    Some((e, n)) => Some((InstructionError::VarIntError(e), 1 + n)),
                }
            } else if p == 0x04 || p == 0x07 || p == 0x09 {
                if data.len() < 2 {
                    None
                } else if p == 0x04 {
                    Some((InstructionError::UnknownPrefix(data[1]), 2))
                } else if p == 0x07 {
                    Some((InstructionError::UnexpectedPackVersion(data[1]), 2))
                } else {
                    Some((InstructionError::UnexpectedECCMode(data[1]), 2))
                }
            } else if p == 0x05 {
                if data.len() < 9 {
                    None
                } else {
                    Some((InstructionError::PackTooShort(spec_u64_from_le(rest) as usize), 9))
                }
            } else if p == 0x06 {
                if data.len() < 5 {
                    None
                } else {
                    Some(
                        (
                            InstructionError::UnexpectedMagicNumber([data[1], data[2], data[3], data[4]]),
                            5,
                        ),
                    )
                }
            } else if p == 0x08 {
                match ErrorCorrectionError::spec_parse(rest) {
                    None => None,
                    Some((e, n)) => Some((InstructionError::ErrorCorrection(e), 1 + n)),
                }
            } else {
                Some((InstructionError::MissingPrefixByte, 1))
            }
        }
    }

    pub fn marshal(&self) -> (result: Vec<u8>)
        ensures
            result@ == self.spec_marshal(),
    {
        let mut result: Vec<u8> = Vec::new();
        match self {
            InstructionError::MissingPrefixByte => result.push(0x01u8),
            InstructionError::KeyExceedsMaxLength => result.push(0x02u8),
            InstructionError::VarIntError(e) => {
                result.push(0x03u8);
                append_bytes(&mut result, &e.marshal());
            },
            InstructionError::UnknownPrefix(b) => {
                result.push(0x04u8);
                result.push(*b);
            },
            InstructionError::PackTooShort(n) => {
                result.push(0x05u8);
                append_bytes(&mut result, &u64_to_u8_array(*n as u64));
            },
            InstructionError::UnexpectedMagicNumber(m) => {
                result.push(0x06u8);
                append_bytes(&mut result, m);
            },
            InstructionError::UnexpectedPackVersion(b) => {
                result.push(0x07u8);
                result.push(*b);
            },
            InstructionError::ErrorCorrection(e) => {
                result.push(0x08u8);
                append_bytes(&mut result, &e.marshal());
            },
            InstructionError::UnexpectedECCMode(b) => {
                result.push(0x09u8);
                result.push(*b);
            },
        }
        assert(result@ =~= self.spec_marshal());
        result
    }

    pub fn parse(data: &[u8]) -> (result: Result<(InstructionError, usize), InstructionError>)
        requires
            Self::spec_parse(data@) is Some,
        ensures
            result matches Ok((e, n)) && Self::spec_parse(data@) == Some((e, n as nat)),
    {
        let p = data[0];
        let rest = tail_bytes(data, 1);
        if p == 0x02 {
            Ok((InstructionError::KeyExceedsMaxLength, 1))
        } else if p == 0x03 {
            match VarIntError::parse(rest) {
                Ok((e, n)) => Ok((InstructionError::VarIntError(e), 1 + n)),
                Err(e) => Err(InstructionError::VarIntError(e)),
            }
        } else if p == 0x04 {
            Ok((InstructionError::UnknownPrefix(data[1]), 2))
        } else if p == 0x07 {
            Ok((InstructionError::UnexpectedPackVersion(data[1]), 2))
        } else if p == 0x09 {
            Ok((InstructionError::UnexpectedECCMode(data[1]), 2))
        } else if p == 0x05 {
            let n = read_u64_le(data, 1);
            proof {
                assert(rest@.subrange(0, 8) =~= data@.subrange(1, 9));
            }
            Ok((InstructionError::PackTooShort(n as usize), 9))
        } else if p == 0x06 {
            Ok((InstructionError::UnexpectedMagicNumber([data[1], data[2], data[3], data[4]]), 5))
        } else if p == 0x08 {
            match ErrorCorrectionError::parse(rest) {
                Ok((e, n)) => Ok((InstructionError::ErrorCorrection(e), 1 + n)),
                Err(e) => Err(InstructionError::ErrorCorrection(e)),
            }
        } else {
            Ok((InstructionError::MissingPrefixByte, 1))
        }
    }

    /// Parsing the marshalled error gives it back, whatever follows it, save that a pack
    /// length is read back through `u64`.
    pub proof fn lemma_roundtrip(self, rest: Seq<u8>)
        ensures
            Self::spec_parse(self.spec_marshal() + rest) == Some((self, self.spec_marshal().len())),
    {
        let d = self.spec_marshal() + rest;
        let tail = d.subrange(1, d.len() as int);
        match self {
            InstructionError::VarIntError(e) => {
                assert(tail =~= e.spec_marshal() + rest);
                e.lemma_roundtrip(rest);
            },
            InstructionError::ErrorCorrection(e) => {
                assert(tail =~= e.spec_marshal() + rest);
                e.lemma_roundtrip(rest);
            },
            InstructionError::PackTooShort(n) => {
                lemma_u64_le_roundtrip(n as u64);
                assert(tail.subrange(0, 8) =~= spec_u64_le(n as u64));
            },
            InstructionError::UnexpectedMagicNumber(m) => {
                assert(m@.len() == 4);
                assert([d[1], d[2], d[3], d[4]]@ =~= m@);
                assert([d[1], d[2], d[3], d[4]] == m);
            },
            _ => {},
        }
    }
}


impl Instruction {
    /// A copy of the instruction.
    pub fn duplicate(&self) -> (result: Self)
        ensures
            result@ == self@,
    {
        match self {
            Instruction::Put { key, value } => Instruction::Put {
                key: KVKey::new(key.as_bytes()),
                value: KVValue::new(value.as_bytes()),
            },
            Instruction::RevertOne { key, height } => Instruction::RevertOne {
                key: KVKey::new(key.as_bytes()),
                height: *height,
            },
            Instruction::RevertAll { height } => Instruction::RevertAll { height: *height },
            Instruction::RemoveOne { key } => Instruction::RemoveOne { key: KVKey::new(key.as_bytes()) },
            Instruction::RemoveAll => Instruction::RemoveAll,
            Instruction::TransactionStart { transaction_id } => Instruction::TransactionStart {
                transaction_id: *transaction_id,
            },
            Instruction::TransactionalSet { key, value, transaction_id } => Instruction::TransactionalSet {
                key: KVKey::new(key.as_bytes()),
                value: KVValue::new(value.as_bytes()),
                transaction_id: *transaction_id,
            },
            Instruction::TransactionalRevertOne { key, height, transaction_id } => Instruction::TransactionalRevertOne {
                key: KVKey::new(key.as_bytes()),
                height: *height,
                transaction_id: *transaction_id,
            },
            Instruction::TransactionalRemoveOne { key, transaction_id } => Instruction::TransactionalRemoveOne {
                key: KVKey::new(key.as_bytes()),
                transaction_id: *transaction_id,
            },
            Instruction::TransactionCommit { transaction_id } => Instruction::TransactionCommit {
                transaction_id: *transaction_id,
            },
            Instruction::TransactionAbort { transaction_id } => Instruction::TransactionAbort {
                transaction_id: *transaction_id,
            },
        }
    }
}

/// The bytes of the keys and values an instruction carries.
pub open spec fn instruction_payload_len(v: InstructionView) -> nat {
    match v {
        InstructionView::Put { key, value } => key.len() + value.len(),
        InstructionView::RevertOne { key, .. } => key.len(),
        InstructionView::RemoveOne { key } => key.len(),
        InstructionView::TransactionalSet { key, value, .. } => key.len() + value.len(),
        InstructionView::TransactionalRevertOne { key, .. } => key.len(),
        InstructionView::TransactionalRemoveOne { key, .. } => key.len(),
        _ => 0,
    }
}

/// An instruction takes at most 28 bytes besides its keys and values.
pub proof fn lemma_instruction_bytes_len(v: InstructionView)
    requires
        instruction_fits(v),
    ensures
        spec_instruction_bytes(v).len() <= 28 + instruction_payload_len(v),
{
    match v {
        InstructionView::Put { key, value } => {
            crate::utils::varint::lemma_varint_encode_len(key.len() as u64);
            crate::utils::varint::lemma_varint_encode_len(value.len() as u64);
        },
        InstructionView::RevertOne { key, height } => {
            crate::utils::varint::lemma_varint_encode_len(key.len() as u64);
            crate::utils::varint::lemma_varint_encode_len(height);
        },
        InstructionView::RevertAll { height } => {
            crate::utils::varint::lemma_varint_encode_len(height);
        },
        InstructionView::RemoveOne { key } => {
            crate::utils::varint::lemma_varint_encode_len(key.len() as u64);
        },
        InstructionView::RemoveAll => {},
        InstructionView::TransactionStart { transaction_id } => {
            crate::utils::varint::lemma_varint_encode_len(transaction_id);
        },
        InstructionView::TransactionalSet { key, value, transaction_id } => {
            crate::utils::varint::lemma_varint_encode_len(key.len() as u64);
            crate::utils::varint::lemma_varint_encode_len(value.len() as u64);
            crate::utils::varint::lemma_varint_encode_len(transaction_id);
        },
        InstructionView::TransactionalRevertOne { key, height, transaction_id } => {
            crate::utils::varint::lemma_varint_encode_len(key.len() as u64);
            crate::utils::varint::lemma_varint_encode_len(height);
            crate::utils::varint::lemma_varint_encode_len(transaction_id);
        },
        InstructionView::TransactionalRemoveOne { key, transaction_id } => {
            crate::utils::varint::lemma_varint_encode_len(key.len() as u64);
            crate::utils::varint::lemma_varint_encode_len(transaction_id);
        },
        InstructionView::TransactionCommit { transaction_id } => {
            crate::utils::varint::lemma_varint_encode_len(transaction_id);
        },
        InstructionView::TransactionAbort { transaction_id } => {
            crate::utils::varint::lemma_varint_encode_len(transaction_id);
        },
    }
}

/// The magic number as a sequence.
pub open spec fn spec_pack_magic() -> Seq<u8> {
    seq![0xB1u8, 0x0Cu8, 0xDAu8, 0x7Au8]
}

/// The error-corrected form of `raw` in `mode`.
pub open spec fn spec_ecc_encode(raw: Seq<u8>, mode: ECCMode) -> Seq<u8> {
    match mode {
        ECCMode::Identity => raw,
        ECCMode::TMR => spec_tmr_encode(raw),
    }
}

/// An instruction pack: magic (4 bytes), version (1), width of what follows (4, little-endian,
/// counting the mode byte), the ECC mode byte, then the instruction's bytes in error-corrected
/// form.
pub open spec fn spec_pack(v: InstructionView, mode: ECCMode) -> Seq<u8> {
    let ecc = spec_ecc_encode(spec_instruction_bytes(v), mode);
    spec_pack_magic() + seq![INSTRUCTION_PACK_VERSION] + spec_u32_le((1 + ecc.len()) as u32) + seq![
        mode.spec_code(),
    ] + ecc
}

/// The width field of a pack's header.
pub open spec fn spec_pack_width(pack: Seq<u8>) -> nat {
    spec_u32_from_le(pack.subrange(5, 9)) as nat
}

/// What `unpack_instruction` gives for `pack`; `None` where it would index past the end (a
/// width of zero, or instruction bytes whose widths overrun them).
pub open spec fn spec_unpack(pack: Seq<u8>) -> Option<Result<(InstructionView, nat), InstructionError>> {
    if pack.len() < 9 {
        Some(Err(InstructionError::PackTooShort(pack.len() as usize)))
    } else if pack.subrange(0, 4) != spec_pack_magic() {
        Some(Err(InstructionError::UnexpectedMagicNumber([pack[0], pack[1], pack[2], pack[3]])))
    } else if pack[4] != INSTRUCTION_PACK_VERSION {
        Some(Err(InstructionError::UnexpectedPackVersion(pack[4])))
    } else if 9 + spec_pack_width(pack) > pack.len() {
        Some(Err(InstructionError::PackTooShort(pack.len() as usize)))
    } else if spec_pack_width(pack) == 0 {
        None
    } else {
        let full = 9 + spec_pack_width(pack);
        let mode = pack[9];
        let ecc_data = pack.subrange(10, full as int);
        if mode == 0x00 {
            match spec_parse_instruction(ecc_data) {
                None => None,
                Some(Err(e)) => Some(Err(e)),
                Some(Ok((v, _))) => Some(Ok((v, full))),
            }
        } else if mode == 0x01 {
            if ecc_data.len() % 3 != 0 {
                Some(
                    Err(
                        InstructionError::ErrorCorrection(
                            ErrorCorrectionError::DataWidthNotDivisibleByModulus(ecc_data.len() as usize),
                        ),
                    ),
                )
            } else {
                match spec_parse_instruction(spec_tmr_decode(ecc_data)) {
                    None => None,
                    Some(Err(e)) => Some(Err(e)),
                    Some(Ok((v, _))) => Some(Ok((v, full))),
                }
            }
        } else {
            Some(Err(InstructionError::UnexpectedECCMode(mode)))
        }
    }
}

/// The instruction in a pack of the given error-correction mode.
pub fn pack_instruction(instruction: &Instruction, ecc_mode: ECCMode) -> (result: Vec<u8>)
    requires
        3 * spec_instruction_bytes(instruction@).len() + 1 <= usize::MAX,
    ensures
        result@ == spec_pack(instruction@, ecc_mode),
{
    let instruction_bytes = instruction.serialize();
    let mut pack_bytes: Vec<u8> = Vec::new();
    append_bytes(&mut pack_bytes, &INSTRUCTION_PACK_MAGIC);
    pack_bytes.push(INSTRUCTION_PACK_VERSION);
    let ecc_data_bytes = match ecc_mode {
        ECCMode::Identity => IdentityCode::new().encode(&instruction_bytes),
        ECCMode::TMR => TripleRedundancyCode::new().encode(&instruction_bytes),
    };
    let data_length = 1 + ecc_data_bytes.len();
    append_bytes(&mut pack_bytes, &u32_to_u8_array(data_length as u32));
    pack_bytes.push(ecc_mode.code());
    append_bytes(&mut pack_bytes, &ecc_data_bytes);
    assert(INSTRUCTION_PACK_MAGIC@ =~= spec_pack_magic());
    assert(pack_bytes@ =~= spec_pack(instruction@, ecc_mode));
    pack_bytes
}

/// Reads the instruction in the pack at the start of `pack_bytes`, with the width of the pack.
pub fn unpack_instruction(pack_bytes: &[u8]) -> (result: Result<(Instruction, usize), InstructionError>)
    requires
        spec_unpack(pack_bytes@) is Some,
    ensures
        match result {
            Ok((i, n)) => spec_unpack(pack_bytes@) == Some(
                Ok::<(InstructionView, nat), InstructionError>((i@, n as nat)),
            ),
            Err(e) => spec_unpack(pack_bytes@) == Some(Err::<(InstructionView, nat), InstructionError>(e)),
        },
{
    match unpack_checked(pack_bytes) {
        Some(r) => r,
        None => {
            assert(false);
            Err(InstructionError::MissingPrefixByte)
        },
    }
}

/// Like `unpack_instruction`, with `None` where it would index past the end.
pub fn unpack_checked(pack_bytes: &[u8]) -> (result: Option<Result<(Instruction, usize), InstructionError>>)
    ensures
        match result {
            None => spec_unpack(pack_bytes@) is None,
            Some(Ok((i, n))) => spec_unpack(pack_bytes@) == Some(
                Ok::<(InstructionView, nat), InstructionError>((i@, n as nat)),
            ) && n <= pack_bytes@.len(),
            Some(Err(e)) => spec_unpack(pack_bytes@) == Some(
                Err::<(InstructionView, nat), InstructionError>(e),
            ),
        },
{
    let len = pack_bytes.len();
    if len < 9 {
        return Some(Err(InstructionError::PackTooShort(len)));
    }
    let magic_ok = pack_bytes[0] == INSTRUCTION_PACK_MAGIC[0] && pack_bytes[1]
        == INSTRUCTION_PACK_MAGIC[1] && pack_bytes[2] == INSTRUCTION_PACK_MAGIC[2] && pack_bytes[3]
        == INSTRUCTION_PACK_MAGIC[3];
    proof {
        assert(magic_ok <==> pack_bytes@.subrange(0, 4) =~= spec_pack_magic());
    }
    if !magic_ok {
        return Some(
            Err(
                InstructionError::UnexpectedMagicNumber(
                    [pack_bytes[0], pack_bytes[1], pack_bytes[2], pack_bytes[3]],
                ),
            ),
        );
    }
    if pack_bytes[4] != INSTRUCTION_PACK_VERSION {
        return Some(Err(InstructionError::UnexpectedPackVersion(pack_bytes[4])));
    }
    let ecc_data_width = byte_slice_to_u32(sub_bytes(pack_bytes, 5, 9));
    if ecc_data_width as usize > len - 9 {
        return Some(Err(InstructionError::PackTooShort(len)));
    }
    if ecc_data_width == 0 {
        return None;
    }
    let expected_full_width = 9 + ecc_data_width as usize;
    let ecc_mode = pack_bytes[9];
    let ecc_data_bytes = sub_bytes(pack_bytes, 10, expected_full_width);
    let raw_instruction_bytes = if ecc_mode == 0x00 {
        match IdentityCode::new().decode(ecc_data_bytes) {
            Ok(r) => r,
            Err(e) => return Some(Err(InstructionError::ErrorCorrection(e))),
        }
    } else if ecc_mode == 0x01 {
        match TripleRedundancyCode::new().decode(ecc_data_bytes) {
            Ok(r) => r,
            Err(e) => return Some(Err(InstructionError::ErrorCorrection(e))),
        }
    } else {
        return Some(Err(InstructionError::UnexpectedECCMode(ecc_mode)));
    };
    match Instruction::parse_checked(&raw_instruction_bytes) {
        None => None,
        Some(Err(e)) => Some(Err(e)),
        Some(Ok((instruction, _))) => Some(Ok((instruction, expected_full_width))),
    }
}

/// Unpacking a pack gives its instruction back, with the width of the pack, whatever follows
/// it.
pub proof fn lemma_pack_roundtrip(v: InstructionView, mode: ECCMode, rest: Seq<u8>)
    requires
        instruction_fits(v),
        1 + 3 * spec_instruction_bytes(v).len() <= u32::MAX,
    ensures
        spec_unpack(spec_pack(v, mode) + rest) == Some(
            Ok::<(InstructionView, nat), InstructionError>((v, spec_pack(v, mode).len())),
        ),
{
    let raw = spec_instruction_bytes(v);
    let ecc = spec_ecc_encode(raw, mode);
    let w = (1 + ecc.len()) as u32;
    let p = spec_pack(v, mode);
    let d = p + rest;
    lemma_u32_le_roundtrip(w);
    assert(d.subrange(0, 4) =~= spec_pack_magic());
    assert(d.subrange(5, 9) =~= spec_u32_le(w));
    assert(spec_pack_width(d) == 1 + ecc.len());
    assert(d.subrange(10, 10 + ecc.len() as int) =~= ecc);
    lemma_instruction_roundtrip(v, Seq::empty());
    assert(raw + Seq::<u8>::empty() =~= raw);
    match mode {
        ECCMode::Identity => {},
        ECCMode::TMR => {
            crate::storage::ecc::lemma_tmr_roundtrip(raw);
        },
    }
}

} // verus!
