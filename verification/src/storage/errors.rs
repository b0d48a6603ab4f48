//! Errors of the storage engine.

use vstd::prelude::*;
use crate::storage::chain_height::ChainHeightError;
use crate::storage::instruction::InstructionError;
use crate::storage::log_version::LogVersionError;
use crate::storage::transaction_manager::TransactionManagerError;
use crate::system_error::SystemError;
use crate::utils::bytes::{append_bytes, tail_bytes};

verus! {

#[derive(Debug, Clone, Copy, PartialEq, Eq)]
pub enum KVError {
    IOError(SystemError),
    InstructionError(InstructionError),
    RevertOutOfRange,
    ParseIntError(SystemError),
    ChainHeightError(ChainHeightError),
    PointToUnexpectedInstruction,
    TransactionManagerError(TransactionManagerError),
    LogVersionError(LogVersionError),
    ParseKVErrorError,
    SystemError(SystemError),
}

impl KVError {
    pub open spec fn spec_marshal(self) -> Seq<u8> {
        match self {
            KVError::IOError(e) => seq![0x01u8, e.spec_code()],
            KVError::InstructionError(e) => seq![0x02u8] + e.spec_marshal(),
            KVError::RevertOutOfRange => seq![0x03u8],
            KVError::ParseIntError(e) => seq![0x04u8, e.spec_code()],
            KVError::ChainHeightError(e) => seq![0x05u8] + e.spec_marshal(),
            KVError::PointToUnexpectedInstruction => seq![0x06u8],
            KVError::TransactionManagerError(e) => seq![0x07u8] + e.spec_marshal(),
            KVError::LogVersionError(e) => seq![0x08u8] + e.spec_marshal(),
            KVError::ParseKVErrorError => seq![0x09u8],
            KVError::SystemError(e) => seq![0x10u8, e.spec_code()],
        }
    }

    /// What `parse` gives for `data`; `None` where it would index past the end.
    pub open spec fn spec_parse(data: Seq<u8>) -> Option<(KVError, nat)> {
        if data.len() == 0 {
            None
        } else {
            let p = data[0];
            let rest = data.subrange(1, data.len() as int);
            if p == 0x01 || p == 0x04 || p == 0x10 {
                match SystemError::spec_parse(rest) {
                    None => None,
                    Some((e, n)) => Some(
                        (
                            if p == 0x01 {
                                KVError::IOError(e)
                            } else if p == 0x04 {
                                KVError::ParseIntError(e)
                            } else {
                                KVError::SystemError(e)
                            },
                            1 + n,
                        ),
                    ),
                }
            } else if p == 0x02 {
                match InstructionError::spec_parse(rest) {
                    None => None,
                    Some((e, n)) => Some((KVError::InstructionError(e), 1 + n)),
                }
            } else if p == 0x03 {
                Some((KVError::RevertOutOfRange, 1))
            } else if p == 0x05 {
                match ChainHeightError::spec_parse(rest) {
                    None => None,
                    Some((e, n)) => Some((KVError::ChainHeightError(e), 1 + n)),
                }
            } else if p == 0x06 {
                Some((KVError::PointToUnexpectedInstruction, 1))
            } else if p == 0x07 {
                match TransactionManagerError::spec_parse(rest) {
                    None => None,
                    Some((e, n)) => Some((KVError::TransactionManagerError(e), 1 + n)),
                }
            } else if p == 0x08 {
                match LogVersionError::spec_parse(rest) {
                    None => None,
                    Some((e, n)) => Some((KVError::LogVersionError(e), 1 + n)),
                }
            } else {
                Some((KVError::ParseKVErrorError, 1))
            }
        }
    }

    pub fn marshal(&self) -> (result: Vec<u8>)
        ensures
            result@ == self.spec_marshal(),
    {
        let mut result: Vec<u8> = Vec::new();
        match self {
            KVError::IOError(e) => {
                result.push(0x01u8);
                result.push(e.marshal());
            },
            KVError::InstructionError(e) => {
                result.push(0x02u8);
                append_bytes(&mut result, &e.marshal());
            },
            KVError::RevertOutOfRange => result.push(0x03u8),
            KVError::ParseIntError(e) => {
                result.push(0x04u8);
                result.push(e.marshal());
            },
            KVError::ChainHeightError(e) => {
                result.push(0x05u8);
                append_bytes(&mut result, &e.marshal());
            },
            KVError::PointToUnexpectedInstruction => result.push(0x06u8),
            KVError::TransactionManagerError(e) => {
                result.push(0x07u8);
                append_bytes(&mut result, &e.marshal());
            },
            KVError::LogVersionError(e) => {
                result.push(0x08u8);
                append_bytes(&mut result, &e.marshal());
            },
            KVError::ParseKVErrorError => result.push(0x09u8),
            KVError::SystemError(e) => {
                result.push(0x10u8);
                result.push(e.marshal());
            },
        }
        assert(result@ =~= self.spec_marshal());
        result
    }

    pub fn parse(data: &[u8]) -> (result: Result<(KVError, usize), KVError>)
        requires
            Self::spec_parse(data@) is Some,
        ensures
            result matches Ok((e, n)) && Self::spec_parse(data@) == Some((e, n as nat)),
    {
        let p = data[0];
        let rest = tail_bytes(data, 1);
        if p == 0x01 || p == 0x04 || p == 0x10 {
            let (e, n) = match SystemError::parse(rest) {
                Ok(r) => r,
                Err(e) => return Err(KVError::SystemError(e)),
            };
            let error = if p == 0x01 {
                KVError::IOError(e)
            } else if p == 0x04 {
                KVError::ParseIntError(e)
            } else {
                KVError::SystemError(e)
            };
            Ok((error, 1 + n))
        } else if p == 0x02 {
            match InstructionError::parse(rest) {
                Ok((e, n)) => Ok((KVError::InstructionError(e), 1 + n)),
                Err(e) => Err(KVError::InstructionError(e)),
            }
        } else if p == 0x03 {
            Ok((KVError::RevertOutOfRange, 1))
        } else if p == 0x05 {
            match ChainHeightError::parse(rest) {
                Ok((e, n)) => Ok((KVError::ChainHeightError(e), 1 + n)),
                Err(e) => Err(KVError::ChainHeightError(e)),
            }
        } else if p == 0x06 {
            Ok((KVError::PointToUnexpectedInstruction, 1))
        } else if p == 0x07 {
            match TransactionManagerError::parse(rest) {
                Ok((e, n)) => Ok((KVError::TransactionManagerError(e), 1 + n)),
                Err(e) => Err(KVError::TransactionManagerError(e)),
            }
        } else if p == 0x08 {
            match LogVersionError::parse(rest) {
                Ok((e, n)) => Ok((KVError::LogVersionError(e), 1 + n)),
                Err(e) => Err(KVError::LogVersionError(e)),
            }
        } else {
            Ok((KVError::ParseKVErrorError, 1))
        }
    }

    /// Parsing the marshalled error gives it back, whatever follows it, for the errors whose
    /// own parse gives them back.
    pub proof fn lemma_roundtrip(self, rest: Seq<u8>)
        requires
            !(self matches KVError::LogVersionError(LogVersionError::ParseIntError(_))),
        ensures
            Self::spec_parse(self.spec_marshal() + rest) == Some((self, self.spec_marshal().len())),
    {
        let d = self.spec_marshal() + rest;
        let tail = d.subrange(1, d.len() as int);
        match self {
            KVError::IOError(e) => {
                assert(tail =~= seq![e.spec_code()] + rest);
                e.lemma_roundtrip(rest);
            },
            KVError::ParseIntError(e) => {
                assert(tail =~= seq![e.spec_code()] + rest);
                e.lemma_roundtrip(rest);
            },
            KVError::SystemError(e) => {
                assert(tail =~= seq![e.spec_code()] + rest);
                e.lemma_roundtrip(rest);
            },
            KVError::InstructionError(e) => {
                assert(tail =~= e.spec_marshal() + rest);
                e.lemma_roundtrip(rest);
            },
            KVError::TransactionManagerError(e) => {
                assert(tail =~= e.spec_marshal() + rest);
                e.lemma_roundtrip(rest);
            },
            KVError::LogVersionError(e) => {
                assert(tail =~= e.spec_marshal() + rest);
                e.lemma_roundtrip(rest);
            },
            KVError::ChainHeightError(e) => {
                assert(tail =~= e.spec_marshal() + rest);
                e.lemma_roundtrip(rest);
            },
            _ => {},
        }
    }
}

} // verus!
