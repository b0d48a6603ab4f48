//! The errors of the executor, with their byte form.

use vstd::prelude::*;
use crate::storage::chain_height::ChainHeightError;
use crate::storage::errors::KVError;
use crate::storage::executor::command_error::CommandError;
use crate::storage::executor::predicate::PredicateError;
use crate::storage::executor::unit_content::UnitContentError;
use crate::storage::kvkey::KVKeyError;
use crate::storage::log_version::LogVersionError;
use crate::system_error::SystemError;
use crate::utils::bytes::{append_bytes, tail_bytes};

verus! {

#[derive(Debug, Clone, PartialEq, Eq)]
pub enum ExecutorError {
    KVError(KVError),
    UnitContentError(UnitContentError),
    ParseIntError(SystemError),
    CommandError(CommandError),
    PredicateError(PredicateError),
    KVKeyError(KVKeyError),
    UnexpectedOutcome,
    ParseExecutorErrorToStringError,
    SystemError(SystemError),
}

/// The first byte of each executor error's byte form.
#[derive(Debug, Clone, Copy, PartialEq, Eq, Structural)]
pub enum ExecutorErrorPrefix {
    KVError,
    UnitContentError,
    ParseIntError,
    CommandError,
    PredicateError,
    KVKeyError,
    UnexpectedOutcome,
    ParseExecutorErrorToStringError,
    SystemError,
}

impl ExecutorErrorPrefix {
    pub open spec fn spec_byte(self) -> u8 {
        match self {
            ExecutorErrorPrefix::KVError => 0x01,
            ExecutorErrorPrefix::UnitContentError => 0x02,
            ExecutorErrorPrefix::ParseIntError => 0x03,
            ExecutorErrorPrefix::CommandError => 0x04,
            ExecutorErrorPrefix::PredicateError => 0x05,
            ExecutorErrorPrefix::KVKeyError => 0x06,
            ExecutorErrorPrefix::UnexpectedOutcome => 0x07,
            ExecutorErrorPrefix::ParseExecutorErrorToStringError => 0x08,
            ExecutorErrorPrefix::SystemError => 0x09,
        }
    }

    pub fn byte(&self) -> (result: u8)
        ensures
            result == self.spec_byte(),
    {
        match self {
            ExecutorErrorPrefix::KVError => 0x01,
            ExecutorErrorPrefix::UnitContentError => 0x02,
            ExecutorErrorPrefix::ParseIntError => 0x03,
            ExecutorErrorPrefix::CommandError => 0x04,
            ExecutorErrorPrefix::PredicateError => 0x05,
            ExecutorErrorPrefix::KVKeyError => 0x06,
            ExecutorErrorPrefix::UnexpectedOutcome => 0x07,
            ExecutorErrorPrefix::ParseExecutorErrorToStringError => 0x08,
            ExecutorErrorPrefix::SystemError => 0x09,
        }
    }
}

impl ExecutorError {
    pub open spec fn spec_marshal(self) -> Seq<u8> {
        match self {
            ExecutorError::KVError(e) => seq![0x01u8] + e.spec_marshal(),
            ExecutorError::UnitContentError(e) => seq![0x02u8] + e.spec_marshal(),
            ExecutorError::ParseIntError(e) => seq![0x03u8, e.spec_code()],
            ExecutorError::CommandError(e) => seq![0x04u8] + e.spec_marshal(),
            ExecutorError::PredicateError(e) => seq![0x05u8] + e.spec_marshal(),
            ExecutorError::KVKeyError(e) => seq![0x06u8] + e.spec_marshal(),
            ExecutorError::UnexpectedOutcome => seq![0x07u8],
            ExecutorError::ParseExecutorErrorToStringError => seq![0x08u8],
            ExecutorError::SystemError(e) => seq![0x09u8, e.spec_code()],
        }
    }

    /// What `parse` gives for `data`; `None` where it would index past the end. A prefix that
    /// names no other error reads as `ParseExecutorErrorToStringError`.
    pub open spec fn spec_parse(data: Seq<u8>) -> Option<(ExecutorError, nat)> {
        if data.len() == 0 {
            None
        } else {
            let p = data[0];
            let rest = data.subrange(1, data.len() as int);
            if p == 0x01 {
                match KVError::spec_parse(rest) {
                    None => None,
                    Some((e, n)) => Some((ExecutorError::KVError(e), 1 + n)),
                }
            } else if p == 0x02 {
                match UnitContentError::spec_parse(rest) {
                    None => None,
                    Some((e, n)) => Some((ExecutorError::UnitContentError(e), 1 + n)),
                }
            } else if p == 0x03 {
                match SystemError::spec_parse(rest) {
                    None => None,
                    Some((e, n)) => Some((ExecutorError::ParseIntError(e), 1 + n)),
                }
            } else if p == 0x04 {
                match CommandError::spec_parse(rest) {
                    None => None,
                    Some((e, n)) => Some((ExecutorError::CommandError(e), 1 + n)),
                }
            } else if p == 0x05 {
                match PredicateError::spec_parse(rest) {
                    None => None,
                    Some((e, n)) => Some((ExecutorError::PredicateError(e), 1 + n)),
                }
            } else if p == 0x06 {
                match KVKeyError::spec_parse(rest) {
                    None => None,
                    Some((e, n)) => Some((ExecutorError::KVKeyError(e), 1 + n)),
                }
            } else if p == 0x07 {
                Some((ExecutorError::UnexpectedOutcome, 1))
            } else if p == 0x09 {
                match SystemError::spec_parse(rest) {
                    None => None,
                    Some((e, n)) => Some((ExecutorError::SystemError(e), 1 + n)),
                }
            } else {
                Some((ExecutorError::ParseExecutorErrorToStringError, 1))
            }
        }
    }

    pub fn marshal(&self) -> (result: Vec<u8>)
        ensures
            result@ == self.spec_marshal(),
    {
        match self {
            ExecutorError::KVError(error) => {
                let mut result = vec![ExecutorErrorPrefix::KVError.byte()];
                append_bytes(&mut result, &error.marshal());
                result
            },
            ExecutorError::UnitContentError(error) => {
                let mut result = vec![ExecutorErrorPrefix::UnitContentError.byte()];
                append_bytes(&mut result, &error.marshal());
                result
            },
            ExecutorError::ParseIntError(error) => {
                let result = vec![ExecutorErrorPrefix::ParseIntError.byte(), error.marshal()];
                assert(result@ =~= self.spec_marshal());
                result
            },
            ExecutorError::CommandError(error) => {
                let mut result = vec![ExecutorErrorPrefix::CommandError.byte()];
                append_bytes(&mut result, &error.marshal());
                result
            },
            ExecutorError::PredicateError(error) => {
                let mut result = vec![ExecutorErrorPrefix::PredicateError.byte()];
                append_bytes(&mut result, &error.marshal());
                result
            },
            ExecutorError::KVKeyError(error) => {
                let mut result = vec![ExecutorErrorPrefix::KVKeyError.byte()];
                append_bytes(&mut result, &error.marshal());
                result
            },
            ExecutorError::UnexpectedOutcome => {
                let result = vec![ExecutorErrorPrefix::UnexpectedOutcome.byte()];
                assert(result@ =~= self.spec_marshal());
                result
            },
            ExecutorError::ParseExecutorErrorToStringError => {
                let result = vec![ExecutorErrorPrefix::ParseExecutorErrorToStringError.byte()];
                assert(result@ =~= self.spec_marshal());
                result
            },
            ExecutorError::SystemError(error) => {
                let result = vec![ExecutorErrorPrefix::SystemError.byte(), error.marshal()];
                assert(result@ =~= self.spec_marshal());
                result
            },
        }
    }

    pub fn parse(data: &[u8]) -> (result: Result<(ExecutorError, usize), ExecutorError>)
        requires
            Self::spec_parse(data@) is Some,
        ensures
            result matches Ok((e, n)) && Self::spec_parse(data@) == Some((e, n as nat)),
    {
        let prefix = data[0];
        let rest = tail_bytes(data, 1);
        if prefix == 0x01 {
            match KVError::parse(rest) {
                Ok((e, n)) => Ok((ExecutorError::KVError(e), 1 + n)),
                Err(e) => Err(ExecutorError::KVError(e)),
            }
        } else if prefix == 0x02 {
            match UnitContentError::parse(rest) {
                Ok((e, n)) => Ok((ExecutorError::UnitContentError(e), 1 + n)),
                Err(e) => Err(ExecutorError::UnitContentError(e)),
            }
        } else if prefix == 0x03 {
            match SystemError::parse(rest) {
                Ok((e, n)) => Ok((ExecutorError::ParseIntError(e), 1 + n)),
                Err(e) => Err(ExecutorError::SystemError(e)),
            }
        } else if prefix == 0x04 {
            match CommandError::parse(rest) {
                Ok((e, n)) => Ok((ExecutorError::CommandError(e), 1 + n)),
                Err(e) => Err(ExecutorError::CommandError(e)),
            }
        } else if prefix == 0x05 {
            match PredicateError::parse(rest) {
                Ok((e, n)) => Ok((ExecutorError::PredicateError(e), 1 + n)),
                Err(e) => Err(ExecutorError::PredicateError(e)),
            }
        } else if prefix == 0x06 {
            match KVKeyError::parse(rest) {
                Ok((e, n)) => Ok((ExecutorError::KVKeyError(e), 1 + n)),
                Err(e) => Err(ExecutorError::KVKeyError(e)),
            }
        } else if prefix == 0x07 {
            Ok((ExecutorError::UnexpectedOutcome, 1))
        } else if prefix == 0x09 {
            match SystemError::parse(rest) {
                Ok((e, n)) => Ok((ExecutorError::SystemError(e), 1 + n)),
                Err(e) => Err(ExecutorError::SystemError(e)),
            }
        } else {
            Ok((ExecutorError::ParseExecutorErrorToStringError, 1))
        }
    }

    /// Parsing the marshalled error gives it back, whatever follows it, for the errors whose
    /// own parse gives them back.
    #[verifier::spinoff_prover]
    #[verifier::rlimit(60)]
    pub proof fn lemma_roundtrip(self, rest: Seq<u8>)
        requires
            !(self matches ExecutorError::KVError(KVError::LogVersionError(LogVersionError::ParseIntError(_)))),
        ensures
            Self::spec_parse(self.spec_marshal() + rest) == Some((self, self.spec_marshal().len())),
    {
        let d = self.spec_marshal() + rest;
        let tail = d.subrange(1, d.len() as int);
        match self {
            ExecutorError::KVError(e) => {
                e.lemma_roundtrip(rest);
                assert(tail =~= e.spec_marshal() + rest);
            },
            ExecutorError::UnitContentError(e) => {
                e.lemma_roundtrip(rest);
                assert(tail =~= e.spec_marshal() + rest);
            },
            ExecutorError::ParseIntError(e) => {
                e.lemma_roundtrip(rest);
                assert(tail =~= seq![e.spec_code()] + rest);
            },
            ExecutorError::CommandError(e) => {
                e.lemma_roundtrip(rest);
                assert(tail =~= e.spec_marshal() + rest);
            },
            ExecutorError::PredicateError(e) => {
                e.lemma_roundtrip(rest);
                assert(tail =~= e.spec_marshal() + rest);
            },
            ExecutorError::KVKeyError(e) => {
                e.lemma_roundtrip(rest);
                assert(tail =~= e.spec_marshal() + rest);
            },
            ExecutorError::SystemError(e) => {
                e.lemma_roundtrip(rest);
                assert(tail =~= seq![e.spec_code()] + rest);
            },
            _ => {},
        }
    }
}

impl From<KVError> for ExecutorError {
    fn from(error: KVError) -> (result: ExecutorError)
        ensures
            result == ExecutorError::KVError(error),
    {
        ExecutorError::KVError(error)
    }
}

impl vstd::std_specs::convert::FromSpecImpl<KVError> for ExecutorError {
    open spec fn obeys_from_spec() -> bool {
        true
    }

    open spec fn from_spec(v: KVError) -> ExecutorError {
        ExecutorError::KVError(v)
    }
}

} // verus!
