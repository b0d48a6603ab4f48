//! The errors of the servers, with their byte form.

use vstd::prelude::*;
use crate::storage::executor::command_error::CommandError;
use crate::storage::executor::errors::ExecutorError;
use crate::storage::executor::predicate::PredicateError;
use crate::storage::chain_height::ChainHeightError;
use crate::storage::errors::KVError;
use crate::storage::log_version::LogVersionError;
use crate::system_error::SystemError;
use crate::utils::bytes::{append_bytes, tail_bytes};

verus! {

#[derive(Debug, Clone, PartialEq, Eq)]
pub enum ServerError {
    TinyHTTPError,
    ExecutorError(ExecutorError),
    BodyExtractionError(SystemError),
    UrlParsingError,
    BodyParsingError,
    ParseIntError(SystemError),
    HttpResponseError(SystemError),
    PredicateError(PredicateError),
    SenderError,
    ReceiverError(SystemError),
    TCPServerError(SystemError),
    CommandError(CommandError),
    ThreadError,
    ParseServerErrorError,
    SystemError(SystemError),
}

/// The first byte of each server error's byte form.
#[derive(Debug, Clone, Copy, PartialEq, Eq, Structural)]
pub enum ServerErrorPrefix {
    TinyHTTPError,
    ExecutorError,
    BodyExtractionError,
    UrlParsingError,
    BodyParsingError,
    ParseIntError,
    HttpResponseError,
    PredicateError,
    SenderError,
    ReceiverError,
    TCPServerError,
    CommandError,
    ThreadError,
    ParseServerErrorError,
    SystemError,
}

impl ServerErrorPrefix {
    pub open spec fn spec_byte(self) -> u8 {
        match self {
            ServerErrorPrefix::TinyHTTPError => 0x01,
            ServerErrorPrefix::ExecutorError => 0x02,
            ServerErrorPrefix::BodyExtractionError => 0x03,
            ServerErrorPrefix::UrlParsingError => 0x04,
            ServerErrorPrefix::BodyParsingError => 0x05,
            ServerErrorPrefix::ParseIntError => 0x06,
            ServerErrorPrefix::HttpResponseError => 0x07,
            ServerErrorPrefix::PredicateError => 0x08,
            ServerErrorPrefix::SenderError => 0x09,
            ServerErrorPrefix::ReceiverError => 0x0A,
            ServerErrorPrefix::TCPServerError => 0x0B,
            ServerErrorPrefix::CommandError => 0x0C,
            ServerErrorPrefix::ThreadError => 0x0D,
            ServerErrorPrefix::ParseServerErrorError => 0x0E,
            ServerErrorPrefix::SystemError => 0x0F,
        }
    }

    pub fn byte(&self) -> (result: u8)
        ensures
            result == self.spec_byte(),
    {
        match self {
            ServerErrorPrefix::TinyHTTPError => 0x01,
            ServerErrorPrefix::ExecutorError => 0x02,
            ServerErrorPrefix::BodyExtractionError => 0x03,
            ServerErrorPrefix::UrlParsingError => 0x04,
            ServerErrorPrefix::BodyParsingError => 0x05,
            ServerErrorPrefix::ParseIntError => 0x06,
            ServerErrorPrefix::HttpResponseError => 0x07,
            ServerErrorPrefix::PredicateError => 0x08,
            ServerErrorPrefix::SenderError => 0x09,
            ServerErrorPrefix::ReceiverError => 0x0A,
            ServerErrorPrefix::TCPServerError => 0x0B,
            ServerErrorPrefix::CommandError => 0x0C,
            ServerErrorPrefix::ThreadError => 0x0D,
            ServerErrorPrefix::ParseServerErrorError => 0x0E,
            ServerErrorPrefix::SystemError => 0x0F,
        }
    }
}

impl ServerError {
    /// The byte form: the prefix, then the inner error's byte form. A receiver error is always
    /// written with the code of `SystemError::ReceiverError`, whatever it holds.
    pub open spec fn spec_marshal(self) -> Seq<u8> {
        match self {
            ServerError::TinyHTTPError => seq![0x01u8],
            ServerError::ExecutorError(e) => seq![0x02u8] + e.spec_marshal(),
            ServerError::BodyExtractionError(e) => seq![0x03u8, e.spec_code()],
            ServerError::UrlParsingError => seq![0x04u8],
            ServerError::BodyParsingError => seq![0x05u8],
            ServerError::ParseIntError(e) => seq![0x06u8, e.spec_code()],
            ServerError::HttpResponseError(e) => seq![0x07u8, e.spec_code()],
            ServerError::PredicateError(e) => seq![0x08u8] + e.spec_marshal(),
            ServerError::SenderError => seq![0x09u8],
            ServerError::ReceiverError(_) => seq![0x0Au8, SystemError::ReceiverError.spec_code()],
            ServerError::TCPServerError(e) => seq![0x0Bu8, e.spec_code()],
            ServerError::CommandError(e) => seq![0x0Cu8] + e.spec_marshal(),
            ServerError::ThreadError => seq![0x0Du8],
            ServerError::ParseServerErrorError => seq![0x0Eu8],
            ServerError::SystemError(e) => seq![0x0Fu8, e.spec_code()],
        }
    }

    /// What `parse` gives for `data`; `None` where it would index past the end. A prefix that
    /// names no other error reads as `ParseServerErrorError`.
    pub open spec fn spec_parse(data: Seq<u8>) -> Option<(ServerError, nat)> {
        if data.len() == 0 {
            None
        } else {
            let p = data[0];
            let rest = data.subrange(1, data.len() as int);
            if p == 0x01 {
                Some((ServerError::TinyHTTPError, 1))
            } else if p == 0x02 {
                match ExecutorError::spec_parse(rest) {
                    None => None,
                    Some((e, n)) => Some((ServerError::ExecutorError(e), 1 + n)),
                }
            } else if p == 0x03 {
                match SystemError::spec_parse(rest) {
                    None => None,
                    Some((e, n)) => Some((ServerError::BodyExtractionError(e), 1 + n)),
                }
            } else if p == 0x04 {
                Some((ServerError::UrlParsingError, 1))
            } else if p == 0x05 {
                Some((ServerError::BodyParsingError, 1))
            } else if p == 0x06 {
                match SystemError::spec_parse(rest) {
                    None => None,
                    Some((e, n)) => Some((ServerError::ParseIntError(e), 1 + n)),
                }
            } else if p == 0x07 {
                match SystemError::spec_parse(rest) {
                    None => None,
                    Some((e, n)) => Some((ServerError::HttpResponseError(e), 1 + n)),
                }
            } else if p == 0x08 {
                match PredicateError::spec_parse(rest) {
                    None => None,
                    Some((e, n)) => Some((ServerError::PredicateError(e), 1 + n)),
                }
            } else if p == 0x09 {
                Some((ServerError::SenderError, 1))
            } else if p == 0x0A {
                match SystemError::spec_parse(rest) {
                    None => None,
                    Some((e, n)) => Some((ServerError::ReceiverError(e), 1 + n)),
                }
            } else if p == 0x0B {
                match SystemError::spec_parse(rest) {
                    None => None,
                    Some((e, n)) => Some((ServerError::TCPServerError(e), 1 + n)),
                }
            } else if p == 0x0C {
                match CommandError::spec_parse(rest) {
                    None => None,
                    Some((e, n)) => Some((ServerError::CommandError(e), 1 + n)),
                }
            } else if p == 0x0D {
                Some((ServerError::ThreadError, 1))
            } else if p == 0x0F {
                match SystemError::spec_parse(rest) {
                    None => None,
                    Some((e, n)) => Some((ServerError::SystemError(e), 1 + n)),
                }
            } else {
                Some((ServerError::ParseServerErrorError, 1))
            }
        }
    }

    pub fn marshal(&self) -> (result: Vec<u8>)
        ensures
            result@ == self.spec_marshal(),
    {
        match self {
            ServerError::TinyHTTPError => {
                let result = vec![ServerErrorPrefix::TinyHTTPError.byte()];
                assert(result@ =~= self.spec_marshal());
                result
            },
            ServerError::ExecutorError(error) => {
                let mut result = vec![ServerErrorPrefix::ExecutorError.byte()];
                append_bytes(&mut result, &error.marshal());
                result
            },
            ServerError::BodyExtractionError(error) => {
                let result = vec![ServerErrorPrefix::BodyExtractionError.byte(), error.marshal()];
                assert(result@ =~= self.spec_marshal());
                result
            },
            ServerError::UrlParsingError => {
                let result = vec![ServerErrorPrefix::UrlParsingError.byte()];
                assert(result@ =~= self.spec_marshal());
                result
            },
            ServerError::BodyParsingError => {
                let result = vec![ServerErrorPrefix::BodyParsingError.byte()];
                assert(result@ =~= self.spec_marshal());
                result
            },
            ServerError::ParseIntError(error) => {
                let result = vec![ServerErrorPrefix::ParseIntError.byte(), error.marshal()];
                assert(result@ =~= self.spec_marshal());
                result
            },
            ServerError::HttpResponseError(error) => {
                let result = vec![ServerErrorPrefix::HttpResponseError.byte(), error.marshal()];
                assert(result@ =~= self.spec_marshal());
                result
            },
            ServerError::PredicateError(error) => {
                let mut result = vec![ServerErrorPrefix::PredicateError.byte()];
                append_bytes(&mut result, &error.marshal());
                result
            },
            ServerError::SenderError => {
                let result = vec![ServerErrorPrefix::SenderError.byte()];
                assert(result@ =~= self.spec_marshal());
                result
            },
            ServerError::ReceiverError(_) => {
                let result = vec![ServerErrorPrefix::ReceiverError.byte(), SystemError::ReceiverError.marshal()];
                assert(result@ =~= self.spec_marshal());
                result
            },
            ServerError::TCPServerError(error) => {
                let result = vec![ServerErrorPrefix::TCPServerError.byte(), error.marshal()];
                assert(result@ =~= self.spec_marshal());
                result
            },
            ServerError::CommandError(error) => {
                let mut result = vec![ServerErrorPrefix::CommandError.byte()];
                append_bytes(&mut result, &error.marshal());
                result
            },
            ServerError::ThreadError => {
                let result = vec![ServerErrorPrefix::ThreadError.byte()];
                assert(result@ =~= self.spec_marshal());
                result
            },
            ServerError::ParseServerErrorError => {
                let result = vec![ServerErrorPrefix::ParseServerErrorError.byte()];
                assert(result@ =~= self.spec_marshal());
                result
            },
            ServerError::SystemError(error) => {
                let result = vec![ServerErrorPrefix::SystemError.byte(), error.marshal()];
                assert(result@ =~= self.spec_marshal());
                result
            },
        }
    }

    pub fn parse(data: &[u8]) -> (result: Result<(ServerError, usize), ServerError>)
        requires
            Self::spec_parse(data@) is Some,
        ensures
            result matches Ok((e, n)) && Self::spec_parse(data@) == Some((e, n as nat)),
    {
        let prefix = data[0];
        let rest = tail_bytes(data, 1);
        if prefix == 0x01 {
            Ok((ServerError::TinyHTTPError, 1))
        } else if prefix == 0x02 {
            match ExecutorError::parse(rest) {
                Ok((e, n)) => Ok((ServerError::ExecutorError(e), 1 + n)),
                Err(e) => Err(ServerError::ExecutorError(e)),
            }
        } else if prefix == 0x03 {
            match SystemError::parse(rest) {
                Ok((e, n)) => Ok((ServerError::BodyExtractionError(e), 1 + n)),
                Err(e) => Err(ServerError::SystemError(e)),
            }
        } else if prefix == 0x04 {
            Ok((ServerError::UrlParsingError, 1))
        } else if prefix == 0x05 {
            Ok((ServerError::BodyParsingError, 1))
        } else if prefix == 0x06 {
            match SystemError::parse(rest) {
                Ok((e, n)) => Ok((ServerError::ParseIntError(e), 1 + n)),
                Err(e) => Err(ServerError::SystemError(e)),
            }
        } else if prefix == 0x07 {
            match SystemError::parse(rest) {
                Ok((e, n)) => Ok((ServerError::HttpResponseError(e), 1 + n)),
                Err(e) => Err(ServerError::SystemError(e)),
            }
        } else if prefix == 0x08 {
            match PredicateError::parse(rest) {
                Ok((e, n)) => Ok((ServerError::PredicateError(e), 1 + n)),
                Err(e) => Err(ServerError::PredicateError(e)),
            }
        } else if prefix == 0x09 {
            Ok((ServerError::SenderError, 1))
        } else if prefix == 0x0A {
            match SystemError::parse(rest) {
                Ok((e, n)) => Ok((ServerError::ReceiverError(e), 1 + n)),
                Err(e) => Err(ServerError::SystemError(e)),
            }
        } else if prefix == 0x0B {
            match SystemError::parse(rest) {
                Ok((e, n)) => Ok((ServerError::TCPServerError(e), 1 + n)),
                Err(e) => Err(ServerError::SystemError(e)),
            }
        } else if prefix == 0x0C {
            match CommandError::parse(rest) {
                Ok((e, n)) => Ok((ServerError::CommandError(e), 1 + n)),
                Err(e) => Err(ServerError::CommandError(e)),
            }
        } else if prefix == 0x0D {
            Ok((ServerError::ThreadError, 1))
        } else if prefix == 0x0F {
            match SystemError::parse(rest) {
                Ok((e, n)) => Ok((ServerError::SystemError(e), 1 + n)),
                Err(e) => Err(ServerError::SystemError(e)),
            }
        } else {
            Ok((ServerError::ParseServerErrorError, 1))
        }
    }

    /// Parsing the marshalled error gives it back, whatever follows it, for the errors whose
    /// byte form keeps what they hold and whose inner errors read back.
    #[verifier::rlimit(80)]
    pub proof fn lemma_roundtrip(self, rest: Seq<u8>)
        requires
            !(self matches ServerError::ReceiverError(e) && e != SystemError::ReceiverError),
            !(self matches ServerError::ExecutorError(ExecutorError::KVError(KVError::LogVersionError(LogVersionError::ParseIntError(_))))),
        ensures
            Self::spec_parse(self.spec_marshal() + rest) == Some((self, self.spec_marshal().len())),
    {
        let d = self.spec_marshal() + rest;
        let tail = d.subrange(1, d.len() as int);
        match self {
            ServerError::ExecutorError(e) => {
                e.lemma_roundtrip(rest);
                assert(tail =~= e.spec_marshal() + rest);
            },
            ServerError::BodyExtractionError(e) => {
                e.lemma_roundtrip(rest);
                assert(tail =~= seq![e.spec_code()] + rest);
            },
            ServerError::ParseIntError(e) => {
                e.lemma_roundtrip(rest);
                assert(tail =~= seq![e.spec_code()] + rest);
            },
            ServerError::HttpResponseError(e) => {
                e.lemma_roundtrip(rest);
                assert(tail =~= seq![e.spec_code()] + rest);
            },
            ServerError::PredicateError(e) => {
                e.lemma_roundtrip(rest);
                assert(tail =~= e.spec_marshal() + rest);
            },
            ServerError::TCPServerError(e) => {
                e.lemma_roundtrip(rest);
                assert(tail =~= seq![e.spec_code()] + rest);
            },
            ServerError::CommandError(e) => {
                e.lemma_roundtrip(rest);
                assert(tail =~= e.spec_marshal() + rest);
            },
            ServerError::SystemError(e) => {
                e.lemma_roundtrip(rest);
                assert(tail =~= seq![e.spec_code()] + rest);
            },
            _ => {},
        }
    }
}

} // verus!
