//! Errors of the operating system and of std, reduced to a code that can be sent over the wire.

use vstd::prelude::*;

verus! {

#[derive(Debug, Clone, Copy, PartialEq, Eq, Structural)]
pub enum SystemError {
    IOError,
    ParseIntError,
    FromUtf8Error,
    ReceiverError,
    ParseSystemErrorError,
}

impl SystemError {
    pub open spec fn spec_code(self) -> u8 {
        match self {
            SystemError::IOError => 0x01,
            SystemError::ParseIntError => 0x02,
            SystemError::FromUtf8Error => 0x03,
            SystemError::ReceiverError => 0x04,
            SystemError::ParseSystemErrorError => 0x05,
        }
    }

    /// What `parse` gives for `data`; `None` where it would index past the end.
    pub open spec fn spec_parse(data: Seq<u8>) -> Option<(SystemError, nat)> {
        if data.len() == 0 {
            None
        } else if data[0] == 0x01 {
            Some((SystemError::IOError, 1))
        } else if data[0] == 0x02 {
            Some((SystemError::ParseIntError, 1))
        } else if data[0] == 0x03 {
            Some((SystemError::FromUtf8Error, 1))
        } else if data[0] == 0x04 {
            Some((SystemError::ReceiverError, 1))
        } else {
            Some((SystemError::ParseSystemErrorError, 1))
        }
    }

    /// The one-byte code of the error.
    pub fn marshal(&self) -> (result: u8)
        ensures
            result == self.spec_code(),
    {
        match self {
            SystemError::IOError => 0x01,
            SystemError::ParseIntError => 0x02,
            SystemError::FromUtf8Error => 0x03,
            SystemError::ReceiverError => 0x04,
            SystemError::ParseSystemErrorError => 0x05,
        }
    }

    pub fn parse(data: &[u8]) -> (result: Result<(SystemError, usize), SystemError>)
        requires
            Self::spec_parse(data@) is Some,
        ensures
            result matches Ok((e, n)) && Self::spec_parse(data@) == Some((e, n as nat)),
    {
        let prefix = data[0];
        if prefix == 0x01 {
            Ok((SystemError::IOError, 1))
        } else if prefix == 0x02 {
            Ok((SystemError::ParseIntError, 1))
        } else if prefix == 0x03 {
            Ok((SystemError::FromUtf8Error, 1))
        } else if prefix == 0x04 {
            Ok((SystemError::ReceiverError, 1))
        } else {
            Ok((SystemError::ParseSystemErrorError, 1))
        }
    }

    pub proof fn lemma_roundtrip(self, rest: Seq<u8>)
        ensures
            Self::spec_parse(seq![self.spec_code()] + rest) == Some((self, 1nat)),
    {
    }
}

} // verus!
