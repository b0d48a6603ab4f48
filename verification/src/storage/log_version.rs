//! The version of the log format, written at the start of the log.

use vstd::prelude::*;
use vstd::std_specs::cmp::{PartialEqSpecImpl, PartialOrdSpecImpl};
use std::cmp::Ordering;
use crate::system_error::SystemError;
use crate::utils::decimal::{parse_u8, spec_parse_unsigned};

verus! {

#[derive(Debug, Clone, Copy)]
pub struct LogVersion {
    major: u8,
    minor: u8,
    revise: u8,
}

impl View for LogVersion {
    type V = (u8, u8, u8);

    closed spec fn view(&self) -> (u8, u8, u8) {
        (self.major, self.minor, self.revise)
    }
}

/// Versions ordered by major, then minor, then revision number.
pub open spec fn version_order(a: (u8, u8, u8), b: (u8, u8, u8)) -> Option<Ordering> {
    if a == b {
        Some(Ordering::Equal)
    } else if a.0 > b.0 || (a.0 == b.0 && a.1 > b.1) || (a.0 == b.0 && a.1 == b.1 && a.2 > b.2) {
        Some(Ordering::Greater)
    } else {
        Some(Ordering::Less)
    }
}

/// Whether version `a` is not newer than version `b`.
pub open spec fn version_not_newer(a: (u8, u8, u8), b: (u8, u8, u8)) -> bool {
    version_order(a, b) != Some(Ordering::Greater)
}

/// What `try_from` gives for the three strings.
pub open spec fn spec_version_from_strs(items: Seq<Seq<char>>) -> Result<(u8, u8, u8), LogVersionError> {
    if items.len() < 3 {
        Err(LogVersionError::InvalidString)
    } else if spec_parse_unsigned(items[0], 255) is None || spec_parse_unsigned(items[1], 255) is None
        || spec_parse_unsigned(items[2], 255) is None {
        Err(LogVersionError::ParseIntError(SystemError::ParseIntError))
    } else {
        Ok(
            (
                spec_parse_unsigned(items[0], 255)->Some_0 as u8,
                spec_parse_unsigned(items[1], 255)->Some_0 as u8,
                spec_parse_unsigned(items[2], 255)->Some_0 as u8,
            ),
        )
    }
}

impl LogVersion {
    pub fn new(major: u8, minor: u8, revise: u8) -> (result: Self)
        ensures
            result@ == (major, minor, revise),
    {
        LogVersion { major, minor, revise }
    }

    pub fn marshal(&self) -> (result: Vec<u8>)
        ensures
            result@ == seq![self@.0, self@.1, self@.2],
    {
        let result = vec![self.major, self.minor, self.revise];
        assert(result@ =~= seq![self@.0, self@.1, self@.2]);
        result
    }

    /// The version in the first three bytes of `data`.
    pub fn parse(data: &[u8]) -> (result: Result<(Self, usize), LogVersionError>)
        ensures
            data@.len() < 3 ==> result == Err::<(LogVersion, usize), LogVersionError>(
                LogVersionError::LogVersionParsingError,
            ),
            data@.len() >= 3 ==> (result matches Ok((v, n)) && v@ == (data@[0], data@[1], data@[2])
                && n == 3),
    {
        if data.len() < 3 {
            Err(LogVersionError::LogVersionParsingError)
        } else {
            Ok((LogVersion::new(data[0], data[1], data[2]), 3))
        }
    }

    /// The version whose numbers are written in the first three strings.
    pub fn try_from(items: &[&str]) -> (result: Result<Self, LogVersionError>)
        ensures
            match result {
                Ok(v) => spec_version_from_strs(items@.map_values(|s: &str| s@)) == Ok::<
                    (u8, u8, u8),
                    LogVersionError,
                >(v@),
                Err(e) => spec_version_from_strs(items@.map_values(|s: &str| s@)) == Err::<
                    (u8, u8, u8),
                    LogVersionError,
                >(e),
            },
    {
        let ghost strs = items@.map_values(|s: &str| s@);
        if items.len() < 3 {
            return Err(LogVersionError::InvalidString);
        }
        assert(strs[0] == items@[0]@ && strs[1] == items@[1]@ && strs[2] == items@[2]@);
        let major = match parse_u8(items[0]) {
            Some(v) => v,
            None => return Err(LogVersionError::ParseIntError(SystemError::ParseIntError)),
        };
        let minor = match parse_u8(items[1]) {
            Some(v) => v,
            None => return Err(LogVersionError::ParseIntError(SystemError::ParseIntError)),
        };
        let revise = match parse_u8(items[2]) {
            Some(v) => v,
            None => return Err(LogVersionError::ParseIntError(SystemError::ParseIntError)),
        };
        Ok(LogVersion { major, minor, revise })
    }
}

impl From<&[u8; 3]> for LogVersion {
    fn from(bytes: &[u8; 3]) -> (result: LogVersion)
        ensures
            result@ == (bytes@[0], bytes@[1], bytes@[2]),
    {
        LogVersion { major: bytes[0], minor: bytes[1], revise: bytes[2] }
    }
}

/// The conversion from three bytes reads them as major, minor and revision numbers; its
/// contract is on `from` itself.
impl vstd::std_specs::convert::FromSpecImpl<&[u8; 3]> for LogVersion {
    open spec fn obeys_from_spec() -> bool {
        false
    }

    open spec fn from_spec(v: &[u8; 3]) -> LogVersion {
        arbitrary()
    }
}

impl PartialEq for LogVersion {
    fn eq(&self, other: &Self) -> (result: bool) {
        self.major == other.major && self.minor == other.minor && self.revise == other.revise
    }
}

impl PartialEqSpecImpl for LogVersion {
    open spec fn obeys_eq_spec() -> bool {
        true
    }

    open spec fn eq_spec(&self, other: &LogVersion) -> bool {
        self@ == other@
    }
}

impl PartialOrd for LogVersion {
    fn partial_cmp(&self, other: &Self) -> (result: Option<Ordering>) {
        if self.major == other.major && self.minor == other.minor && self.revise == other.revise {
            Some(Ordering::Equal)
        } else if (self.major > other.major) || (self.major == other.major && self.minor
            > other.minor) || (self.major == other.major && self.minor == other.minor
            && self.revise > other.revise) {
            Some(Ordering::Greater)
        } else {
            Some(Ordering::Less)
        }
    }
}

impl PartialOrdSpecImpl for LogVersion {
    open spec fn obeys_partial_cmp_spec() -> bool {
        true
    }

    open spec fn partial_cmp_spec(&self, other: &LogVersion) -> Option<Ordering> {
        version_order(self@, other@)
    }
}

#[derive(Debug, Clone, Copy, PartialEq, Eq, Structural)]
pub enum LogVersionError {
    LogVersionParsingError,
    InvalidString,
    ParseIntError(SystemError),
    UnexpectedLogVersion,
    ParseLogVersionErrorError,
}

impl LogVersionError {
    pub open spec fn spec_marshal(self) -> Seq<u8> {
        match self {
            LogVersionError::LogVersionParsingError => seq![0x01u8],
            LogVersionError::InvalidString => seq![0x02u8],
            LogVersionError::ParseIntError(e) => seq![0x03u8, e.spec_code()],
            LogVersionError::UnexpectedLogVersion => seq![0x04u8],
            LogVersionError::ParseLogVersionErrorError => seq![0x05u8],
        }
    }

    /// What `parse` gives for `data`; `None` where it would index past the end. A parse-int
    /// error is read from its prefix alone, and reads as `SystemError::ParseIntError`.
    pub open spec fn spec_parse(data: Seq<u8>) -> Option<(LogVersionError, nat)> {
        if data.len() == 0 {
            None
        } else if data[0] == 0x01 {
            Some((LogVersionError::LogVersionParsingError, 1))
        } else if data[0] == 0x02 {
            Some((LogVersionError::InvalidString, 1))
        } else if data[0] == 0x03 {
            Some((LogVersionError::ParseIntError(SystemError::ParseIntError), 1))
        } else if data[0] == 0x04 {
            Some((LogVersionError::UnexpectedLogVersion, 1))
        } else {
            Some((LogVersionError::ParseLogVersionErrorError, 1))
        }
    }

    pub fn marshal(&self) -> (result: Vec<u8>)
        ensures
            result@ == self.spec_marshal(),
    {
        let mut result: Vec<u8> = Vec::new();
        match self {
            LogVersionError::LogVersionParsingError => result.push(0x01u8),
            LogVersionError::InvalidString => result.push(0x02u8),
            LogVersionError::ParseIntError(error) => {
                result.push(0x03u8);
                result.push(error.marshal());
            },
            LogVersionError::UnexpectedLogVersion => result.push(0x04u8),
            LogVersionError::ParseLogVersionErrorError => result.push(0x05u8),
        }
        assert(result@ =~= self.spec_marshal());
        result
    }

    pub fn parse(data: &[u8]) -> (result: Result<(LogVersionError, usize), LogVersionError>)
        requires
            Self::spec_parse(data@) is Some,
        ensures
            result matches Ok((e, n)) && Self::spec_parse(data@) == Some((e, n as nat)),
    {
        let prefix = data[0];
        if prefix == 0x01 {
            Ok((LogVersionError::LogVersionParsingError, 1))
        } else if prefix == 0x02 {
            Ok((LogVersionError::InvalidString, 1))
        } else if prefix == 0x03 {
            Ok((LogVersionError::ParseIntError(SystemError::ParseIntError), 1))
        } else if prefix == 0x04 {
            Ok((LogVersionError::UnexpectedLogVersion, 1))
        } else {
            Ok((LogVersionError::ParseLogVersionErrorError, 1))
        }
    }

    /// Parsing the marshalled error gives it back, save that a parse-int error comes back as
    /// `SystemError::ParseIntError` after its prefix alone.
    pub proof fn lemma_roundtrip(self, rest: Seq<u8>)
        ensures
            Self::spec_parse(self.spec_marshal() + rest) == Some(
                (
                    match self {
                        LogVersionError::ParseIntError(_) => LogVersionError::ParseIntError(
                            SystemError::ParseIntError,
                        ),
                        _ => self,
                    },
                    1nat,
                ),
            ),
    {
    }
}

} // verus!
