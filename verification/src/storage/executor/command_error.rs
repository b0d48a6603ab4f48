//! The errors of reading commands and select conditions, with their byte forms.

use vstd::prelude::*;
use crate::storage::executor::grouping_label::GroupingLabelError;
use crate::storage::executor::predicate::PredicateError;
use crate::storage::executor::unit_content::UnitContentError;
use crate::storage::executor::unit_key::UnitKeyError;
use crate::system_error::SystemError;
use crate::utils::bytes::{append_bytes, tail_bytes};
use crate::utils::varint::VarIntError;

verus! {

#[derive(Debug, Clone, PartialEq, Eq, Structural)]
pub enum SelectConditionError {
    InvalidPrefix,
    UnitKeyError(UnitKeyError),
    FromUtf8Error(SystemError),
    PredicateError(PredicateError),
    GroupingError(GroupingLabelError),
    ParseSelectConditionErrorError,
    SystemError(SystemError),
}

/// The first byte of each select-condition error's byte form.
#[derive(Debug, Clone, Copy, PartialEq, Eq, Structural)]
pub enum SelectConditionErrorPrefix {
    InvalidPrefix,
    UnitKeyError,
    FromUtf8Error,
    PredicateError,
    GroupingError,
    ParseSelectConditionErrorError,
    SystemError,
}

impl SelectConditionErrorPrefix {
    pub open spec fn spec_byte(self) -> u8 {
        match self {
            SelectConditionErrorPrefix::InvalidPrefix => 0x01,
            SelectConditionErrorPrefix::UnitKeyError => 0x02,
            SelectConditionErrorPrefix::FromUtf8Error => 0x03,
            SelectConditionErrorPrefix::PredicateError => 0x04,
            SelectConditionErrorPrefix::GroupingError => 0x05,
            SelectConditionErrorPrefix::ParseSelectConditionErrorError => 0x06,
            SelectConditionErrorPrefix::SystemError => 0x07,
        }
    }

    pub fn byte(&self) -> (result: u8)
        ensures
            result == self.spec_byte(),
    {
        match self {
            SelectConditionErrorPrefix::InvalidPrefix => 0x01,
            SelectConditionErrorPrefix::UnitKeyError => 0x02,
            SelectConditionErrorPrefix::FromUtf8Error => 0x03,
            SelectConditionErrorPrefix::PredicateError => 0x04,
            SelectConditionErrorPrefix::GroupingError => 0x05,
            SelectConditionErrorPrefix::ParseSelectConditionErrorError => 0x06,
            SelectConditionErrorPrefix::SystemError => 0x07,
        }
    }
}

impl SelectConditionError {
    pub open spec fn spec_marshal(self) -> Seq<u8> {
        match self {
            SelectConditionError::InvalidPrefix => seq![0x01u8],
            SelectConditionError::UnitKeyError(e) => seq![0x02u8] + e.spec_marshal(),
            SelectConditionError::FromUtf8Error(e) => seq![0x03u8, e.spec_code()],
            SelectConditionError::PredicateError(e) => seq![0x04u8] + e.spec_marshal(),
            SelectConditionError::GroupingError(e) => seq![0x05u8] + e.spec_marshal(),
            SelectConditionError::ParseSelectConditionErrorError => seq![0x06u8],
            SelectConditionError::SystemError(e) => seq![0x07u8, e.spec_code()],
        }
    }

    /// What `parse` gives for `data`; `None` where it would index past the end. A prefix that
    /// names no error with a payload reads as `ParseSelectConditionErrorError`.
    pub open spec fn spec_parse(data: Seq<u8>) -> Option<(SelectConditionError, nat)> {
        if data.len() == 0 {
            None
        } else {
            let rest = data.subrange(1, data.len() as int);
            if data[0] == 0x01 {
                Some((SelectConditionError::InvalidPrefix, 1))
            } else if data[0] == 0x02 {
                match UnitKeyError::spec_parse(rest) {
                    None => None,
                    Some((e, n)) => Some((SelectConditionError::UnitKeyError(e), 1 + n)),
                }
            } else if data[0] == 0x03 {
                match SystemError::spec_parse(rest) {
                    None => None,
                    Some((e, n)) => Some((SelectConditionError::FromUtf8Error(e), 1 + n)),
                }
            } else if data[0] == 0x04 {
                match PredicateError::spec_parse(rest) {
                    None => None,
                    Some((e, n)) => Some((SelectConditionError::PredicateError(e), 1 + n)),
                }
            } else if data[0] == 0x05 {
                match GroupingLabelError::spec_parse(rest) {
                    None => None,
                    Some((e, n)) => Some((SelectConditionError::GroupingError(e), 1 + n)),
                }
            } else if data[0] == 0x07 {
                match SystemError::spec_parse(rest) {
                    None => None,
                    Some((e, n)) => Some((SelectConditionError::SystemError(e), 1 + n)),
                }
            } else {
                Some((SelectConditionError::ParseSelectConditionErrorError, 1))
            }
        }
    }

    pub fn marshal(&self) -> (result: Vec<u8>)
        ensures
            result@ == self.spec_marshal(),
    {
        match self {
            SelectConditionError::InvalidPrefix => {
                let result = vec![SelectConditionErrorPrefix::InvalidPrefix.byte()];
                assert(result@ =~= self.spec_marshal());
                result
            },
            SelectConditionError::UnitKeyError(error) => {
                let mut result = vec![SelectConditionErrorPrefix::UnitKeyError.byte()];
                append_bytes(&mut result, &error.marshal());
                result
            },
            SelectConditionError::FromUtf8Error(error) => {
                let result = vec![SelectConditionErrorPrefix::FromUtf8Error.byte(), error.marshal()];
                assert(result@ =~= self.spec_marshal());
                result
            },
            SelectConditionError::PredicateError(error) => {
                let mut result = vec![SelectConditionErrorPrefix::PredicateError.byte()];
                append_bytes(&mut result, &error.marshal());
                result
            },
            SelectConditionError::GroupingError(error) => {
                let mut result = vec![SelectConditionErrorPrefix::GroupingError.byte()];
                append_bytes(&mut result, &error.marshal());
                result
            },
            SelectConditionError::ParseSelectConditionErrorError => {
                let result = vec![SelectConditionErrorPrefix::ParseSelectConditionErrorError.byte()];
                assert(result@ =~= self.spec_marshal());
                result
            },
            SelectConditionError::SystemError(error) => {
                let result = vec![SelectConditionErrorPrefix::SystemError.byte(), error.marshal()];
                assert(result@ =~= self.spec_marshal());
                result
            },
        }
    }

    pub fn parse(data: &[u8]) -> (result: Result<(SelectConditionError, usize), SelectConditionError>)
        requires
            Self::spec_parse(data@) is Some,
        ensures
            result matches Ok((e, n)) && Self::spec_parse(data@) == Some((e, n as nat)),
    {
        let prefix = data[0];
        let rest = tail_bytes(data, 1);
        if prefix == 0x01 {
            Ok((SelectConditionError::InvalidPrefix, 1))
        } else if prefix == 0x02 {
            match UnitKeyError::parse(rest) {
                Ok((e, n)) => Ok((SelectConditionError::UnitKeyError(e), 1 + n)),
                Err(e) => Err(SelectConditionError::UnitKeyError(e)),
            }
        } else if prefix == 0x03 {
            match SystemError::parse(rest) {
                Ok((e, n)) => Ok((SelectConditionError::FromUtf8Error(e), 1 + n)),
                Err(e) => Err(SelectConditionError::SystemError(e)),
            }
        } else if prefix == 0x04 {
            match PredicateError::parse(rest) {
                Ok((e, n)) => Ok((SelectConditionError::PredicateError(e), 1 + n)),
                Err(e) => Err(SelectConditionError::PredicateError(e)),
            }
        } else if prefix == 0x05 {
            match GroupingLabelError::parse(rest) {
                Ok((e, n)) => Ok((SelectConditionError::GroupingError(e), 1 + n)),
                Err(e) => Err(SelectConditionError::GroupingError(e)),
            }
        } else if prefix == 0x07 {
            match SystemError::parse(rest) {
                Ok((e, n)) => Ok((SelectConditionError::SystemError(e), 1 + n)),
                Err(e) => Err(SelectConditionError::SystemError(e)),
            }
        } else {
            Ok((SelectConditionError::ParseSelectConditionErrorError, 1))
        }
    }

    /// Parsing the marshalled error gives it back, whatever follows it.
    pub proof fn lemma_roundtrip(self, rest: Seq<u8>)
        ensures
            Self::spec_parse(self.spec_marshal() + rest) == Some((self, self.spec_marshal().len())),
    {
        let d = self.spec_marshal() + rest;
        let tail = d.subrange(1, d.len() as int);
        match self {
            SelectConditionError::UnitKeyError(e) => {
                e.lemma_roundtrip(rest);
                assert(tail =~= e.spec_marshal() + rest);
            },
            SelectConditionError::FromUtf8Error(e) => {
                e.lemma_roundtrip(rest);
                assert(tail =~= seq![e.spec_code()] + rest);
            },
            SelectConditionError::PredicateError(e) => {
                e.lemma_roundtrip(rest);
                assert(tail =~= e.spec_marshal() + rest);
            },
            SelectConditionError::GroupingError(e) => {
                e.lemma_roundtrip(rest);
                assert(tail =~= e.spec_marshal() + rest);
            },
            SelectConditionError::SystemError(e) => {
                e.lemma_roundtrip(rest);
                assert(tail =~= seq![e.spec_code()] + rest);
            },
            _ => {},
        }
    }
}

#[derive(Debug, Clone, PartialEq, Eq, Structural)]
pub enum CommandError {
    GroupingErr(GroupingLabelError),
    UnitContentErr(UnitContentError),
    InvalidPrefix,
    SelectConditionErr(SelectConditionError),
    UnitKeyError(UnitKeyError),
    VarIntError(VarIntError),
    ParseCommandErrorToStringError,
}

/// The first byte of each command error's byte form.
#[derive(Debug, Clone, Copy, PartialEq, Eq, Structural)]
pub enum CommandErrorPrefix {
    GroupingErr,
    UnitContentErr,
    InvalidPrefix,
    SelectConditionErr,
    UnitKeyError,
    VarIntError,
    ParseCommandErrorToStringError,
}

impl CommandErrorPrefix {
    pub open spec fn spec_byte(self) -> u8 {
        match self {
            CommandErrorPrefix::GroupingErr => 0x01,
            CommandErrorPrefix::UnitContentErr => 0x02,
            CommandErrorPrefix::InvalidPrefix => 0x03,
            CommandErrorPrefix::SelectConditionErr => 0x04,
            CommandErrorPrefix::UnitKeyError => 0x05,
            CommandErrorPrefix::VarIntError => 0x06,
            CommandErrorPrefix::ParseCommandErrorToStringError => 0x07,
        }
    }

    pub fn byte(&self) -> (result: u8)
        ensures
            result == self.spec_byte(),
    {
        match self {
            CommandErrorPrefix::GroupingErr => 0x01,
            CommandErrorPrefix::UnitContentErr => 0x02,
            CommandErrorPrefix::InvalidPrefix => 0x03,
            CommandErrorPrefix::SelectConditionErr => 0x04,
            CommandErrorPrefix::UnitKeyError => 0x05,
            CommandErrorPrefix::VarIntError => 0x06,
            CommandErrorPrefix::ParseCommandErrorToStringError => 0x07,
        }
    }
}

impl CommandError {
    pub open spec fn spec_marshal(self) -> Seq<u8> {
        match self {
            CommandError::GroupingErr(e) => seq![0x01u8] + e.spec_marshal(),
            CommandError::UnitContentErr(e) => seq![0x02u8] + e.spec_marshal(),
            CommandError::InvalidPrefix => seq![0x03u8],
            CommandError::SelectConditionErr(e) => seq![0x04u8] + e.spec_marshal(),
            CommandError::UnitKeyError(e) => seq![0x05u8] + e.spec_marshal(),
            CommandError::VarIntError(e) => seq![0x06u8] + e.spec_marshal(),
            CommandError::ParseCommandErrorToStringError => seq![0x07u8],
        }
    }

    /// What `parse` gives for `data`; `None` where it would index past the end. A prefix that
    /// names no other error reads as `ParseCommandErrorToStringError`.
    pub open spec fn spec_parse(data: Seq<u8>) -> Option<(CommandError, nat)> {
        if data.len() == 0 {
            None
        } else {
            let rest = data.subrange(1, data.len() as int);
            if data[0] == 0x01 {
                match GroupingLabelError::spec_parse(rest) {
                    None => None,
                    Some((e, n)) => Some((CommandError::GroupingErr(e), 1 + n)),
                }
            } else if data[0] == 0x02 {
                match UnitContentError::spec_parse(rest) {
                    None => None,
                    Some((e, n)) => Some((CommandError::UnitContentErr(e), 1 + n)),
                }
            } else if data[0] == 0x03 {
                Some((CommandError::InvalidPrefix, 1))
            } else if data[0] == 0x04 {
                match SelectConditionError::spec_parse(rest) {
                    None => None,
                    Some((e, n)) => Some((CommandError::SelectConditionErr(e), 1 + n)),
                }
            } else if data[0] == 0x05 {
                match UnitKeyError::spec_parse(rest) {
                    None => None,
                    Some((e, n)) => Some((CommandError::UnitKeyError(e), 1 + n)),
                }
            } else if data[0] == 0x06 {
                match VarIntError::spec_parse(rest) {
                    None => None,
                    Some((e, n)) => Some((CommandError::VarIntError(e), 1 + n)),
                }
            } else {
                Some((CommandError::ParseCommandErrorToStringError, 1))
            }
        }
    }

    pub fn marshal(&self) -> (result: Vec<u8>)
        ensures
            result@ == self.spec_marshal(),
    {
        match self {
            CommandError::GroupingErr(error) => {
                let mut result = vec![CommandErrorPrefix::GroupingErr.byte()];
                append_bytes(&mut result, &error.marshal());
                result
            },
            CommandError::UnitContentErr(error) => {
                let mut result = vec![CommandErrorPrefix::UnitContentErr.byte()];
                append_bytes(&mut result, &error.marshal());
                result
            },
            CommandError::InvalidPrefix => {
                let result = vec![CommandErrorPrefix::InvalidPrefix.byte()];
                assert(result@ =~= self.spec_marshal());
                result
            },
            CommandError::SelectConditionErr(error) => {
                let mut result = vec![CommandErrorPrefix::SelectConditionErr.byte()];
                append_bytes(&mut result, &error.marshal());
                result
            },
            CommandError::UnitKeyError(error) => {
                let mut result = vec![CommandErrorPrefix::UnitKeyError.byte()];
                append_bytes(&mut result, &error.marshal());
                result
            },
            CommandError::VarIntError(error) => {
                let mut result = vec![CommandErrorPrefix::VarIntError.byte()];
                append_bytes(&mut result, &error.marshal());
                result
            },
            CommandError::ParseCommandErrorToStringError => {
                let result = vec![CommandErrorPrefix::ParseCommandErrorToStringError.byte()];
                assert(result@ =~= self.spec_marshal());
                result
            },
        }
    }

    pub fn parse(data: &[u8]) -> (result: Result<(CommandError, usize), CommandError>)
        requires
            Self::spec_parse(data@) is Some,
        ensures
            result matches Ok((e, n)) && Self::spec_parse(data@) == Some((e, n as nat)),
    {
        let prefix = data[0];
        let rest = tail_bytes(data, 1);
        if prefix == 0x01 {
            match GroupingLabelError::parse(rest) {
                Ok((e, n)) => Ok((CommandError::GroupingErr(e), 1 + n)),
                Err(e) => Err(CommandError::GroupingErr(e)),
            }
        } else if prefix == 0x02 {
            match UnitContentError::parse(rest) {
                Ok((e, n)) => Ok((CommandError::UnitContentErr(e), 1 + n)),
                Err(e) => Err(CommandError::UnitContentErr(e)),
            }
        } else if prefix == 0x03 {
            Ok((CommandError::InvalidPrefix, 1))
        } else if prefix == 0x04 {
            match SelectConditionError::parse(rest) {
                Ok((e, n)) => Ok((CommandError::SelectConditionErr(e), 1 + n)),
                Err(e) => Err(CommandError::SelectConditionErr(e)),
            }
        } else if prefix == 0x05 {
            match UnitKeyError::parse(rest) {
                Ok((e, n)) => Ok((CommandError::UnitKeyError(e), 1 + n)),
                Err(e) => Err(CommandError::UnitKeyError(e)),
            }
        } else if prefix == 0x06 {
            match VarIntError::parse(rest) {
                Ok((e, n)) => Ok((CommandError::VarIntError(e), 1 + n)),
                Err(e) => Err(CommandError::VarIntError(e)),
            }
        } else {
            Ok((CommandError::ParseCommandErrorToStringError, 1))
        }
    }

    /// Parsing the marshalled error gives it back, whatever follows it.
    pub proof fn lemma_roundtrip(self, rest: Seq<u8>)
        ensures
            Self::spec_parse(self.spec_marshal() + rest) == Some((self, self.spec_marshal().len())),
    {
        let d = self.spec_marshal() + rest;
        let tail = d.subrange(1, d.len() as int);
        match self {
            CommandError::GroupingErr(e) => {
                e.lemma_roundtrip(rest);
                assert(tail =~= e.spec_marshal() + rest);
            },
            CommandError::UnitContentErr(e) => {
                e.lemma_roundtrip(rest);
                assert(tail =~= e.spec_marshal() + rest);
            },
            CommandError::SelectConditionErr(e) => {
                e.lemma_roundtrip(rest);
                assert(tail =~= e.spec_marshal() + rest);
            },
            CommandError::UnitKeyError(e) => {
                e.lemma_roundtrip(rest);
                assert(tail =~= e.spec_marshal() + rest);
            },
            CommandError::VarIntError(e) => {
                e.lemma_roundtrip(rest);
                assert(tail =~= e.spec_marshal() + rest);
            },
            _ => {},
        }
    }
}

} // verus!
