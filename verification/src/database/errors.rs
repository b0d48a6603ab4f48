//! The errors that the database layer passes on from the store and from units of content.

use vstd::prelude::*;
use crate::storage::errors::KVError;
use crate::storage::executor::unit_content::UnitContentError;
use crate::system_error::SystemError;

verus! {

#[derive(Debug, Clone, PartialEq, Eq)]
pub enum DatabaseError {
    KVError(KVError),
    UnitContentError(UnitContentError),
    ParseIntError(SystemError),
}

impl From<KVError> for DatabaseError {
    fn from(err: KVError) -> (result: DatabaseError)
        ensures
            result == DatabaseError::KVError(err),
    {
        DatabaseError::KVError(err)
    }
}

impl vstd::std_specs::convert::FromSpecImpl<KVError> for DatabaseError {
    open spec fn obeys_from_spec() -> bool {
        true
    }

    open spec fn from_spec(v: KVError) -> DatabaseError {
        DatabaseError::KVError(v)
    }
}

impl From<UnitContentError> for DatabaseError {
    fn from(err: UnitContentError) -> (result: DatabaseError)
        ensures
            result == DatabaseError::UnitContentError(err),
    {
        DatabaseError::UnitContentError(err)
    }
}

impl vstd::std_specs::convert::FromSpecImpl<UnitContentError> for DatabaseError {
    open spec fn obeys_from_spec() -> bool {
        true
    }

    open spec fn from_spec(v: UnitContentError) -> DatabaseError {
        DatabaseError::UnitContentError(v)
    }
}

/// The integer-parse error of std, carried through as an opaque value.
#[verifier::external_type_specification]
#[verifier::external_body]
pub struct ExParseIntError(std::num::ParseIntError);

impl From<std::num::ParseIntError> for DatabaseError {
    fn from(_err: std::num::ParseIntError) -> (result: DatabaseError)
        ensures
            result == DatabaseError::ParseIntError(SystemError::ParseIntError),
    {
        DatabaseError::ParseIntError(SystemError::ParseIntError)
    }
}

impl vstd::std_specs::convert::FromSpecImpl<std::num::ParseIntError> for DatabaseError {
    open spec fn obeys_from_spec() -> bool {
        true
    }

    open spec fn from_spec(v: std::num::ParseIntError) -> DatabaseError {
        DatabaseError::ParseIntError(SystemError::ParseIntError)
    }
}

} // verus!
