//! Every error read from bytes takes no more bytes than there are.

use vstd::prelude::*;
use crate::server::errors::ServerError;
use crate::storage::chain_height::ChainHeightError;
use crate::storage::ecc::ErrorCorrectionError;
use crate::storage::errors::KVError;
use crate::storage::executor::command_error::{CommandError, SelectConditionError};
use crate::storage::executor::errors::ExecutorError;
use crate::storage::executor::grouping_label::GroupingLabelError;
use crate::storage::executor::predicate::PredicateError;
use crate::storage::executor::unit_content::UnitContentError;
use crate::storage::executor::unit_key::UnitKeyError;
use crate::storage::instruction::InstructionError;
use crate::storage::kvkey::KVKeyError;
use crate::storage::log_version::LogVersionError;
use crate::storage::transaction_manager::TransactionManagerError;
use crate::system_error::SystemError;
use crate::utils::varint::VarIntError;

verus! {

proof fn lemma_leaf_widths(d: Seq<u8>)
    ensures
        SystemError::spec_parse(d) matches Some((_, n)) ==> n <= d.len(),
        VarIntError::spec_parse(d) matches Some((_, n)) ==> n <= d.len(),
        UnitContentError::spec_parse(d) matches Some((_, n)) ==> n <= d.len(),
        ChainHeightError::spec_parse(d) matches Some((_, n)) ==> n <= d.len(),
        TransactionManagerError::spec_parse(d) matches Some((_, n)) ==> n <= d.len(),
        LogVersionError::spec_parse(d) matches Some((_, n)) ==> n <= d.len(),
        ErrorCorrectionError::spec_parse(d) matches Some((_, n)) ==> n <= d.len(),
{
}

proof fn lemma_wrapping_widths(d: Seq<u8>)
    ensures
        UnitKeyError::spec_parse(d) matches Some((_, n)) ==> n <= d.len(),
        GroupingLabelError::spec_parse(d) matches Some((_, n)) ==> n <= d.len(),
        KVKeyError::spec_parse(d) matches Some((_, n)) ==> n <= d.len(),
        PredicateError::spec_parse(d) matches Some((_, n)) ==> n <= d.len(),
        InstructionError::spec_parse(d) matches Some((_, n)) ==> n <= d.len(),
{
    if d.len() > 0 {
        lemma_leaf_widths(d.subrange(1, d.len() as int));
    }
}

proof fn lemma_kv_error_width(d: Seq<u8>)
    ensures
        KVError::spec_parse(d) matches Some((_, n)) ==> n <= d.len(),
{
    if d.len() > 0 {
        lemma_leaf_widths(d.subrange(1, d.len() as int));
        lemma_wrapping_widths(d.subrange(1, d.len() as int));
    }
}

proof fn lemma_command_error_width(d: Seq<u8>)
    ensures
        SelectConditionError::spec_parse(d) matches Some((_, n)) ==> n <= d.len(),
        CommandError::spec_parse(d) matches Some((_, n)) ==> n <= d.len(),
{
    if d.len() > 0 {
        let r = d.subrange(1, d.len() as int);
        lemma_leaf_widths(r);
        lemma_wrapping_widths(r);
        if r.len() > 0 {
            lemma_leaf_widths(r.subrange(1, r.len() as int));
            lemma_wrapping_widths(r.subrange(1, r.len() as int));
        }
    }
}

proof fn lemma_executor_error_width(d: Seq<u8>)
    ensures
        ExecutorError::spec_parse(d) matches Some((_, n)) ==> n <= d.len(),
{
    if d.len() > 0 {
        let r = d.subrange(1, d.len() as int);
        lemma_leaf_widths(r);
        lemma_wrapping_widths(r);
        lemma_kv_error_width(r);
        lemma_command_error_width(r);
    }
}

/// A server error read from bytes takes no more bytes than there are.
pub proof fn lemma_server_error_width(d: Seq<u8>)
    ensures
        ServerError::spec_parse(d) matches Some((_, n)) ==> n <= d.len(),
{
    if d.len() > 0 {
        let r = d.subrange(1, d.len() as int);
        lemma_leaf_widths(r);
        lemma_wrapping_widths(r);
        lemma_executor_error_width(r);
        lemma_command_error_width(r);
    }
}

} // verus!
