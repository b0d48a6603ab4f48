//! The layer above the storage engine: groupings, units of content, predicates, commands and
//! their outcomes.

pub mod grouping_label;
pub mod unit_key;
pub mod unit_content;
pub mod unit_content_laws;
pub mod predicate;
pub mod command_error;
pub mod command;
pub mod command_text;
pub mod predicate_laws;
pub mod check_laws;
pub mod command_laws;
pub mod outcome;
pub mod outcome_laws;
pub mod errors;
pub mod executor;
pub mod instruction;
pub mod filter;
pub mod filter_laws;
pub mod content_order;
