//! The standard partial order of units: numbers compare as IEEE 754 orders them, and no other
//! units are ordered.

use vstd::prelude::*;
use vstd::std_specs::cmp::PartialOrdSpecImpl;
use std::cmp::Ordering;
use crate::storage::executor::predicate::content_order;
use crate::storage::executor::unit_content::{spec_content_order, ContentOrdering, UnitContent};

verus! {

/// The standard ordering that a comparison of units gives.
pub open spec fn standard_ordering(o: Option<ContentOrdering>) -> Option<Ordering> {
    match o {
        None => None,
        Some(ContentOrdering::Less) => Some(Ordering::Less),
        Some(ContentOrdering::Equal) => Some(Ordering::Equal),
        Some(ContentOrdering::Greater) => Some(Ordering::Greater),
    }
}

impl PartialOrd for UnitContent {
    fn partial_cmp(&self, other: &Self) -> (result: Option<Ordering>) {
        match content_order(self, other) {
            None => None,
            Some(ContentOrdering::Less) => Some(Ordering::Less),
            Some(ContentOrdering::Equal) => Some(Ordering::Equal),
            Some(ContentOrdering::Greater) => Some(Ordering::Greater),
        }
    }
}

impl PartialOrdSpecImpl for UnitContent {
    open spec fn obeys_partial_cmp_spec() -> bool {
        true
    }

    open spec fn partial_cmp_spec(&self, other: &UnitContent) -> Option<Ordering> {
        standard_ordering(spec_content_order(self@, other@))
    }
}

} // verus!
