//! The order of candidates: that of their strings.

use std::cmp::Ordering;
use vstd::prelude::*;
use vstd::std_specs::cmp::PartialOrdSpecImpl;

use crate::candidates::TrackerCandidate;
use crate::text::{lex_le, precedes};

verus! {

impl PartialOrd for TrackerCandidate {
    /// Compares two candidates by their strings.
    fn partial_cmp(&self, other: &TrackerCandidate) -> (order: Option<Ordering>) {
        let left = self.canonical_chars();
        let right = other.canonical_chars();
        if precedes(&left, &right) {
            if precedes(&right, &left) {
                Some(Ordering::Equal)
            } else {
                Some(Ordering::Less)
            }
        } else {
            Some(Ordering::Greater)
        }
    }
}

impl PartialOrdSpecImpl for TrackerCandidate {
    open spec fn obeys_partial_cmp_spec() -> bool {
        true
    }

    open spec fn partial_cmp_spec(&self, other: &TrackerCandidate) -> Option<Ordering> {
        if lex_le(self@.canonical(), other@.canonical()) {
            if lex_le(other@.canonical(), self@.canonical()) {
                Some(Ordering::Equal)
            } else {
                Some(Ordering::Less)
            }
        } else {
            Some(Ordering::Greater)
        }
    }
}

} // verus!
