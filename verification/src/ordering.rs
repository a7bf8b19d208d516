//! The comparison operators of versions.

use crate::pep440::{version_order, Version};
use std::cmp::Ordering;
use vstd::prelude::*;

verus! {

impl PartialOrd for Version {
    fn partial_cmp(&self, other: &Version) -> (r: Option<Ordering>) {
        Some(self.compare(other))
    }
}

impl vstd::std_specs::cmp::PartialOrdSpecImpl for Version {
    open spec fn obeys_partial_cmp_spec() -> bool {
        true
    }

    open spec fn partial_cmp_spec(&self, other: &Version) -> Option<Ordering> {
        if version_order(self@, other@) < 0 {
            Some(Ordering::Less)
        } else if version_order(self@, other@) == 0 {
            Some(Ordering::Equal)
        } else {
            Some(Ordering::Greater)
        }
    }
}

impl Version {
    /// How `self` stands to `other` in the order of versions.
    pub fn compare(&self, other: &Version) -> (r: Ordering)
        ensures
            r == (if version_order(self@, other@) < 0 {
                Ordering::Less
            } else if version_order(self@, other@) == 0 {
                Ordering::Equal
            } else {
                Ordering::Greater
            }),
    {
        let sign = self.order(other);
        if sign < 0 {
            Ordering::Less
        } else if sign == 0 {
            Ordering::Equal
        } else {
            Ordering::Greater
        }
    }
}

} // verus!
