//! Rewrite rules on plans.

use vstd::prelude::*;

verus! {

/// A rewrite of logical plans.
pub trait LogicalRule {

}

/// A rewrite of physical plans.
pub trait PhysicalRule {

}

} // verus!
