//! Costs of traversals.
//!
//! A cost is a whole number of cost units; smaller is better.

use vstd::prelude::*;

verus! {

/// A scalar cost in whole cost units.
#[derive(Clone, Copy, Debug, PartialEq, Eq, Structural, Hash, PartialOrd, Ord, Default)]
pub struct Cost(pub u64);

impl Cost {
    /// The cost of nothing.
    pub fn zero() -> (c: Cost)
        ensures
            c.0 == 0,
    {
        Cost(0)
    }

    /// The cost of `value` units.
    pub fn new(value: u64) -> (c: Cost)
        ensures
            c.0 == value,
    {
        Cost(value)
    }

    /// The sum of two costs, held at the greatest representable cost when
    /// the sum exceeds it.
    pub open spec fn saturating_sum(self, other: Cost) -> Cost {
        if self.0 + other.0 <= u64::MAX {
            Cost((self.0 + other.0) as u64)
        } else {
            Cost(u64::MAX)
        }
    }

    /// Computes [`Cost::saturating_sum`].
    pub fn saturating_add(self, other: Cost) -> (c: Cost)
        ensures
            c == self.saturating_sum(other),
    {
        if self.0 <= u64::MAX - other.0 {
            Cost(self.0 + other.0)
        } else {
            Cost(u64::MAX)
        }
    }
}

/// A cost used as a queue priority: the smaller the cost, the greater the
/// priority.
#[derive(Clone, Copy, Debug, PartialEq, Eq, Structural, Hash)]
pub struct ReverseCost(pub Cost);

impl ReverseCost {
    /// The priority that stands for `cost`.
    pub fn new(cost: Cost) -> (r: ReverseCost)
        ensures
            r.0 == cost,
    {
        ReverseCost(cost)
    }

    /// Whether `self` is a strictly greater priority than `other`, that is a
    /// strictly smaller cost.
    pub open spec fn outranks(self, other: ReverseCost) -> bool {
        self.0.0 < other.0.0
    }

    /// Decides [`ReverseCost::outranks`].
    pub fn is_greater_than(&self, other: &ReverseCost) -> (b: bool)
        ensures
            b == self.outranks(*other),
    {
        self.0.0 < other.0.0
    }
}

/// The cost of one edge traversal.
#[derive(Clone, Copy, Debug, PartialEq, Eq, Structural, Default)]
pub struct TraversalCost {
    /// Drives the search priority.
    pub objective_cost: Cost,
    /// Reported to the caller.
    pub total_cost: Cost,
}

} // verus!
