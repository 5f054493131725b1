//! Distances on the ground, in whole millimeters.

use vstd::prelude::*;

verus! {

/// A distance in millimeters, or the distance of what cannot be reached or
/// measured.
#[derive(Clone, Copy, Debug, PartialEq, Eq, Structural, Hash)]
pub enum Distance {
    Millimeters(u64),
    Infinite,
}

impl Distance {
    /// Whether `self` is strictly shorter than `other`. Nothing is longer
    /// than `Infinite`, and `Infinite` is not shorter than itself.
    pub open spec fn shorter_than(self, other: Distance) -> bool {
        match (self, other) {
            (Distance::Millimeters(a), Distance::Millimeters(b)) => a < b,
            (Distance::Millimeters(_), Distance::Infinite) => true,
            (Distance::Infinite, _) => false,
        }
    }

    /// Whether `self` is strictly longer than `limit` millimeters.
    pub open spec fn exceeds(self, limit: u64) -> bool {
        match self {
            Distance::Millimeters(a) => a > limit,
            Distance::Infinite => true,
        }
    }

    /// A distance of `millimeters`.
    pub fn new(millimeters: u64) -> (d: Distance)
        ensures
            d == Distance::Millimeters(millimeters),
    {
        Distance::Millimeters(millimeters)
    }

    /// Whether the distance is `Infinite`.
    pub fn is_infinite(&self) -> (b: bool)
        ensures
            b == (*self is Infinite),
    {
        match self {
            Distance::Millimeters(_) => false,
            Distance::Infinite => true,
        }
    }

    /// Decides [`Distance::shorter_than`].
    pub fn is_shorter_than(&self, other: &Distance) -> (b: bool)
        ensures
            b == self.shorter_than(*other),
    {
        match (self, other) {
            (Distance::Millimeters(a), Distance::Millimeters(b)) => *a < *b,
            (Distance::Millimeters(_), Distance::Infinite) => true,
            (Distance::Infinite, _) => false,
        }
    }

    /// Decides [`Distance::exceeds`].
    pub fn is_longer_than(&self, limit: u64) -> (b: bool)
        ensures
            b == self.exceeds(limit),
    {
        match self {
            Distance::Millimeters(a) => *a > limit,
            Distance::Infinite => true,
        }
    }
}

} // verus!
