//! State variables carried along a search.

use vstd::prelude::*;

verus! {

/// One entry of a state vector: a signed fixed-point quantity whose unit and
/// scale are given by the state model that defines its position.
#[derive(Clone, Copy, Debug, PartialEq, Eq, Structural, Hash, PartialOrd, Ord, Default)]
pub struct StateVariable(pub i64);

impl StateVariable {
    /// The quantity zero.
    pub fn zero() -> (v: StateVariable)
        ensures
            v.0 == 0,
    {
        StateVariable(0)
    }
}

} // verus!
