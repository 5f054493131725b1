//! Orientation of a search.

use vstd::prelude::*;

verus! {

/// Whether a search follows edges from source to destination or against them.
#[derive(Clone, Copy, Debug, PartialEq, Eq, Structural, Hash, Default)]
pub enum Direction {
    #[default]
    Forward,
    Reverse,
}

} // verus!
