//! The models that a search consults: each is a capability that the caller
//! supplies.
//!
//! The methods of [`TraversalModel`], [`CostModel`] and [`ConstraintModel`]
//! carry no contract: a search states what holds whatever they answer.

use vstd::prelude::*;
use crate::cost::{Cost, TraversalCost};
use crate::network::{Edge, EdgeRef, VertexId};
use crate::state::StateVariable;

verus! {

/// Why a model refused.
#[derive(Clone, Copy, Debug, PartialEq, Eq, Structural)]
pub enum ModelError {
    /// The state vector is not of the form that the model works on.
    InvalidState,
    /// The model has no data for the edge.
    MissingData,
}

/// Updates state vectors along edges and estimates what is left to go.
pub trait TraversalModel {
    /// The state after `edge` was traversed from the state `prev_state`.
    fn traverse_edge(&self, edge: &Edge, prev_state: &Vec<StateVariable>) -> Result<
        Vec<StateVariable>,
        ModelError,
    >;

    /// An estimate of the objective cost from `src` to `dst` that never
    /// overestimates.
    fn estimate(&self, src: VertexId, dst: VertexId) -> Cost;
}

/// Prices a traversal.
pub trait CostModel {
    /// The cost of going over `edge` from `prev_state` to `next_state`.
    fn traversal_cost(
        &self,
        edge: &Edge,
        prev_state: &Vec<StateVariable>,
        next_state: &Vec<StateVariable>,
    ) -> Result<TraversalCost, ModelError>;
}

/// Gates the edges that a search may take.
pub trait ConstraintModel {
    /// Whether `edge` may be entered in the state `state`, having arrived
    /// over `prev_edge` (none at the start of the search).
    fn valid_frontier(
        &self,
        edge: &Edge,
        prev_edge: Option<EdgeRef>,
        state: &Vec<StateVariable>,
    ) -> bool;
}

/// The constraint model that admits every edge.
#[derive(Clone, Copy, Debug, Default)]
pub struct NoRestriction {}

impl ConstraintModel for NoRestriction {
    fn valid_frontier(
        &self,
        edge: &Edge,
        prev_edge: Option<EdgeRef>,
        state: &Vec<StateVariable>,
    ) -> (admitted: bool)
        ensures
            admitted,
    {
        true
    }
}

} // verus!
