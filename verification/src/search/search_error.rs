//! Failures of a search.

use vstd::prelude::*;
use crate::network::{EdgeId, EdgeListId, VertexId};
use crate::search::search_tree::SearchTreeError;

verus! {

/// Why a search failed.
#[derive(Debug)]
pub enum SearchError {
    /// The frontier ran empty before the target was reached: source,
    /// target, and the size of the tree at that moment.
    NoPathExistsBetweenVertices(VertexId, VertexId, usize),
    /// The graph holds no such vertex.
    VertexLookup(VertexId),
    /// The graph holds no such edge.
    EdgeLookup(EdgeListId, EdgeId),
    /// The traversal model could not update the state over an edge.
    StateUpdate(EdgeListId, EdgeId),
    /// The cost model could not price a traversal.
    CostComputation(EdgeListId, EdgeId),
    /// The label model could not label a state at a vertex.
    LabelFailure(VertexId),
    /// The search expanded as many labels as it may without coming to an
    /// end.
    IterationLimitReached(usize),
    /// The search tree refused an operation.
    SearchTreeFailure(SearchTreeError),
}

} // verus!
