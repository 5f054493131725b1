//! The record of one traversed edge.

use vstd::prelude::*;
use crate::cost::TraversalCost;
use crate::network::{EdgeId, EdgeListId};
use crate::state::StateVariable;

verus! {

/// An edge, a cost, and the state after the traversal of the edge.
///
/// In a search tree the cost is the cost of the whole way from the root to
/// the end of the edge. Where a given path is traversed edge by edge (see
/// `SearchInstance::compute_path`), the cost is that of the edge alone.
#[derive(Debug)]
pub struct EdgeTraversal {
    pub edge_list_id: EdgeListId,
    pub edge_id: EdgeId,
    pub cost: TraversalCost,
    pub result_state: Vec<StateVariable>,
}

/// The mathematical content of an [`EdgeTraversal`].
pub struct EdgeTraversalView {
    pub edge_list_id: EdgeListId,
    pub edge_id: EdgeId,
    pub cost: TraversalCost,
    pub result_state: Seq<StateVariable>,
}

impl View for EdgeTraversal {
    type V = EdgeTraversalView;

    open spec fn view(&self) -> EdgeTraversalView {
        EdgeTraversalView {
            edge_list_id: self.edge_list_id,
            edge_id: self.edge_id,
            cost: self.cost,
            result_state: self.result_state@,
        }
    }
}

impl Clone for EdgeTraversal {
    fn clone(&self) -> (r: Self)
        ensures
            r@ == self@,
    {
        let result_state = self.result_state.clone();
        assert(result_state@ =~= self.result_state@);
        EdgeTraversal {
            edge_list_id: self.edge_list_id,
            edge_id: self.edge_id,
            cost: self.cost,
            result_state,
        }
    }
}

} // verus!
