//! Everything that one query searches with.

use vstd::prelude::*;
use crate::cost::TraversalCost;
use crate::graph::{destination_of, is_edge, source_of, Ends, Graph};
use crate::label::LabelModel;
use crate::map_matching::map_model::MapModel;
use crate::network::{Edge, EdgeRef, VertexId};
use crate::search::edge_traversal::EdgeTraversal;
use crate::search::models::{ConstraintModel, CostModel, ModelError, TraversalModel};
use crate::search::search_error::SearchError;
use crate::search::search_tree::SearchTree;
use crate::state::StateVariable;

verus! {

/// The graph, the models and the parameters of one query.
pub struct SearchInstance<T: TraversalModel, K: CostModel, C: ConstraintModel, L: LabelModel, M: MapModel> {
    pub graph: Graph,
    pub map_model: M,
    pub traversal_model: T,
    pub cost_model: K,
    pub constraint_model: C,
    pub label_model: L,
    /// The state vector at the origin of a search.
    pub initial_state: Vec<StateVariable>,
    /// The greatest number of labels that a search may expand.
    pub iteration_limit: usize,
}

/// The edges of a route.
pub open spec fn edges_of(route: Seq<EdgeTraversal>) -> Seq<EdgeRef> {
    route.map_values(|e: EdgeTraversal| (e.edge_list_id, e.edge_id))
}

/// The first position of `path` that is not an edge of the graph, or the
/// length of the path if there is none.
pub open spec fn first_unknown(ends: Ends, path: Seq<EdgeRef>) -> int
    decreases path.len(),
{
    if path.len() == 0 {
        0
    } else {
        let before = first_unknown(ends, path.drop_last());
        if before < path.len() - 1 {
            before
        } else if is_edge(ends, path.last()) {
            path.len() as int
        } else {
            path.len() - 1
        }
    }
}

impl<T: TraversalModel, K: CostModel, C: ConstraintModel, L: LabelModel, M: MapModel> SearchInstance<
    T,
    K,
    C,
    L,
    M,
> {
    /// Traverses the edges of `path` in order, from the initial state: the
    /// traversal of each edge holds the state after it and the cost of going
    /// over it.
    ///
    /// The traversal model is asked for the state after each edge, from
    /// the state after the edge before it, and the cost model for the cost
    /// of going from the one state to the other (see [`route_made`]). The
    /// first failure ends the computation: `EdgeLookup` for an edge that the
    /// graph does not have, `StateUpdate` where the traversal model fails,
    /// `CostComputation` where the cost model fails (see [`route_failed`]).
    ///
    /// Whatever the models answer, a route holds exactly the edges of the
    /// path, in order, and an edge that the graph does not have makes the
    /// computation fail: with `EdgeLookup` for the first such edge, unless a
    /// model failed on an edge before it.
    pub fn compute_path(&self, path: &Vec<EdgeRef>) -> (r: Result<Vec<EdgeTraversal>, SearchError>)
        requires
            self.graph.wf(),
        ensures
            match r {
                Ok(route) => edges_of(route@) == path@ && first_unknown(self.graph.ends(), path@)
                    == path@.len() && route_made(self, path@, route@, path@.len() as int),
                Err(SearchError::EdgeLookup(l, e)) => first_unknown(self.graph.ends(), path@)
                    < path@.len() && path@[first_unknown(self.graph.ends(), path@)] == (l, e),
                Err(SearchError::StateUpdate(l, e)) => path@.contains((l, e)),
                Err(SearchError::CostComputation(l, e)) => path@.contains((l, e)),
                Err(_) => false,
            },
            r matches Err(e) ==> exists|done: Seq<EdgeTraversal>|
                #![trigger route_failed(self, path@, done, e)]
                route_failed(self, path@, done, e),
    {
        let ghost ends = self.graph.ends();
        let mut route: Vec<EdgeTraversal> = Vec::new();
        let mut state: Vec<StateVariable> = self.initial_state.clone();
        let mut i: usize = 0;
        assert(path@.take(0) =~= Seq::<EdgeRef>::empty());
        assert(edges_of(route@) =~= path@.take(0));
        while i < path.len()
            invariant
                i <= path.len(),
                self.graph.wf(),
                ends == self.graph.ends(),
                edges_of(route@) == path@.take(i as int),
                first_unknown(ends, path@.take(i as int)) == i,
                route@.len() == i,
                state@ == state_before(self.initial_state@, route@, i as int),
                route_made(self, path@, route@, i as int),
            decreases path.len() - i,
        {
            let edge_ref: EdgeRef = path[i];
            let ghost done = route@;
            proof {
                assert(path@.take(i + 1).drop_last() =~= path@.take(i as int));
                assert(path@.take(i + 1).last() == edge_ref);
                assert(path@[i as int] == edge_ref);
            }
            let edge: Edge = match self.graph.get_edge(&edge_ref.0, &edge_ref.1) {
                Ok(edge) => edge,
                Err(_) => {
                    proof {
                        lemma_first_unknown_stays(ends, path@, (i + 1) as nat);
                    }
                    let e = SearchError::EdgeLookup(edge_ref.0, edge_ref.1);
                    assert(route_failed(self, path@, done, e));
                    return Err(e);
                },
            };
            assert(edge == graph_edge(ends, edge_ref));
            let answer = self.traversal_model.traverse_edge(&edge, &state);
            assert(traverse_answered(&self.traversal_model, edge, state, answer));
            let next_state: Vec<StateVariable> = match answer {
                Ok(next_state) => next_state,
                Err(cause) => {
                    let e = SearchError::StateUpdate(edge_ref.0, edge_ref.1);
                    assert(traverse_answered(
                        &self.traversal_model,
                        edge,
                        state,
                        Err::<Vec<StateVariable>, ModelError>(cause),
                    ));
                    assert(state_refused(self, edge, done, state));
                    assert(route_failed(self, path@, done, e));
                    return Err(e);
                },
            };
            let priced = self.cost_model.traversal_cost(&edge, &state, &next_state);
            assert(cost_answered(&self.cost_model, edge, state, next_state, priced));
            let cost: TraversalCost = match priced {
                Ok(cost) => cost,
                Err(cause) => {
                    let e = SearchError::CostComputation(edge_ref.0, edge_ref.1);
                    assert(cost_answered(
                        &self.cost_model,
                        edge,
                        state,
                        next_state,
                        Err::<TraversalCost, ModelError>(cause),
                    ));
                    assert(cost_refused(self, edge, done, state, next_state));
                    assert(route_failed(self, path@, done, e));
                    return Err(e);
                },
            };
            let ghost from = state;
            state = next_state.clone();
            let traversal = EdgeTraversal {
                edge_list_id: edge_ref.0,
                edge_id: edge_ref.1,
                cost,
                result_state: next_state,
            };
            assert(traversed_from(self, edge, done, from, traversal));
            route.push(traversal);
            proof {
                assert(edges_of(route@) =~= path@.take(i + 1));
                assert(state@ =~= next_state@);
                assert(done =~= route@.take(i as int));
                assert forall|k: int| 0 <= k < i + 1 implies #[trigger] step_made(
                    self,
                    path@,
                    route@,
                    k,
                ) by {
                    if k < i {
                        assert(step_made(self, path@, done, k));
                        assert(route@[k] == done[k]);
                        assert(route@.take(k) =~= done.take(k));
                    }
                }
            }
            i += 1;
        }
        assert(path@.take(i as int) =~= path@);
        Ok(route)
    }
}

/// The edge of the graph with its end points.
pub open spec fn graph_edge(ends: Ends, edge: EdgeRef) -> Edge {
    Edge {
        edge_list_id: edge.0,
        edge_id: edge.1,
        src_vertex_id: VertexId(source_of(ends, edge)),
        dst_vertex_id: VertexId(destination_of(ends, edge)),
    }
}

/// The state in which the edge at position `i` of a route is entered: the
/// state after the edge before it, the initial state at the first.
pub open spec fn state_before(
    initial: Seq<StateVariable>,
    route: Seq<EdgeTraversal>,
    i: int,
) -> Seq<StateVariable> {
    if 0 < i <= route.len() {
        route[i - 1].result_state@
    } else {
        initial
    }
}

/// Whether `outcome` is what the traversal model may answer when it is
/// asked for the state after `edge`, entered in `state`.
pub open spec fn traverse_answered<T: TraversalModel>(
    model: &T,
    edge: Edge,
    state: Vec<StateVariable>,
    outcome: Result<Vec<StateVariable>, ModelError>,
) -> bool {
    call_ensures(T::traverse_edge, (model, &edge, &state), outcome)
}

/// Whether `outcome` is what the cost model may answer when it is asked
/// for the cost of going over `edge` from `state` to `next`.
pub open spec fn cost_answered<K: CostModel>(
    model: &K,
    edge: Edge,
    state: Vec<StateVariable>,
    next: Vec<StateVariable>,
    outcome: Result<TraversalCost, ModelError>,
) -> bool {
    call_ensures(K::traversal_cost, (model, &edge, &state, &next), outcome)
}

/// Whether `traversal` is the traversal of `edge` entered in `state`, which
/// is the state after the route `done`: it holds the state that the
/// traversal model gave and the cost that the cost model gave.
pub open spec fn traversed_from<
    T: TraversalModel,
    K: CostModel,
    C: ConstraintModel,
    L: LabelModel,
    M: MapModel,
>(
    si: &SearchInstance<T, K, C, L, M>,
    edge: Edge,
    done: Seq<EdgeTraversal>,
    state: Vec<StateVariable>,
    traversal: EdgeTraversal,
) -> bool {
    &&& traversal.edge_list_id == edge.edge_list_id
    &&& traversal.edge_id == edge.edge_id
    &&& state@ == state_before(si.initial_state@, done, done.len() as int)
    &&& traverse_answered(
        &si.traversal_model,
        edge,
        state,
        Ok::<Vec<StateVariable>, ModelError>(traversal.result_state),
    )
    &&& cost_answered(
        &si.cost_model,
        edge,
        state,
        traversal.result_state,
        Ok::<TraversalCost, ModelError>(traversal.cost),
    )
}

/// Whether the traversal at position `k` of the route is the traversal of
/// the edge at position `k` of the path, entered in the state after the
/// traversals before it.
pub open spec fn step_made<
    T: TraversalModel,
    K: CostModel,
    C: ConstraintModel,
    L: LabelModel,
    M: MapModel,
>(
    si: &SearchInstance<T, K, C, L, M>,
    path: Seq<EdgeRef>,
    route: Seq<EdgeTraversal>,
    k: int,
) -> bool {
    exists|state: Vec<StateVariable>|
        #![trigger traversed_from(si, graph_edge(si.graph.ends(), path[k]), route.take(k), state, route[k])]
        traversed_from(si, graph_edge(si.graph.ends(), path[k]), route.take(k), state, route[k])
}

/// Whether the route holds the traversals of the first `upto` edges of the
/// path, each entered in the state after the one before it and the first
/// in the initial state.
pub open spec fn route_made<
    T: TraversalModel,
    K: CostModel,
    C: ConstraintModel,
    L: LabelModel,
    M: MapModel,
>(
    si: &SearchInstance<T, K, C, L, M>,
    path: Seq<EdgeRef>,
    route: Seq<EdgeTraversal>,
    upto: int,
) -> bool {
    &&& route.len() == upto
    &&& upto <= path.len()
    &&& forall|k: int| 0 <= k < upto ==> #[trigger] step_made(si, path, route, k)
}

/// Whether the traversal model may refuse `edge` in `state`, the state
/// after the route `done`.
pub open spec fn state_refused<
    T: TraversalModel,
    K: CostModel,
    C: ConstraintModel,
    L: LabelModel,
    M: MapModel,
>(
    si: &SearchInstance<T, K, C, L, M>,
    edge: Edge,
    done: Seq<EdgeTraversal>,
    state: Vec<StateVariable>,
) -> bool {
    &&& state@ == state_before(si.initial_state@, done, done.len() as int)
    &&& exists|cause: ModelError|
        #![trigger traverse_answered(&si.traversal_model, edge, state, Err::<Vec<StateVariable>, ModelError>(cause))]
        traverse_answered(
            &si.traversal_model,
            edge,
            state,
            Err::<Vec<StateVariable>, ModelError>(cause),
        )
}

/// Whether the cost model may refuse to price `edge` from `state`, the
/// state after the route `done`, to `next`, a state that the traversal
/// model may give.
pub open spec fn cost_refused<
    T: TraversalModel,
    K: CostModel,
    C: ConstraintModel,
    L: LabelModel,
    M: MapModel,
>(
    si: &SearchInstance<T, K, C, L, M>,
    edge: Edge,
    done: Seq<EdgeTraversal>,
    state: Vec<StateVariable>,
    next: Vec<StateVariable>,
) -> bool {
    &&& state@ == state_before(si.initial_state@, done, done.len() as int)
    &&& traverse_answered(
        &si.traversal_model,
        edge,
        state,
        Ok::<Vec<StateVariable>, ModelError>(next),
    )
    &&& exists|cause: ModelError|
        #![trigger cost_answered(&si.cost_model, edge, state, next, Err::<TraversalCost, ModelError>(cause))]
        cost_answered(&si.cost_model, edge, state, next, Err::<TraversalCost, ModelError>(cause))
}

/// Whether `e` is the failure of traversing `path` after the traversals
/// `done`: the next edge is not an edge of the graph, or the traversal
/// model refused it, or the cost model refused to price it.
pub open spec fn route_failed<
    T: TraversalModel,
    K: CostModel,
    C: ConstraintModel,
    L: LabelModel,
    M: MapModel,
>(
    si: &SearchInstance<T, K, C, L, M>,
    path: Seq<EdgeRef>,
    done: Seq<EdgeTraversal>,
    e: SearchError,
) -> bool {
    let at = done.len() as int;
    let edge = graph_edge(si.graph.ends(), path[at]);
    &&& at < path.len()
    &&& route_made(si, path, done, at)
    &&& match e {
        SearchError::EdgeLookup(l, id) => path[at] == (l, id) && !is_edge(si.graph.ends(), path[at]),
        SearchError::StateUpdate(l, id) => path[at] == (l, id) && is_edge(si.graph.ends(), path[at])
            && exists|state: Vec<StateVariable>|
            #![trigger state_refused(si, edge, done, state)]
            state_refused(si, edge, done, state),
        SearchError::CostComputation(l, id) => path[at] == (l, id) && is_edge(
            si.graph.ends(),
            path[at],
        ) && exists|state: Vec<StateVariable>, next: Vec<StateVariable>|
            #![trigger cost_refused(si, edge, done, state, next)]
            cost_refused(si, edge, done, state, next),
        _ => false,
    }
}

/// Once an edge is unknown, the first unknown edge stays the same however
/// the path goes on.
proof fn lemma_first_unknown_stays(ends: Ends, path: Seq<EdgeRef>, n: nat)
    requires
        n <= path.len(),
        first_unknown(ends, path.take(n as int)) < n,
    ensures
        first_unknown(ends, path) == first_unknown(ends, path.take(n as int)),
    decreases path.len() - n,
{
    if n < path.len() {
        assert(path.take(n as int + 1).drop_last() =~= path.take(n as int));
        lemma_first_unknown_stays(ends, path, n + 1);
    } else {
        assert(path.take(n as int) =~= path);
    }
}

/// What a search found.
pub struct SearchResult {
    /// The tree of the labels that were reached.
    pub tree: SearchTree,
    /// The number of labels that were expanded.
    pub iterations: usize,
}

} // verus!
