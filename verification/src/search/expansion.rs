//! What a search does, step by step, with the answers of its models.
//!
//! A search goes through states: a tree and a frontier. Expanding a label
//! relaxes the edges at its vertex one after the other; relaxing an edge
//! asks the models and then changes tree and frontier as their answers
//! demand. The relations of this module say which states follow from which.

use vstd::prelude::*;
use crate::cost::{Cost, ReverseCost, TraversalCost};
use crate::graph::{destination_of, incident, source_of, Ends};
use crate::label::{Label, LabelModel, LabelModelError};
use crate::map_matching::map_model::MapModel;
use crate::network::{EdgeRef, VertexId};
use crate::search::direction::Direction;
use crate::search::edge_traversal::EdgeTraversalView;
use crate::search::frontier_instance::{edge_into, next_live, state_at, FrontierInstance};
use crate::search::models::{ConstraintModel, CostModel, ModelError, TraversalModel};
use crate::search::priority_queue::{push_spec, Ranked};
use crate::search::search_error::SearchError;
use crate::search::search_instance::{
    cost_answered, graph_edge, traverse_answered, SearchInstance, SearchResult,
};
use crate::search::search_pruning::prune_outcome;
use crate::search::search_tree::{new_branch, SearchTreeError};
use crate::search::search_tree_node::SearchTreeNodeView;
use crate::search::tree_model::{has_label, index_of, insert_spec, remove_spec, Entries};
use crate::state::StateVariable;

verus! {

/// The vertex at which a search in `direction` leaves `edge`.
pub open spec fn arrival_at(ends: Ends, edge: EdgeRef, direction: Direction) -> VertexId {
    match direction {
        Direction::Forward => VertexId(destination_of(ends, edge)),
        Direction::Reverse => VertexId(source_of(ends, edge)),
    }
}

/// Whether `admitted` is what the constraint model may answer when it is
/// asked whether the edge may be entered from what `from` holds.
pub open spec fn admit_asked<
    T: TraversalModel,
    K: CostModel,
    C: ConstraintModel,
    L: LabelModel,
    M: MapModel,
>(si: &SearchInstance<T, K, C, L, M>, from: FrontierInstance, edge: EdgeRef, admitted: bool) -> bool {
    call_ensures(
        C::valid_frontier,
        (
            &si.constraint_model,
            &graph_edge(si.graph.ends(), edge),
            from.prev_edge,
            &from.prev_state,
        ),
        admitted,
    )
}

/// Whether `labelled` is what the label model may answer when it is asked
/// for the label of `state` at `vertex`.
pub open spec fn label_asked<
    T: TraversalModel,
    K: CostModel,
    C: ConstraintModel,
    L: LabelModel,
    M: MapModel,
>(
    si: &SearchInstance<T, K, C, L, M>,
    vertex: VertexId,
    state: Vec<StateVariable>,
    labelled: Result<Label, LabelModelError>,
) -> bool {
    call_ensures(L::label_from_state, (&si.label_model, vertex, &state), labelled)
}

/// Whether `estimate` is the estimate of what is left to go from `vertex`:
/// what the traversal model may answer for the way to the target, and
/// nothing without a target.
pub open spec fn estimate_asked<
    T: TraversalModel,
    K: CostModel,
    C: ConstraintModel,
    L: LabelModel,
    M: MapModel,
>(
    si: &SearchInstance<T, K, C, L, M>,
    vertex: VertexId,
    target: Option<VertexId>,
    estimate: Cost,
) -> bool {
    match target {
        Some(t) => call_ensures(T::estimate, (&si.traversal_model, vertex, t), estimate),
        None => estimate == Cost(0),
    }
}

/// The costs that the tree records for `label`: those of the traversal
/// into it, and none at the root.
pub open spec fn cost_at(tree: Entries, label: Label) -> TraversalCost {
    match tree[index_of(tree, label)].1 {
        SearchTreeNodeView::Branch { incoming_edge, .. } => incoming_edge.cost,
        SearchTreeNodeView::Root { .. } => TraversalCost {
            objective_cost: Cost(0),
            total_cost: Cost(0),
        },
    }
}

/// What inserting `child` under `parent` makes of the tree: the tree
/// pruned for `child` and grown by the branch; or the failure of the
/// insertion.
pub open spec fn insert_outcome<L: LabelModel>(
    model: &L,
    tree: Entries,
    parent: Label,
    taken: EdgeTraversalView,
    child: Label,
    direction: Direction,
) -> Result<Entries, SearchTreeError> {
    if !has_label(tree, parent) {
        Err(SearchTreeError::MissingParent(parent))
    } else {
        match prune_outcome(model, tree, child, taken.cost.objective_cost) {
            Err(e) => Err(SearchTreeError::PruningError(e)),
            Ok(pruned) => if !has_label(pruned, parent) {
                Err(SearchTreeError::MissingParent(parent))
            } else if has_label(pruned, child) {
                Err(SearchTreeError::LabelAlreadyExists(child))
            } else {
                Ok(insert_spec(pruned, parent, new_branch(taken, parent, direction), child))
            },
        }
    }
}

/// Whether a label that was reached at the objective cost `reached` is
/// left out: the tree holds it already, at no greater cost or with
/// children.
pub open spec fn left_out(tree: Entries, label: Label, reached: Cost) -> bool {
    has_label(tree, label) && (reached.0 >= cost_at(tree, label).objective_cost.0
        || tree[index_of(tree, label)].1.children() != 0)
}

/// The traversal that is recorded for a label that was reached over `edge`
/// in the state `state`, from costs of `before` at a cost of `edge_cost`.
pub open spec fn taken_over(
    edge: EdgeRef,
    state: Seq<StateVariable>,
    before: TraversalCost,
    edge_cost: TraversalCost,
) -> EdgeTraversalView {
    EdgeTraversalView {
        edge_list_id: edge.0,
        edge_id: edge.1,
        cost: TraversalCost {
            objective_cost: before.objective_cost.saturating_sum(edge_cost.objective_cost),
            total_cost: before.total_cost.saturating_sum(edge_cost.total_cost),
        },
        result_state: state,
    }
}

/// The last step of relaxing an edge, with the estimate of what is left to
/// go: the tree is `grown`, and the label waits with the priority of what
/// it cost to reach it and the estimate.
pub open spec fn pushed_with<
    T: TraversalModel,
    K: CostModel,
    C: ConstraintModel,
    L: LabelModel,
    M: MapModel,
>(
    si: &SearchInstance<T, K, C, L, M>,
    target: Option<VertexId>,
    label: Label,
    reached: Cost,
    estimate: Cost,
    grown: Entries,
    q0: Seq<Ranked>,
    t1: Entries,
    q1: Seq<Ranked>,
) -> bool {
    &&& estimate_asked(si, label.vertex(), target, estimate)
    &&& t1 == grown
    &&& q1 == push_spec(q0, label, ReverseCost(reached.saturating_sum(estimate)))
}

/// Relaxing an edge, from where the models have given state, cost and
/// label: a label that is left out changes nothing; else the label gives
/// way if the tree holds it, the branch is inserted, and the label is
/// pushed. A failure of the insertion is the failure of the search.
pub open spec fn settled<
    T: TraversalModel,
    K: CostModel,
    C: ConstraintModel,
    L: LabelModel,
    M: MapModel,
>(
    si: &SearchInstance<T, K, C, L, M>,
    direction: Direction,
    target: Option<VertexId>,
    from: FrontierInstance,
    prev_cost: TraversalCost,
    edge: EdgeRef,
    state: Seq<StateVariable>,
    edge_cost: TraversalCost,
    label: Label,
    t0: Entries,
    q0: Seq<Ranked>,
    t1: Entries,
    q1: Seq<Ranked>,
    failure: Option<SearchError>,
) -> bool {
    let taken = taken_over(edge, state, prev_cost, edge_cost);
    if left_out(t0, label, taken.cost.objective_cost) {
        t1 == t0 && q1 == q0 && failure is None
    } else {
        match insert_outcome(
            &si.label_model,
            remove_spec(t0, label),
            from.prev_label,
            taken,
            label,
            direction,
        ) {
            Err(e) => failure == Some(SearchError::SearchTreeFailure(e)),
            Ok(grown) => failure is None && exists|estimate: Cost|
                #![trigger pushed_with(si, target, label, taken.cost.objective_cost, estimate, grown, q0, t1, q1)]
                pushed_with(si, target, label, taken.cost.objective_cost, estimate, grown, q0, t1, q1),
        }
    }
}

/// Relaxing an edge, from where the models have given state and cost: the
/// label model is asked for the label of the state at the vertex at which
/// the edge arrives. Without a label, or with a label at another vertex,
/// the search fails with `LabelFailure`.
pub open spec fn labelled_then<
    T: TraversalModel,
    K: CostModel,
    C: ConstraintModel,
    L: LabelModel,
    M: MapModel,
>(
    si: &SearchInstance<T, K, C, L, M>,
    direction: Direction,
    target: Option<VertexId>,
    from: FrontierInstance,
    prev_cost: TraversalCost,
    edge: EdgeRef,
    state: Vec<StateVariable>,
    edge_cost: TraversalCost,
    labelled: Result<Label, LabelModelError>,
    t0: Entries,
    q0: Seq<Ranked>,
    t1: Entries,
    q1: Seq<Ranked>,
    failure: Option<SearchError>,
) -> bool {
    let vertex = arrival_at(si.graph.ends(), edge, direction);
    &&& label_asked(si, vertex, state, labelled)
    &&& match labelled {
        Ok(label) => if label.vertex() == vertex {
            settled(
                si,
                direction,
                target,
                from,
                prev_cost,
                edge,
                state@,
                edge_cost,
                label,
                t0,
                q0,
                t1,
                q1,
                failure,
            )
        } else {
            failure == Some(SearchError::LabelFailure(vertex))
        },
        Err(_) => failure == Some(SearchError::LabelFailure(vertex)),
    }
}

/// Relaxing an edge, from where the traversal model has given the state:
/// the cost model is asked for the cost of the edge. If it fails, the
/// search fails with `CostComputation`.
pub open spec fn priced_then<
    T: TraversalModel,
    K: CostModel,
    C: ConstraintModel,
    L: LabelModel,
    M: MapModel,
>(
    si: &SearchInstance<T, K, C, L, M>,
    direction: Direction,
    target: Option<VertexId>,
    from: FrontierInstance,
    prev_cost: TraversalCost,
    edge: EdgeRef,
    state: Vec<StateVariable>,
    priced: Result<TraversalCost, ModelError>,
    t0: Entries,
    q0: Seq<Ranked>,
    t1: Entries,
    q1: Seq<Ranked>,
    failure: Option<SearchError>,
) -> bool {
    &&& cost_answered(
        &si.cost_model,
        graph_edge(si.graph.ends(), edge),
        from.prev_state,
        state,
        priced,
    )
    &&& match priced {
        Ok(edge_cost) => exists|labelled: Result<Label, LabelModelError>|
            #![trigger labelled_then(si, direction, target, from, prev_cost, edge, state, edge_cost, labelled, t0, q0, t1, q1, failure)]
            labelled_then(
                si,
                direction,
                target,
                from,
                prev_cost,
                edge,
                state,
                edge_cost,
                labelled,
                t0,
                q0,
                t1,
                q1,
                failure,
            ),
        Err(_) => failure == Some(SearchError::CostComputation(edge.0, edge.1)),
    }
}

/// Relaxing an edge that was admitted: the traversal model is asked for the
/// state after the edge. If it fails, the search fails with `StateUpdate`.
pub open spec fn traversed_then<
    T: TraversalModel,
    K: CostModel,
    C: ConstraintModel,
    L: LabelModel,
    M: MapModel,
>(
    si: &SearchInstance<T, K, C, L, M>,
    direction: Direction,
    target: Option<VertexId>,
    from: FrontierInstance,
    prev_cost: TraversalCost,
    edge: EdgeRef,
    traversed: Result<Vec<StateVariable>, ModelError>,
    t0: Entries,
    q0: Seq<Ranked>,
    t1: Entries,
    q1: Seq<Ranked>,
    failure: Option<SearchError>,
) -> bool {
    &&& traverse_answered(
        &si.traversal_model,
        graph_edge(si.graph.ends(), edge),
        from.prev_state,
        traversed,
    )
    &&& match traversed {
        Ok(state) => exists|priced: Result<TraversalCost, ModelError>|
            #![trigger priced_then(si, direction, target, from, prev_cost, edge, state, priced, t0, q0, t1, q1, failure)]
            priced_then(
                si,
                direction,
                target,
                from,
                prev_cost,
                edge,
                state,
                priced,
                t0,
                q0,
                t1,
                q1,
                failure,
            ),
        Err(_) => failure == Some(SearchError::StateUpdate(edge.0, edge.1)),
    }
}

/// Relaxing an edge, from the answer of the constraint model: an edge
/// that is not admitted, or that comes back to the vertex that it leaves,
/// changes nothing.
pub open spec fn admitted_then<
    T: TraversalModel,
    K: CostModel,
    C: ConstraintModel,
    L: LabelModel,
    M: MapModel,
>(
    si: &SearchInstance<T, K, C, L, M>,
    direction: Direction,
    target: Option<VertexId>,
    from: FrontierInstance,
    prev_cost: TraversalCost,
    edge: EdgeRef,
    admitted: bool,
    t0: Entries,
    q0: Seq<Ranked>,
    t1: Entries,
    q1: Seq<Ranked>,
    failure: Option<SearchError>,
) -> bool {
    &&& admit_asked(si, from, edge, admitted)
    &&& if !admitted || arrival_at(si.graph.ends(), edge, direction) == from.prev_label.vertex() {
        t1 == t0 && q1 == q0 && failure is None
    } else {
        exists|traversed: Result<Vec<StateVariable>, ModelError>|
            #![trigger traversed_then(si, direction, target, from, prev_cost, edge, traversed, t0, q0, t1, q1, failure)]
            traversed_then(
                si,
                direction,
                target,
                from,
                prev_cost,
                edge,
                traversed,
                t0,
                q0,
                t1,
                q1,
                failure,
            )
    }
}

/// Whether relaxing `edge` from what `from` holds takes the tree `t0` and
/// the frontier `q0` to `t1` and `q1`, or fails with `failure`: the models
/// are asked, one after the other, whether the edge is admitted, for the
/// state after it, for its cost and for the label of that state, and tree
/// and frontier change as [`settled`] says.
pub open spec fn edge_relaxed<
    T: TraversalModel,
    K: CostModel,
    C: ConstraintModel,
    L: LabelModel,
    M: MapModel,
>(
    si: &SearchInstance<T, K, C, L, M>,
    direction: Direction,
    target: Option<VertexId>,
    from: FrontierInstance,
    prev_cost: TraversalCost,
    edge: EdgeRef,
    t0: Entries,
    q0: Seq<Ranked>,
    t1: Entries,
    q1: Seq<Ranked>,
    failure: Option<SearchError>,
) -> bool {
    exists|admitted: bool|
        #![trigger admitted_then(si, direction, target, from, prev_cost, edge, admitted, t0, q0, t1, q1, failure)]
        admitted_then(
            si,
            direction,
            target,
            from,
            prev_cost,
            edge,
            admitted,
            t0,
            q0,
            t1,
            q1,
            failure,
        )
}

/// Whether relaxing the first `k` of `edges`, one after the other and
/// without a failure, takes the tree `t_start` and the frontier `q_start`
/// to `t` and `q`.
pub open spec fn relaxed_upto<
    T: TraversalModel,
    K: CostModel,
    C: ConstraintModel,
    L: LabelModel,
    M: MapModel,
>(
    si: &SearchInstance<T, K, C, L, M>,
    direction: Direction,
    target: Option<VertexId>,
    from: FrontierInstance,
    prev_cost: TraversalCost,
    edges: Seq<EdgeRef>,
    k: nat,
    t_start: Entries,
    q_start: Seq<Ranked>,
    t: Entries,
    q: Seq<Ranked>,
) -> bool
    decreases k,
{
    if k == 0 {
        t == t_start && q == q_start
    } else {
        exists|t0: Entries, q0: Seq<Ranked>|
            #![trigger edge_relaxed(si, direction, target, from, prev_cost, edges[k - 1], t0, q0, t, q, None::<SearchError>)]
            relaxed_upto(
                si,
                direction,
                target,
                from,
                prev_cost,
                edges,
                (k - 1) as nat,
                t_start,
                q_start,
                t0,
                q0,
            ) && edge_relaxed(
                si,
                direction,
                target,
                from,
                prev_cost,
                edges[k - 1],
                t0,
                q0,
                t,
                q,
                None::<SearchError>,
            )
    }
}

/// Whether relaxing edge `k` of `edges` fails with `e`, from the tree `t0`
/// and the frontier `q0` that relaxing the edges before it has led to.
pub open spec fn relaxing_fails<
    T: TraversalModel,
    K: CostModel,
    C: ConstraintModel,
    L: LabelModel,
    M: MapModel,
>(
    si: &SearchInstance<T, K, C, L, M>,
    direction: Direction,
    target: Option<VertexId>,
    from: FrontierInstance,
    prev_cost: TraversalCost,
    edges: Seq<EdgeRef>,
    k: int,
    t_start: Entries,
    q_start: Seq<Ranked>,
    t0: Entries,
    q0: Seq<Ranked>,
    e: SearchError,
) -> bool {
    &&& 0 <= k < edges.len()
    &&& relaxed_upto(si, direction, target, from, prev_cost, edges, k as nat, t_start, q_start, t0, q0)
    &&& exists|t1: Entries, q1: Seq<Ranked>|
        #![trigger edge_relaxed(si, direction, target, from, prev_cost, edges[k], t0, q0, t1, q1, Some(e))]
        edge_relaxed(si, direction, target, from, prev_cost, edges[k], t0, q0, t1, q1, Some(e))
}

/// The edges that a search in `direction` relaxes at `vertex`.
pub open spec fn edges_at(ends: Ends, vertices: nat, vertex: VertexId, direction: Direction) -> Seq<
    EdgeRef,
> {
    if vertex.0 < vertices {
        incident(ends, ends.len(), vertex.0, direction)
    } else {
        Seq::empty()
    }
}

/// Whether `from` and `prev_cost` hold what the tree records for the label
/// that is expanded: the edge into it, the state at it and its costs.
pub open spec fn taken_from<
    T: TraversalModel,
    K: CostModel,
    C: ConstraintModel,
    L: LabelModel,
    M: MapModel,
>(
    si: &SearchInstance<T, K, C, L, M>,
    tree: Entries,
    label: Label,
    from: FrontierInstance,
    prev_cost: TraversalCost,
) -> bool {
    &&& has_label(tree, label)
    &&& from.prev_label == label
    &&& from.prev_edge == edge_into(tree, label)
    &&& from.prev_state@ == state_at(tree, label, si.initial_state@)
    &&& prev_cost == cost_at(tree, label)
}

/// Whether expanding the next label of the frontier takes the tree `t0`
/// and the frontier `q0` to `t1` and `q1`: the label is popped (see
/// [`next_live`]), it does not stand at the vertex to stop at, and every
/// edge at its vertex is relaxed without a failure.
pub open spec fn expanded<
    T: TraversalModel,
    K: CostModel,
    C: ConstraintModel,
    L: LabelModel,
    M: MapModel,
>(
    si: &SearchInstance<T, K, C, L, M>,
    direction: Direction,
    target: Option<VertexId>,
    stop_at: Option<VertexId>,
    from: FrontierInstance,
    t0: Entries,
    q0: Seq<Ranked>,
    t1: Entries,
    q1: Seq<Ranked>,
) -> bool {
    let edges = edges_at(si.graph.ends(), si.graph.vertices(), from.prev_label.vertex(), direction);
    &&& next_live(q0, stop_at, t0).1 == Some(from.prev_label)
    &&& stop_at != Some(from.prev_label.vertex())
    &&& taken_from(si, t0, from.prev_label, from, cost_at(t0, from.prev_label))
    &&& relaxed_upto(
        si,
        direction,
        target,
        from,
        cost_at(t0, from.prev_label),
        edges,
        edges.len(),
        t0,
        next_live(q0, stop_at, t0).0,
        t1,
        q1,
    )
}

/// Whether `n` expansions, one after the other, take the tree `t_start`
/// and the frontier `q_start` to `t` and `q`.
pub open spec fn expanded_times<
    T: TraversalModel,
    K: CostModel,
    C: ConstraintModel,
    L: LabelModel,
    M: MapModel,
>(
    si: &SearchInstance<T, K, C, L, M>,
    direction: Direction,
    target: Option<VertexId>,
    stop_at: Option<VertexId>,
    n: nat,
    t_start: Entries,
    q_start: Seq<Ranked>,
    t: Entries,
    q: Seq<Ranked>,
) -> bool
    decreases n,
{
    if n == 0 {
        t == t_start && q == q_start
    } else {
        exists|from: FrontierInstance, t0: Entries, q0: Seq<Ranked>|
            #![trigger expanded(si, direction, target, stop_at, from, t0, q0, t, q)]
            expanded_times(
                si,
                direction,
                target,
                stop_at,
                (n - 1) as nat,
                t_start,
                q_start,
                t0,
                q0,
            ) && expanded(si, direction, target, stop_at, from, t0, q0, t, q)
    }
}

/// Whether `r` is the result of a search that found what it was to find
/// after `n` expansions, with the tree `t`.
pub open spec fn found(
    r: Result<SearchResult, SearchError>,
    t: Entries,
    direction: Direction,
    n: nat,
) -> bool {
    r matches Ok(result) && result.tree.entries() == t && result.tree.orientation() == direction
        && result.iterations == n
}

/// Whether a search from `source` that has come to the tree `t` and the
/// frontier `q` after `n` expansions ends there with `r`.
///
/// It ends well if the frontier has run empty and there is no vertex to
/// stop at, or if the next label stands at that vertex. It fails with
/// `NoPathExistsBetweenVertices` if the frontier has run empty before the
/// vertex to stop at was reached; with `IterationLimitReached` if there is
/// a label to expand but no expansion left; and with the failure of the
/// first edge that cannot be relaxed.
pub open spec fn ended<
    T: TraversalModel,
    K: CostModel,
    C: ConstraintModel,
    L: LabelModel,
    M: MapModel,
>(
    si: &SearchInstance<T, K, C, L, M>,
    direction: Direction,
    source: VertexId,
    target: Option<VertexId>,
    stop_at: Option<VertexId>,
    n: nat,
    t: Entries,
    q: Seq<Ranked>,
    r: Result<SearchResult, SearchError>,
) -> bool {
    match next_live(q, stop_at, t).1 {
        None => match stop_at {
            Some(end) => r == Err::<SearchResult, SearchError>(
                SearchError::NoPathExistsBetweenVertices(source, end, t.len() as usize),
            ),
            None => found(r, t, direction, n),
        },
        Some(label) => if stop_at == Some(label.vertex()) {
            found(r, t, direction, n)
        } else if n >= si.iteration_limit {
            r == Err::<SearchResult, SearchError>(
                SearchError::IterationLimitReached(si.iteration_limit),
            )
        } else {
            exists|from: FrontierInstance, k: int, t0: Entries, q0: Seq<Ranked>, e: SearchError|
                #![trigger stopped_at(si, direction, target, stop_at, from, k, t, q, t0, q0, e)]
                stopped_at(si, direction, target, stop_at, from, k, t, q, t0, q0, e) && r
                    == Err::<SearchResult, SearchError>(e)
        },
    }
}

/// Whether the expansion of the next label of the frontier `q`, in the tree
/// `t`, fails with `e` at edge `k`, after the edges before it have led to
/// the tree `t0` and the frontier `q0`.
pub open spec fn stopped_at<
    T: TraversalModel,
    K: CostModel,
    C: ConstraintModel,
    L: LabelModel,
    M: MapModel,
>(
    si: &SearchInstance<T, K, C, L, M>,
    direction: Direction,
    target: Option<VertexId>,
    stop_at: Option<VertexId>,
    from: FrontierInstance,
    k: int,
    t: Entries,
    q: Seq<Ranked>,
    t0: Entries,
    q0: Seq<Ranked>,
    e: SearchError,
) -> bool {
    &&& next_live(q, stop_at, t).1 == Some(from.prev_label)
    &&& taken_from(si, t, from.prev_label, from, cost_at(t, from.prev_label))
    &&& relaxing_fails(
        si,
        direction,
        target,
        from,
        cost_at(t, from.prev_label),
        edges_at(si.graph.ends(), si.graph.vertices(), from.prev_label.vertex(), direction),
        k,
        t,
        next_live(q, stop_at, t).0,
        t0,
        q0,
        e,
    )
}

/// The tree that holds `root` alone.
pub open spec fn root_alone(root: Label, direction: Direction) -> Entries {
    seq![(root, SearchTreeNodeView::Root { direction, child_count: 0 })]
}

/// Whether `r` is the result of the search from `source` whose root is
/// `root`: the traversal model is asked for an estimate of the way to the
/// target, the root waits alone with that priority, and after a number of
/// expansions the search ends with `r` (see [`expanded_times`], [`ended`]).
pub open spec fn searched<
    T: TraversalModel,
    K: CostModel,
    C: ConstraintModel,
    L: LabelModel,
    M: MapModel,
>(
    si: &SearchInstance<T, K, C, L, M>,
    direction: Direction,
    source: VertexId,
    target: Option<VertexId>,
    stop_at: Option<VertexId>,
    root: Label,
    r: Result<SearchResult, SearchError>,
) -> bool {
    exists|estimate: Cost, n: nat, t: Entries, q: Seq<Ranked>|
        #![trigger search_run(si, direction, source, target, stop_at, root, estimate, n, t, q, r)]
        search_run(si, direction, source, target, stop_at, root, estimate, n, t, q, r)
}

/// Whether the search whose root waits with the priority `estimate` comes
/// to the tree `t` and the frontier `q` after `n` expansions, and ends
/// there with `r`.
pub open spec fn search_run<
    T: TraversalModel,
    K: CostModel,
    C: ConstraintModel,
    L: LabelModel,
    M: MapModel,
>(
    si: &SearchInstance<T, K, C, L, M>,
    direction: Direction,
    source: VertexId,
    target: Option<VertexId>,
    stop_at: Option<VertexId>,
    root: Label,
    estimate: Cost,
    n: nat,
    t: Entries,
    q: Seq<Ranked>,
    r: Result<SearchResult, SearchError>,
) -> bool {
    &&& estimate_asked(si, source, target, estimate)
    &&& expanded_times(
        si,
        direction,
        target,
        stop_at,
        n,
        root_alone(root, direction),
        seq![(root, ReverseCost(estimate))],
        t,
        q,
    )
    &&& ended(si, direction, source, target, stop_at, n, t, q, r)
}

/// An edge that is not admitted, or that comes back to the vertex that it
/// leaves, is relaxed without a change.
pub proof fn lemma_edge_skipped<
    T: TraversalModel,
    K: CostModel,
    C: ConstraintModel,
    L: LabelModel,
    M: MapModel,
>(
    si: &SearchInstance<T, K, C, L, M>,
    direction: Direction,
    target: Option<VertexId>,
    from: FrontierInstance,
    prev_cost: TraversalCost,
    edge: EdgeRef,
    admitted: bool,
    t: Entries,
    q: Seq<Ranked>,
)
    requires
        admit_asked(si, from, edge, admitted),
        !admitted || arrival_at(si.graph.ends(), edge, direction) == from.prev_label.vertex(),
    ensures
        edge_relaxed(si, direction, target, from, prev_cost, edge, t, q, t, q, None::<SearchError>),
{
    assert(admitted_then(
        si,
        direction,
        target,
        from,
        prev_cost,
        edge,
        admitted,
        t,
        q,
        t,
        q,
        None::<SearchError>,
    ));
}

/// An edge that was admitted is relaxed as the answer of the traversal
/// model demands.
pub proof fn lemma_edge_traversed<
    T: TraversalModel,
    K: CostModel,
    C: ConstraintModel,
    L: LabelModel,
    M: MapModel,
>(
    si: &SearchInstance<T, K, C, L, M>,
    direction: Direction,
    target: Option<VertexId>,
    from: FrontierInstance,
    prev_cost: TraversalCost,
    edge: EdgeRef,
    traversed: Result<Vec<StateVariable>, ModelError>,
    t0: Entries,
    q0: Seq<Ranked>,
    t1: Entries,
    q1: Seq<Ranked>,
    failure: Option<SearchError>,
)
    requires
        admit_asked(si, from, edge, true),
        arrival_at(si.graph.ends(), edge, direction) != from.prev_label.vertex(),
        traversed_then(si, direction, target, from, prev_cost, edge, traversed, t0, q0, t1, q1, failure),
    ensures
        edge_relaxed(si, direction, target, from, prev_cost, edge, t0, q0, t1, q1, failure),
{
    assert(admitted_then(
        si,
        direction,
        target,
        from,
        prev_cost,
        edge,
        true,
        t0,
        q0,
        t1,
        q1,
        failure,
    ));
}

/// An edge that was admitted and traversed is relaxed as the answer of the
/// cost model demands.
pub proof fn lemma_edge_priced<
    T: TraversalModel,
    K: CostModel,
    C: ConstraintModel,
    L: LabelModel,
    M: MapModel,
>(
    si: &SearchInstance<T, K, C, L, M>,
    direction: Direction,
    target: Option<VertexId>,
    from: FrontierInstance,
    prev_cost: TraversalCost,
    edge: EdgeRef,
    state: Vec<StateVariable>,
    priced: Result<TraversalCost, ModelError>,
    t0: Entries,
    q0: Seq<Ranked>,
    t1: Entries,
    q1: Seq<Ranked>,
    failure: Option<SearchError>,
)
    requires
        admit_asked(si, from, edge, true),
        arrival_at(si.graph.ends(), edge, direction) != from.prev_label.vertex(),
        traverse_answered(
            &si.traversal_model,
            graph_edge(si.graph.ends(), edge),
            from.prev_state,
            Ok::<Vec<StateVariable>, ModelError>(state),
        ),
        priced_then(si, direction, target, from, prev_cost, edge, state, priced, t0, q0, t1, q1, failure),
    ensures
        edge_relaxed(si, direction, target, from, prev_cost, edge, t0, q0, t1, q1, failure),
{
    let traversed = Ok::<Vec<StateVariable>, ModelError>(state);
    assert(traversed->Ok_0 == state);
    assert(priced_then(
        si,
        direction,
        target,
        from,
        prev_cost,
        edge,
        traversed->Ok_0,
        priced,
        t0,
        q0,
        t1,
        q1,
        failure,
    ));
    assert(traversed_then(
        si,
        direction,
        target,
        from,
        prev_cost,
        edge,
        traversed,
        t0,
        q0,
        t1,
        q1,
        failure,
    ));
    lemma_edge_traversed(
        si,
        direction,
        target,
        from,
        prev_cost,
        edge,
        traversed,
        t0,
        q0,
        t1,
        q1,
        failure,
    );
}

/// An edge that was admitted, traversed and priced is relaxed as the
/// answer of the label model demands.
pub proof fn lemma_edge_labelled<
    T: TraversalModel,
    K: CostModel,
    C: ConstraintModel,
    L: LabelModel,
    M: MapModel,
>(
    si: &SearchInstance<T, K, C, L, M>,
    direction: Direction,
    target: Option<VertexId>,
    from: FrontierInstance,
    prev_cost: TraversalCost,
    edge: EdgeRef,
    state: Vec<StateVariable>,
    edge_cost: TraversalCost,
    labelled: Result<Label, LabelModelError>,
    t0: Entries,
    q0: Seq<Ranked>,
    t1: Entries,
    q1: Seq<Ranked>,
    failure: Option<SearchError>,
)
    requires
        admit_asked(si, from, edge, true),
        arrival_at(si.graph.ends(), edge, direction) != from.prev_label.vertex(),
        traverse_answered(
            &si.traversal_model,
            graph_edge(si.graph.ends(), edge),
            from.prev_state,
            Ok::<Vec<StateVariable>, ModelError>(state),
        ),
        cost_answered(
            &si.cost_model,
            graph_edge(si.graph.ends(), edge),
            from.prev_state,
            state,
            Ok::<TraversalCost, ModelError>(edge_cost),
        ),
        labelled_then(
            si,
            direction,
            target,
            from,
            prev_cost,
            edge,
            state,
            edge_cost,
            labelled,
            t0,
            q0,
            t1,
            q1,
            failure,
        ),
    ensures
        edge_relaxed(si, direction, target, from, prev_cost, edge, t0, q0, t1, q1, failure),
{
    let priced = Ok::<TraversalCost, ModelError>(edge_cost);
    assert(priced->Ok_0 == edge_cost);
    assert(labelled_then(
        si,
        direction,
        target,
        from,
        prev_cost,
        edge,
        state,
        priced->Ok_0,
        labelled,
        t0,
        q0,
        t1,
        q1,
        failure,
    ));
    assert(priced_then(
        si,
        direction,
        target,
        from,
        prev_cost,
        edge,
        state,
        priced,
        t0,
        q0,
        t1,
        q1,
        failure,
    ));
    lemma_edge_priced(
        si,
        direction,
        target,
        from,
        prev_cost,
        edge,
        state,
        priced,
        t0,
        q0,
        t1,
        q1,
        failure,
    );
}

/// One more edge that is relaxed without a failure.
pub proof fn lemma_relaxed_once<
    T: TraversalModel,
    K: CostModel,
    C: ConstraintModel,
    L: LabelModel,
    M: MapModel,
>(
    si: &SearchInstance<T, K, C, L, M>,
    direction: Direction,
    target: Option<VertexId>,
    from: FrontierInstance,
    prev_cost: TraversalCost,
    edges: Seq<EdgeRef>,
    k: nat,
    t_start: Entries,
    q_start: Seq<Ranked>,
    t0: Entries,
    q0: Seq<Ranked>,
    t1: Entries,
    q1: Seq<Ranked>,
)
    requires
        relaxed_upto(si, direction, target, from, prev_cost, edges, k, t_start, q_start, t0, q0),
        edge_relaxed(
            si,
            direction,
            target,
            from,
            prev_cost,
            edges[k as int],
            t0,
            q0,
            t1,
            q1,
            None::<SearchError>,
        ),
    ensures
        relaxed_upto(si, direction, target, from, prev_cost, edges, k + 1, t_start, q_start, t1, q1),
{
    assert(relaxed_upto(
        si,
        direction,
        target,
        from,
        prev_cost,
        edges,
        ((k + 1) - 1) as nat,
        t_start,
        q_start,
        t0,
        q0,
    ));
}

/// One more expansion.
pub proof fn lemma_expanded_once<
    T: TraversalModel,
    K: CostModel,
    C: ConstraintModel,
    L: LabelModel,
    M: MapModel,
>(
    si: &SearchInstance<T, K, C, L, M>,
    direction: Direction,
    target: Option<VertexId>,
    stop_at: Option<VertexId>,
    n: nat,
    t_start: Entries,
    q_start: Seq<Ranked>,
    from: FrontierInstance,
    t0: Entries,
    q0: Seq<Ranked>,
    t1: Entries,
    q1: Seq<Ranked>,
)
    requires
        expanded_times(si, direction, target, stop_at, n, t_start, q_start, t0, q0),
        expanded(si, direction, target, stop_at, from, t0, q0, t1, q1),
    ensures
        expanded_times(si, direction, target, stop_at, n + 1, t_start, q_start, t1, q1),
{
    assert(expanded_times(
        si,
        direction,
        target,
        stop_at,
        ((n + 1) - 1) as nat,
        t_start,
        q_start,
        t0,
        q0,
    ));
}

/// A search in which an edge cannot be relaxed fails with the failure of
/// that edge.
pub proof fn lemma_search_fails<
    T: TraversalModel,
    K: CostModel,
    C: ConstraintModel,
    L: LabelModel,
    M: MapModel,
>(
    si: &SearchInstance<T, K, C, L, M>,
    direction: Direction,
    source: VertexId,
    target: Option<VertexId>,
    stop_at: Option<VertexId>,
    root: Label,
    estimate: Cost,
    n: nat,
    from: FrontierInstance,
    k: int,
    t: Entries,
    q: Seq<Ranked>,
    t0: Entries,
    q0: Seq<Ranked>,
    t1: Entries,
    q1: Seq<Ranked>,
    e: SearchError,
)
    requires
        estimate_asked(si, source, target, estimate),
        expanded_times(
            si,
            direction,
            target,
            stop_at,
            n,
            root_alone(root, direction),
            seq![(root, ReverseCost(estimate))],
            t,
            q,
        ),
        n < si.iteration_limit,
        next_live(q, stop_at, t).1 == Some(from.prev_label),
        stop_at != Some(from.prev_label.vertex()),
        taken_from(si, t, from.prev_label, from, cost_at(t, from.prev_label)),
        0 <= k < edges_at(
            si.graph.ends(),
            si.graph.vertices(),
            from.prev_label.vertex(),
            direction,
        ).len(),
        relaxed_upto(
            si,
            direction,
            target,
            from,
            cost_at(t, from.prev_label),
            edges_at(si.graph.ends(), si.graph.vertices(), from.prev_label.vertex(), direction),
            k as nat,
            t,
            next_live(q, stop_at, t).0,
            t0,
            q0,
        ),
        edge_relaxed(
            si,
            direction,
            target,
            from,
            cost_at(t, from.prev_label),
            edges_at(si.graph.ends(), si.graph.vertices(), from.prev_label.vertex(), direction)[k],
            t0,
            q0,
            t1,
            q1,
            Some(e),
        ),
    ensures
        searched(
            si,
            direction,
            source,
            target,
            stop_at,
            root,
            Err::<SearchResult, SearchError>(e),
        ),
{
    let r = Err::<SearchResult, SearchError>(e);
    let edges = edges_at(si.graph.ends(), si.graph.vertices(), from.prev_label.vertex(), direction);
    assert(relaxing_fails(
        si,
        direction,
        target,
        from,
        cost_at(t, from.prev_label),
        edges,
        k,
        t,
        next_live(q, stop_at, t).0,
        t0,
        q0,
        e,
    ));
    assert(stopped_at(si, direction, target, stop_at, from, k, t, q, t0, q0, e));
    assert(ended(si, direction, source, target, stop_at, n, t, q, r));
    assert(search_run(si, direction, source, target, stop_at, root, estimate, n, t, q, r));
}

/// A label that is not left out, and whose branch is inserted, is settled
/// by the insertion and the push.
pub proof fn lemma_settled_grown<
    T: TraversalModel,
    K: CostModel,
    C: ConstraintModel,
    L: LabelModel,
    M: MapModel,
>(
    si: &SearchInstance<T, K, C, L, M>,
    direction: Direction,
    target: Option<VertexId>,
    from: FrontierInstance,
    prev_cost: TraversalCost,
    edge: EdgeRef,
    state: Seq<StateVariable>,
    edge_cost: TraversalCost,
    label: Label,
    estimate: Cost,
    t0: Entries,
    q0: Seq<Ranked>,
    t1: Entries,
    q1: Seq<Ranked>,
)
    requires
        !left_out(t0, label, taken_over(edge, state, prev_cost, edge_cost).cost.objective_cost),
        insert_outcome(
            &si.label_model,
            remove_spec(t0, label),
            from.prev_label,
            taken_over(edge, state, prev_cost, edge_cost),
            label,
            direction,
        ) == Ok::<Entries, SearchTreeError>(t1),
        estimate_asked(si, label.vertex(), target, estimate),
        q1 == push_spec(
            q0,
            label,
            ReverseCost(
                taken_over(edge, state, prev_cost, edge_cost).cost.objective_cost.saturating_sum(
                    estimate,
                ),
            ),
        ),
    ensures
        settled(
            si,
            direction,
            target,
            from,
            prev_cost,
            edge,
            state,
            edge_cost,
            label,
            t0,
            q0,
            t1,
            q1,
            None::<SearchError>,
        ),
{
    let taken = taken_over(edge, state, prev_cost, edge_cost);
    let outcome = insert_outcome(
        &si.label_model,
        remove_spec(t0, label),
        from.prev_label,
        taken,
        label,
        direction,
    );
    assert(outcome->Ok_0 == t1);
    assert(pushed_with(
        si,
        target,
        label,
        taken.cost.objective_cost,
        estimate,
        outcome->Ok_0,
        q0,
        t1,
        q1,
    ));
}

/// An edge for which the models have given state, cost and label is
/// relaxed as [`settled`] says.
pub proof fn lemma_edge_settled<
    T: TraversalModel,
    K: CostModel,
    C: ConstraintModel,
    L: LabelModel,
    M: MapModel,
>(
    si: &SearchInstance<T, K, C, L, M>,
    direction: Direction,
    target: Option<VertexId>,
    from: FrontierInstance,
    prev_cost: TraversalCost,
    edge: EdgeRef,
    state: Vec<StateVariable>,
    edge_cost: TraversalCost,
    label: Label,
    t0: Entries,
    q0: Seq<Ranked>,
    t1: Entries,
    q1: Seq<Ranked>,
    failure: Option<SearchError>,
)
    requires
        admit_asked(si, from, edge, true),
        arrival_at(si.graph.ends(), edge, direction) != from.prev_label.vertex(),
        traverse_answered(
            &si.traversal_model,
            graph_edge(si.graph.ends(), edge),
            from.prev_state,
            Ok::<Vec<StateVariable>, ModelError>(state),
        ),
        cost_answered(
            &si.cost_model,
            graph_edge(si.graph.ends(), edge),
            from.prev_state,
            state,
            Ok::<TraversalCost, ModelError>(edge_cost),
        ),
        label_asked(
            si,
            arrival_at(si.graph.ends(), edge, direction),
            state,
            Ok::<Label, LabelModelError>(label),
        ),
        label.vertex() == arrival_at(si.graph.ends(), edge, direction),
        settled(
            si,
            direction,
            target,
            from,
            prev_cost,
            edge,
            state@,
            edge_cost,
            label,
            t0,
            q0,
            t1,
            q1,
            failure,
        ),
    ensures
        edge_relaxed(si, direction, target, from, prev_cost, edge, t0, q0, t1, q1, failure),
{
    let labelled = Ok::<Label, LabelModelError>(label);
    assert(labelled->Ok_0 == label);
    assert(labelled_then(
        si,
        direction,
        target,
        from,
        prev_cost,
        edge,
        state,
        edge_cost,
        labelled,
        t0,
        q0,
        t1,
        q1,
        failure,
    ));
    lemma_edge_labelled(
        si,
        direction,
        target,
        from,
        prev_cost,
        edge,
        state,
        edge_cost,
        labelled,
        t0,
        q0,
        t1,
        q1,
        failure,
    );
}

} // verus!
