//! The A* search driver.
//!
//! The frontier is ordered by the objective cost that a label was reached
//! with plus the traversal model's estimate of what is left. The traversal
//! that the tree records for a label carries the costs added up from the
//! source, and the state that the label was reached in.

use vstd::prelude::*;
use crate::cost::{Cost, ReverseCost, TraversalCost};
use crate::graph::{destination_of, is_edge, is_walk, lemma_walk_extend, source_of, Ends};
use crate::label::{Label, LabelModel, LabelModelError};
use crate::map_matching::map_model::MapModel;
use crate::network::{Edge, EdgeRef, VertexId};
use crate::search::direction::Direction;
use crate::search::edge_traversal::{EdgeTraversal, EdgeTraversalView};
use crate::search::expansion::{
    admit_asked, arrival_at, cost_at, edge_relaxed, edges_at, ended, estimate_asked, expanded,
    expanded_times, found, insert_outcome, label_asked, labelled_then, left_out,
    lemma_edge_labelled, lemma_edge_priced, lemma_edge_settled, lemma_edge_skipped,
    lemma_edge_traversed, lemma_expanded_once, lemma_relaxed_once, lemma_search_fails,
    lemma_settled_grown, priced_then, relaxed_upto, root_alone, search_run, searched, settled,
    taken_from, taken_over, traversed_then,
};
use crate::search::frontier_instance::{is_pruned, next_live, FrontierInstance};
use crate::search::models::{ConstraintModel, CostModel, ModelError, TraversalModel};
use crate::search::priority_queue::{
    is_waiting, lemma_top_index, push_spec, top_index, waiting_index, InternalPriorityQueue,
    Ranked,
};
use crate::search::search_error::SearchError;
use crate::search::search_instance::{
    cost_answered, graph_edge, traverse_answered, SearchInstance, SearchResult,
};
use crate::search::search_tree::{
    lemma_labels_at_member, new_branch, route_of, walk_up, SearchTree, SearchTreeError,
};
use crate::search::search_tree_node::SearchTreeNodeView;
use crate::search::tree_model::{
    covers, drawn, drawn_from, grown_from, index_of, labels_at, lemma_parent_position,
    remove_spec, same_entry,
    tree_wf, Entries, Entry,
};
use crate::state::StateVariable;

verus! {

/// Whether the tree holds a label at the vertex of every waiting label.
pub open spec fn frontier_covered(queue: Seq<Ranked>, tree: Entries) -> bool {
    forall|k: int| 0 <= k < queue.len() ==> covers(tree, (#[trigger] queue[k]).0.vertex())
}

/// What is left of a covered queue after popping is covered, and so is the
/// vertex of the label that was found.
pub proof fn lemma_next_live_covered(
    queue: Seq<Ranked>,
    target: Option<VertexId>,
    tree: Entries,
    cover: Entries,
)
    requires
        frontier_covered(queue, cover),
    ensures
        frontier_covered(next_live(queue, target, tree).0, cover),
        next_live(queue, target, tree).1 matches Some(label) ==> covers(cover, label.vertex()),
    decreases queue.len(),
{
    if queue.len() > 0 {
        lemma_top_index(queue);
        let i = top_index(queue);
        let rest = queue.remove(i);
        assert forall|k: int| 0 <= k < rest.len() implies covers(
            cover,
            (#[trigger] rest[k]).0.vertex(),
        ) by {
            let k0 = if k < i { k } else { k + 1 };
            assert(rest[k] == queue[k0]);
        }
        assert(covers(cover, queue[i].0.vertex()));
        if target != Some(queue[i].0.vertex()) && is_pruned(tree, queue[i].0) {
            lemma_next_live_covered(rest, target, tree, cover);
        }
    }
}

/// Pushing a label whose vertex is covered leaves the queue covered.
pub proof fn lemma_push_covered(
    queue: Seq<Ranked>,
    label: Label,
    priority: ReverseCost,
    tree: Entries,
)
    requires
        frontier_covered(queue, tree),
        covers(tree, label.vertex()),
    ensures
        frontier_covered(push_spec(queue, label, priority), tree),
{
    let pushed = push_spec(queue, label, priority);
    assert forall|k: int| 0 <= k < pushed.len() implies covers(
        tree,
        (#[trigger] pushed[k]).0.vertex(),
    ) by {
        if is_waiting(queue, label) {
            if k != waiting_index(queue, label) {
                assert(pushed[k] == queue[k]);
            }
        } else if k < queue.len() {
            assert(pushed[k] == queue[k]);
        }
    }
}

/// A queue that is covered by a tree is covered by every tree that covers
/// the same vertices.
pub proof fn lemma_cover_carries(queue: Seq<Ranked>, before: Entries, after: Entries)
    requires
        frontier_covered(queue, before),
        forall|v: VertexId| covers(before, v) ==> covers(after, v),
    ensures
        frontier_covered(queue, after),
{
    assert forall|k: int| 0 <= k < queue.len() implies covers(
        after,
        (#[trigger] queue[k]).0.vertex(),
    ) by {
        assert(covers(before, queue[k].0.vertex()));
    }
}

/// The vertex at which a search in `direction` enters `edge`.
pub open spec fn departure(ends: Ends, edge: EdgeRef, direction: Direction) -> usize {
    match direction {
        Direction::Forward => source_of(ends, edge),
        Direction::Reverse => destination_of(ends, edge),
    }
}

/// The vertex at which a search in `direction` leaves `edge`.
pub open spec fn arrival_of(ends: Ends, edge: EdgeRef, direction: Direction) -> usize {
    match direction {
        Direction::Forward => destination_of(ends, edge),
        Direction::Reverse => source_of(ends, edge),
    }
}

/// The edge of a traversal.
pub open spec fn edge_of(traversal: EdgeTraversalView) -> EdgeRef {
    (traversal.edge_list_id, traversal.edge_id)
}

/// Whether a branch was reached over an edge of the graph that leads from
/// the vertex of its parent to its own vertex.
pub open spec fn follows_graph(entry: Entry, ends: Ends, direction: Direction) -> bool {
    entry.1 matches SearchTreeNodeView::Branch { incoming_edge, parent, .. } ==> {
        &&& is_edge(ends, edge_of(incoming_edge))
        &&& departure(ends, edge_of(incoming_edge), direction) == parent.vertex().0
        &&& arrival_of(ends, edge_of(incoming_edge), direction) == entry.0.vertex().0
    }
}

/// Whether every branch of the tree follows the graph.
pub open spec fn tree_follows_graph(s: Entries, ends: Ends, direction: Direction) -> bool {
    forall|i: int| 0 <= i < s.len() ==> follows_graph(#[trigger] s[i], ends, direction)
}

/// What is drawn from a tree that follows the graph follows the graph.
pub proof fn lemma_drawn_follows(r: Entries, s: Entries, ends: Ends, direction: Direction)
    requires
        drawn_from(r, s),
        tree_follows_graph(s, ends, direction),
    ensures
        tree_follows_graph(r, ends, direction),
{
    assert forall|k: int| 0 <= k < r.len() implies follows_graph(
        #[trigger] r[k],
        ends,
        direction,
    ) by {
        assert(drawn(r[k], s));
        let j = choose|j: int| 0 <= j < s.len() && same_entry(r[k], #[trigger] s[j]);
        assert(follows_graph(s[j], ends, direction));
    }
}

/// A tree that grew by a branch that follows the graph follows the graph.
pub proof fn lemma_grown_follows(
    r: Entries,
    s: Entries,
    added: Entry,
    ends: Ends,
    direction: Direction,
)
    requires
        grown_from(r, s, added),
        tree_follows_graph(s, ends, direction),
        follows_graph(added, ends, direction),
    ensures
        tree_follows_graph(r, ends, direction),
{
    assert forall|k: int| 0 <= k < r.len() implies follows_graph(
        #[trigger] r[k],
        ends,
        direction,
    ) by {
        if r[k] != added {
            assert(drawn(r[k], s));
            let j = choose|j: int| 0 <= j < s.len() && same_entry(r[k], #[trigger] s[j]);
            assert(follows_graph(s[j], ends, direction));
        }
    }
}

/// The edges of a sequence of traversals.
pub open spec fn edges_along(route: Seq<EdgeTraversalView>) -> Seq<EdgeRef> {
    route.map_values(|t: EdgeTraversalView| edge_of(t))
}

/// In a tree that follows the graph, the route to an entry is a walk in the
/// graph between the vertex of the root and the vertex of the entry: from
/// the root to the entry in a forward tree, from the entry to the root in a
/// reverse tree.
pub proof fn lemma_route_is_walk(s: Entries, ends: Ends, direction: Direction, i: int)
    requires
        tree_wf(s, direction),
        tree_follows_graph(s, ends, direction),
        0 <= i < s.len(),
    ensures
        match direction {
            Direction::Forward => is_walk(
                ends,
                edges_along(route_of(s, direction, i)),
                s[0].0.vertex().0,
                s[i].0.vertex().0,
            ),
            Direction::Reverse => is_walk(
                ends,
                edges_along(route_of(s, direction, i)),
                s[i].0.vertex().0,
                s[0].0.vertex().0,
            ),
        },
    decreases i,
{
    if i == 0 {
        assert(s[0].1 is Root);
        assert(walk_up(s, 0) =~= Seq::<EdgeTraversalView>::empty());
        assert(edges_along(walk_up(s, 0)) =~= Seq::<EdgeRef>::empty());
        assert(edges_along(walk_up(s, 0).reverse()) =~= Seq::<EdgeRef>::empty());
    } else {
        lemma_parent_position(s, i);
        let j = index_of(s, s[i].1->parent);
        lemma_route_is_walk(s, ends, direction, j);
        assert(follows_graph(s[i], ends, direction));
        let step = s[i].1->incoming_edge;
        let above = walk_up(s, j);
        assert(walk_up(s, i) == seq![step] + above);
        match direction {
            Direction::Forward => {
                assert(edges_along((seq![step] + above).reverse()) =~= edges_along(
                    above.reverse(),
                ).push(edge_of(step)));
                lemma_walk_extend(
                    ends,
                    edges_along(above.reverse()),
                    s[0].0.vertex().0,
                    s[j].0.vertex().0,
                    edge_of(step),
                );
            },
            Direction::Reverse => {
                let path = edges_along(seq![step] + above);
                assert(path[0] == edge_of(step));
                assert(path.drop_first() =~= edges_along(above));
            },
        }
    }
}

/// The vertex that a search in `direction` arrives at over `edge`.
pub fn arrival(edge: &Edge, direction: &Direction) -> (v: VertexId)
    ensures
        v == match *direction {
            Direction::Forward => edge.dst_vertex_id,
            Direction::Reverse => edge.src_vertex_id,
        },
{
    match direction {
        Direction::Forward => edge.dst_vertex_id,
        Direction::Reverse => edge.src_vertex_id,
    }
}

/// Whether the branch `entry` was made of what the models may answer: the
/// constraint model admits its edge after `prev_edge` in the state
/// `prev_state`; the traversal model gives `next_state` for the edge from
/// that state, and it is the state of the branch; the cost model gives
/// `edge_cost` for it, and the costs of the branch are `prev_cost` and
/// `edge_cost` added up; and the label model gives the label of the branch
/// for `next_state` at the vertex of the branch.
pub open spec fn edge_taken<
    T: TraversalModel,
    K: CostModel,
    C: ConstraintModel,
    L: LabelModel,
    M: MapModel,
>(
    si: &SearchInstance<T, K, C, L, M>,
    entry: Entry,
    prev_edge: Option<EdgeRef>,
    prev_state: Vec<StateVariable>,
    prev_cost: TraversalCost,
    next_state: Vec<StateVariable>,
    edge_cost: TraversalCost,
) -> bool {
    let taken = entry.1->incoming_edge;
    let edge = graph_edge(si.graph.ends(), edge_of(taken));
    &&& call_ensures(
        C::valid_frontier,
        (&si.constraint_model, &edge, prev_edge, &prev_state),
        true,
    )
    &&& traverse_answered(
        &si.traversal_model,
        edge,
        prev_state,
        Ok::<Vec<StateVariable>, ModelError>(next_state),
    )
    &&& cost_answered(
        &si.cost_model,
        edge,
        prev_state,
        next_state,
        Ok::<TraversalCost, ModelError>(edge_cost),
    )
    &&& call_ensures(
        L::label_from_state,
        (&si.label_model, entry.0.vertex(), &next_state),
        Ok::<Label, LabelModelError>(entry.0),
    )
    &&& taken.result_state == next_state@
    &&& taken.cost.objective_cost == prev_cost.objective_cost.saturating_sum(
        edge_cost.objective_cost,
    )
    &&& taken.cost.total_cost == prev_cost.total_cost.saturating_sum(edge_cost.total_cost)
}

/// Whether a branch was made of what the models may answer (see
/// [`edge_taken`]).
pub open spec fn follows_models<
    T: TraversalModel,
    K: CostModel,
    C: ConstraintModel,
    L: LabelModel,
    M: MapModel,
>(si: &SearchInstance<T, K, C, L, M>, entry: Entry) -> bool {
    entry.1 is Branch ==> exists|
        prev_edge: Option<EdgeRef>,
        prev_state: Vec<StateVariable>,
        prev_cost: TraversalCost,
        next_state: Vec<StateVariable>,
        edge_cost: TraversalCost,
    |
        #![trigger edge_taken(si, entry, prev_edge, prev_state, prev_cost, next_state, edge_cost)]
        edge_taken(si, entry, prev_edge, prev_state, prev_cost, next_state, edge_cost)
}

/// Whether every branch of the tree was made of what the models may
/// answer.
pub open spec fn tree_follows_models<
    T: TraversalModel,
    K: CostModel,
    C: ConstraintModel,
    L: LabelModel,
    M: MapModel,
>(si: &SearchInstance<T, K, C, L, M>, s: Entries) -> bool {
    forall|i: int| 0 <= i < s.len() ==> follows_models(si, #[trigger] s[i])
}

/// An entry that differs from a branch made of the models' answers by its
/// child count only was made of them too.
pub proof fn lemma_same_entry_models<
    T: TraversalModel,
    K: CostModel,
    C: ConstraintModel,
    L: LabelModel,
    M: MapModel,
>(si: &SearchInstance<T, K, C, L, M>, a: Entry, b: Entry)
    requires
        same_entry(a, b),
        follows_models(si, b),
    ensures
        follows_models(si, a),
{
    if a.1 is Branch {
        assert(b.1 is Branch);
        assert(a.1->incoming_edge == b.1->incoming_edge);
        let (prev_edge, prev_state, prev_cost, next_state, edge_cost) = choose|
            prev_edge: Option<EdgeRef>,
            prev_state: Vec<StateVariable>,
            prev_cost: TraversalCost,
            next_state: Vec<StateVariable>,
            edge_cost: TraversalCost,
        |
            #![trigger edge_taken(si, b, prev_edge, prev_state, prev_cost, next_state, edge_cost)]
            edge_taken(si, b, prev_edge, prev_state, prev_cost, next_state, edge_cost);
        assert(edge_taken(si, a, prev_edge, prev_state, prev_cost, next_state, edge_cost));
    }
}

/// What is drawn from a tree made of the models' answers is made of them.
pub proof fn lemma_drawn_models<
    T: TraversalModel,
    K: CostModel,
    C: ConstraintModel,
    L: LabelModel,
    M: MapModel,
>(si: &SearchInstance<T, K, C, L, M>, r: Entries, s: Entries)
    requires
        drawn_from(r, s),
        tree_follows_models(si, s),
    ensures
        tree_follows_models(si, r),
{
    assert forall|k: int| 0 <= k < r.len() implies follows_models(si, #[trigger] r[k]) by {
        assert(drawn(r[k], s));
        let j = choose|j: int| 0 <= j < s.len() && same_entry(r[k], #[trigger] s[j]);
        lemma_same_entry_models(si, r[k], s[j]);
    }
}

/// A tree that grew by a branch made of the models' answers is made of
/// them.
pub proof fn lemma_grown_models<
    T: TraversalModel,
    K: CostModel,
    C: ConstraintModel,
    L: LabelModel,
    M: MapModel,
>(si: &SearchInstance<T, K, C, L, M>, r: Entries, s: Entries, added: Entry)
    requires
        grown_from(r, s, added),
        tree_follows_models(si, s),
        follows_models(si, added),
    ensures
        tree_follows_models(si, r),
{
    assert forall|k: int| 0 <= k < r.len() implies follows_models(si, #[trigger] r[k]) by {
        if r[k] != added {
            assert(drawn(r[k], s));
            let j = choose|j: int| 0 <= j < s.len() && same_entry(r[k], #[trigger] s[j]);
            lemma_same_entry_models(si, r[k], s[j]);
        }
    }
}

/// Whether `labelled` is what the label model may answer when it is asked
/// for the label of the initial state at `source`.
pub open spec fn root_asked<
    T: TraversalModel,
    K: CostModel,
    C: ConstraintModel,
    L: LabelModel,
    M: MapModel,
>(
    si: &SearchInstance<T, K, C, L, M>,
    source: VertexId,
    labelled: Result<Label, LabelModelError>,
) -> bool {
    call_ensures(L::label_from_state, (&si.label_model, source, &si.initial_state), labelled)
}

/// Whether the search from `source` began as the label of its root asks:
/// without a label, or with a label at another vertex, the search fails
/// with `LabelFailure`; else the tree that it returns has that label at its
/// root.
pub open spec fn rooted_at(
    source: VertexId,
    labelled: Result<Label, LabelModelError>,
    r: Result<SearchResult, SearchError>,
) -> bool {
    match labelled {
        Ok(root) => if root.vertex() == source {
            r matches Ok(result) ==> result.tree.entries().len() > 0 && result.tree.entries()[0].0
                == root
        } else {
            r == Err::<SearchResult, SearchError>(SearchError::LabelFailure(source))
        },
        Err(_) => r == Err::<SearchResult, SearchError>(SearchError::LabelFailure(source)),
    }
}

/// The vertex at which a search stops: its target, if it is to terminate
/// there.
pub open spec fn stopping_at(target: Option<VertexId>, terminate_on_target: bool) -> Option<
    VertexId,
> {
    if terminate_on_target {
        target
    } else {
        None
    }
}

/// Whether `r` is the result of the search that begins with the answer
/// `labelled` of the label model: with a label at the source for its root,
/// it is the result of the search from that root (see [`searched`]).
pub open spec fn search_begun<
    T: TraversalModel,
    K: CostModel,
    C: ConstraintModel,
    L: LabelModel,
    M: MapModel,
>(
    si: &SearchInstance<T, K, C, L, M>,
    direction: Direction,
    source: VertexId,
    target: Option<VertexId>,
    terminate_on_target: bool,
    labelled: Result<Label, LabelModelError>,
    r: Result<SearchResult, SearchError>,
) -> bool {
    labelled is Ok && labelled->Ok_0.vertex() == source ==> searched(
        si,
        direction,
        source,
        target,
        stopping_at(target, terminate_on_target),
        labelled->Ok_0,
        r,
    )
}

/// Runs a vertex-oriented A* search from `source`.
///
/// Labels are expanded in the order of the frontier until the frontier
/// yields no more: because a label at the target was popped (if a target
/// is given and `terminate_on_target` is set) or because the frontier ran
/// empty. An edge that the constraint model does not admit is skipped at
/// no cost. A label that is reached again is replaced only if the new way
/// is cheaper and the label has no children yet. A search that would
/// expand more labels than the iteration limit allows fails with
/// `IterationLimitReached`.
///
/// A source or a target that is not a vertex of the graph is refused with
/// `VertexLookup`. Whatever the models answer: the tree that is returned is
/// a search tree of the given orientation, rooted at the source, in which
/// every branch was reached over an edge of the graph from the vertex of
/// its parent, and holds a state, costs and a label that the models gave
/// for that edge (see [`edge_taken`]); and if the search ended at a
/// target, the tree holds a label there, so that backtracking from the
/// target succeeds. Step by step, the search is what [`searched`] says:
/// the root waits alone, labels are expanded one after the other, and the
/// search ends as [`ended`] says. With a target to
/// terminate on, a frontier that runs empty gives
/// `NoPathExistsBetweenVertices`. `VertexLookup` is the failure of a source
/// or a target that the graph lacks and of nothing else, and `EdgeLookup`
/// does not occur; a model can fail on edges and at vertices of the graph
/// only.
#[verifier::rlimit(100)]
pub fn run_vertex_oriented<
    T: TraversalModel,
    K: CostModel,
    C: ConstraintModel,
    L: LabelModel,
    M: MapModel,
>(
    source: VertexId,
    target: Option<VertexId>,
    direction: &Direction,
    terminate_on_target: bool,
    si: &SearchInstance<T, K, C, L, M>,
) -> (r: Result<SearchResult, SearchError>)
    requires
        si.graph.wf(),
    ensures
        source.0 >= si.graph.vertices() ==> r == Err::<SearchResult, SearchError>(
            SearchError::VertexLookup(source),
        ),
        source.0 < si.graph.vertices() ==> match target {
            Some(t) => t.0 >= si.graph.vertices() ==> r == Err::<SearchResult, SearchError>(
                SearchError::VertexLookup(t),
            ),
            None => true,
        },
        match r {
            Ok(result) => {
                &&& result.tree.wf()
                &&& result.tree.orientation() == *direction
                &&& result.tree.entries().len() > 0
                &&& result.tree.entries()[0].0.vertex() == source
                &&& tree_follows_graph(result.tree.entries(), si.graph.ends(), *direction)
                &&& tree_follows_models(si, result.tree.entries())
                &&& result.iterations <= si.iteration_limit
                &&& terminate_on_target ==> match target {
                    Some(t) => labels_at(result.tree.entries(), t).len() > 0,
                    None => true,
                }
            },
            Err(e) => {
                &&& e matches SearchError::NoPathExistsBetweenVertices(s, t, _) ==> s == source
                    && terminate_on_target && target == Some(t)
                &&& e matches SearchError::VertexLookup(v) ==> v.0 >= si.graph.vertices() && (v
                    == source || (source.0 < si.graph.vertices() && target == Some(v)))
                &&& !(e is EdgeLookup)
                &&& e matches SearchError::IterationLimitReached(n) ==> n == si.iteration_limit
                &&& e matches SearchError::StateUpdate(l, id) ==> si.graph.has_edge((l, id))
                &&& e matches SearchError::CostComputation(l, id) ==> si.graph.has_edge((l, id))
                &&& e matches SearchError::LabelFailure(v) ==> v.0 < si.graph.vertices()
            },
        },
        source.0 < si.graph.vertices() && (target matches Some(t) ==> t.0 < si.graph.vertices())
            ==> exists|labelled: Result<Label, LabelModelError>|
            #![trigger root_asked(si, source, labelled)]
            root_asked(si, source, labelled) && rooted_at(source, labelled, r) && search_begun(
                si,
                *direction,
                source,
                target,
                terminate_on_target,
                labelled,
                r,
            ),
{
    if source.0 >= si.graph.vertex_count() {
        return Err(SearchError::VertexLookup(source));
    }
    match target {
        Some(t) => {
            if t.0 >= si.graph.vertex_count() {
                return Err(SearchError::VertexLookup(t));
            }
        },
        None => {},
    }
    let stop_at: Option<VertexId> = if terminate_on_target {
        target
    } else {
        None
    };
    let mut tree = SearchTree::new(*direction);
    let mut frontier = InternalPriorityQueue::new();
    let labelled = si.label_model.label_from_state(source, &si.initial_state);
    assert(root_asked(si, source, labelled));
    let root: Label = match labelled {
        Ok(label) => label,
        Err(_) => {
            return Err(SearchError::LabelFailure(source));
        },
    };
    if root.vertex_id().0 != source.0 {
        return Err(SearchError::LabelFailure(source));
    }
    match tree.set_root(root) {
        Ok(()) => {},
        Err(e) => {
            return Err(SearchError::SearchTreeFailure(e));
        },
    }
    let start_estimate: Cost = match target {
        Some(t) => si.traversal_model.estimate(source, t),
        None => Cost::zero(),
    };
    frontier.push(root, ReverseCost::new(start_estimate));
    proof {
        assert(tree.entries()[0].0.vertex() == source);
        assert(frontier.entries() =~= seq![(root, ReverseCost(start_estimate))]);
        assert(estimate_asked(si, source, target, start_estimate));
    }
    let ghost ends = si.graph.ends();
    let ghost t_init = root_alone(root, *direction);
    let ghost q_init = seq![(root, ReverseCost(start_estimate))];
    let mut iterations: usize = 0;
    loop
        invariant
            t_init == root_alone(root, *direction),
            q_init == seq![(root, ReverseCost(start_estimate))],
            estimate_asked(si, source, target, start_estimate),
            expanded_times(
                si,
                *direction,
                target,
                stop_at,
                iterations as nat,
                t_init,
                q_init,
                tree.entries(),
                frontier.entries(),
            ),
            si.graph.wf(),
            tree.wf(),
            frontier.wf(),
            tree.orientation() == *direction,
            ends == si.graph.ends(),
            source.0 < si.graph.vertices(),
            target matches Some(t) ==> t.0 < si.graph.vertices(),
            iterations <= si.iteration_limit,
            tree.entries().len() > 0,
            tree.entries()[0].0 == root,
            root.vertex() == source,
            root_asked(si, source, Ok::<Label, LabelModelError>(root)),
            tree_follows_graph(tree.entries(), ends, *direction),
            tree_follows_models(si, tree.entries()),
            covers(tree.entries(), source),
            frontier_covered(frontier.entries(), tree.entries()),
            stop_at == if terminate_on_target {
                target
            } else {
                None::<VertexId>
            },
        decreases si.iteration_limit - iterations,
    {
        proof {
            lemma_next_live_covered(
                frontier.entries(),
                stop_at,
                tree.entries(),
                tree.entries(),
            );
        }
        let ghost t_popped = tree.entries();
        let ghost q_popped = frontier.entries();
        let ghost done = iterations as nat;
        let instance: FrontierInstance = match FrontierInstance::pop_new(
            &mut frontier,
            source,
            stop_at,
            &tree,
            si.initial_state.as_slice(),
        ) {
            Err(e) => {
                let r = Err::<SearchResult, SearchError>(e);
                proof {
                    assert(ended(
                        si,
                        *direction,
                        source,
                        target,
                        stop_at,
                        done,
                        t_popped,
                        q_popped,
                        r,
                    ));
                    assert(search_run(
                        si,
                        *direction,
                        source,
                        target,
                        stop_at,
                        root,
                        start_estimate,
                        done,
                        t_popped,
                        q_popped,
                        r,
                    ));
                }
                return r;
            },
            Ok(None) => {
                proof {
                    match stop_at {
                        Some(t) => {
                            let k = choose|k: int|
                                0 <= k < tree.entries().len() && (
                                #[trigger] tree.entries()[k]).0.vertex() == t;
                            lemma_labels_at_member(tree.entries(), t, k);
                        },
                        None => {},
                    }
                }
                let r = Ok::<SearchResult, SearchError>(SearchResult { tree, iterations });
                proof {
                    assert(found(r, t_popped, *direction, done));
                    assert(ended(
                        si,
                        *direction,
                        source,
                        target,
                        stop_at,
                        done,
                        t_popped,
                        q_popped,
                        r,
                    ));
                    assert(search_run(
                        si,
                        *direction,
                        source,
                        target,
                        stop_at,
                        root,
                        start_estimate,
                        done,
                        t_popped,
                        q_popped,
                        r,
                    ));
                }
                return r;
            },
            Ok(Some(instance)) => instance,
        };
        let ghost rest = frontier.entries();
        if iterations >= si.iteration_limit {
            let r = Err::<SearchResult, SearchError>(
                SearchError::IterationLimitReached(si.iteration_limit),
            );
            proof {
                assert(ended(si, *direction, source, target, stop_at, done, t_popped, q_popped, r));
                assert(search_run(
                    si,
                    *direction,
                    source,
                    target,
                    stop_at,
                    root,
                    start_estimate,
                    done,
                    t_popped,
                    q_popped,
                    r,
                ));
            }
            return r;
        }
        iterations += 1;
        let prev_label: Label = instance.prev_label;
        let prev_vertex: VertexId = *prev_label.vertex_id();
        let prev_cost: TraversalCost = match tree.get(&prev_label) {
            Some(node) => match node.traversal_cost() {
                Some(cost) => *cost,
                None => TraversalCost { objective_cost: Cost::zero(), total_cost: Cost::zero() },
            },
            None => {
                return Err(
                    SearchError::SearchTreeFailure(
                        SearchTreeError::MissingNodeForLabel(prev_label),
                    ),
                );
            },
        };
        let edges: &Vec<EdgeRef> = si.graph.incident_edges(prev_vertex, *direction);
        proof {
            assert(taken_from(si, t_popped, prev_label, instance, prev_cost));
            assert(edges@ == edges_at(ends, si.graph.vertices(), prev_vertex, *direction));
        }
        let mut k: usize = 0;
        while k < edges.len()
            invariant
                k <= edges.len(),
                si.graph.wf(),
                tree.wf(),
                frontier.wf(),
                tree.orientation() == *direction,
                ends == si.graph.ends(),
                source.0 < si.graph.vertices(),
                target matches Some(t) ==> t.0 < si.graph.vertices(),
                iterations <= si.iteration_limit,
                tree.entries().len() > 0,
                tree.entries()[0].0 == root,
                root.vertex() == source,
                root_asked(si, source, Ok::<Label, LabelModelError>(root)),
                tree_follows_graph(tree.entries(), ends, *direction),
                tree_follows_models(si, tree.entries()),
                covers(tree.entries(), source),
                frontier_covered(frontier.entries(), tree.entries()),
                prev_vertex == prev_label.vertex(),
                forall|j: int|
                    0 <= j < edges@.len() ==> is_edge(ends, #[trigger] edges@[j]) && departure(
                        ends,
                        edges@[j],
                        *direction,
                    ) == prev_vertex.0,
                stop_at == stopping_at(target, terminate_on_target),
                t_init == root_alone(root, *direction),
                q_init == seq![(root, ReverseCost(start_estimate))],
                estimate_asked(si, source, target, start_estimate),
                expanded_times(si, *direction, target, stop_at, done, t_init, q_init, t_popped, q_popped),
                done < si.iteration_limit,
                iterations == done + 1,
                next_live(q_popped, stop_at, t_popped) == (rest, Some(prev_label)),
                stop_at != Some(prev_vertex),
                instance.prev_label == prev_label,
                taken_from(si, t_popped, prev_label, instance, prev_cost),
                prev_cost == cost_at(t_popped, prev_label),
                edges@ == edges_at(ends, si.graph.vertices(), prev_vertex, *direction),
                relaxed_upto(
                    si,
                    *direction,
                    target,
                    instance,
                    prev_cost,
                    edges@,
                    k as nat,
                    t_popped,
                    rest,
                    tree.entries(),
                    frontier.entries(),
                ),
            decreases edges.len() - k,
        {
            let edge_ref: EdgeRef = edges[k];
            let ghost t0 = tree.entries();
            let ghost q0 = frontier.entries();
            match relax_edge(
                si,
                direction,
                source,
                target,
                &instance,
                prev_cost,
                edge_ref,
                &mut tree,
                &mut frontier,
            ) {
                Ok(()) => {
                    proof {
                        lemma_relaxed_once(
                            si,
                            *direction,
                            target,
                            instance,
                            prev_cost,
                            edges@,
                            k as nat,
                            t_popped,
                            rest,
                            t0,
                            q0,
                            tree.entries(),
                            frontier.entries(),
                        );
                    }
                },
                Err(e) => {
                    proof {
                        lemma_search_fails(
                            si,
                            *direction,
                            source,
                            target,
                            stop_at,
                            root,
                            start_estimate,
                            done,
                            instance,
                            k as int,
                            t_popped,
                            q_popped,
                            t0,
                            q0,
                            t0,
                            q0,
                            e,
                        );
                    }
                    return Err(e);
                },
            }
            k += 1;
        }
        proof {
            assert(expanded(
                si,
                *direction,
                target,
                stop_at,
                instance,
                t_popped,
                q_popped,
                tree.entries(),
                frontier.entries(),
            ));
            lemma_expanded_once(
                si,
                *direction,
                target,
                stop_at,
                done,
                t_init,
                q_init,
                instance,
                t_popped,
                q_popped,
                tree.entries(),
                frontier.entries(),
            );
        }
    }
}

/// What a failure of relaxing an edge is, seen as what the relation of
/// the step takes: none for a step that was made.
pub open spec fn failure_of(r: Result<(), SearchError>) -> Option<SearchError> {
    match r {
        Ok(()) => None,
        Err(e) => Some(e),
    }
}

/// Relaxes one edge at the vertex of the label that is expanded.
///
/// The constraint model is asked whether the edge is admitted; an edge
/// that is not, or that comes back to the vertex that it leaves, is
/// skipped. Else the traversal model is asked for the state after the
/// edge, the cost model for its cost and the label model for the label of
/// that state. A label that the tree holds already, at no greater cost or
/// with children, is left out. Else the label gives way if the tree holds
/// it, the branch is inserted, which prunes what it dominates, and the
/// label is pushed with the priority of its cost and the estimate of what
/// is left to go. See [`edge_relaxed`].
#[verifier::rlimit(100)]
pub fn relax_edge<
    T: TraversalModel,
    K: CostModel,
    C: ConstraintModel,
    L: LabelModel,
    M: MapModel,
>(
    si: &SearchInstance<T, K, C, L, M>,
    direction: &Direction,
    source: VertexId,
    target: Option<VertexId>,
    instance: &FrontierInstance,
    prev_cost: TraversalCost,
    edge_ref: EdgeRef,
    tree: &mut SearchTree,
    frontier: &mut InternalPriorityQueue,
) -> (r: Result<(), SearchError>)
    requires
        si.graph.wf(),
        old(tree).wf(),
        old(frontier).wf(),
        old(tree).orientation() == *direction,
        old(tree).entries().len() > 0,
        tree_follows_graph(old(tree).entries(), si.graph.ends(), *direction),
        tree_follows_models(si, old(tree).entries()),
        covers(old(tree).entries(), source),
        frontier_covered(old(frontier).entries(), old(tree).entries()),
        is_edge(si.graph.ends(), edge_ref),
        departure(si.graph.ends(), edge_ref, *direction) == instance.prev_label.vertex().0,
    ensures
        final(tree).wf(),
        final(frontier).wf(),
        final(tree).orientation() == *direction,
        match r {
            Ok(()) => {
                &&& final(tree).entries().len() > 0
                &&& final(tree).entries()[0].0 == old(tree).entries()[0].0
                &&& tree_follows_graph(final(tree).entries(), si.graph.ends(), *direction)
                &&& tree_follows_models(si, final(tree).entries())
                &&& covers(final(tree).entries(), source)
                &&& frontier_covered(final(frontier).entries(), final(tree).entries())
                &&& edge_relaxed(
                    si,
                    *direction,
                    target,
                    *instance,
                    prev_cost,
                    edge_ref,
                    old(tree).entries(),
                    old(frontier).entries(),
                    final(tree).entries(),
                    final(frontier).entries(),
                    None::<SearchError>,
                )
            },
            Err(e) => {
                &&& edge_relaxed(
                    si,
                    *direction,
                    target,
                    *instance,
                    prev_cost,
                    edge_ref,
                    old(tree).entries(),
                    old(frontier).entries(),
                    old(tree).entries(),
                    old(frontier).entries(),
                    Some(e),
                )
                &&& match e {
                    SearchError::StateUpdate(l, id) => (l, id) == edge_ref,
                    SearchError::CostComputation(l, id) => (l, id) == edge_ref,
                    SearchError::LabelFailure(v) => v.0 < si.graph.vertices(),
                    SearchError::SearchTreeFailure(_) => true,
                    _ => false,
                }
            },
        },
{
    let ghost ends = si.graph.ends();
    let ghost t0 = tree.entries();
    let ghost q0 = frontier.entries();
    let prev_label: Label = instance.prev_label;
    let prev_vertex: VertexId = *prev_label.vertex_id();
    let edge: Edge = match si.graph.get_edge(&edge_ref.0, &edge_ref.1) {
        Ok(edge) => edge,
        Err(_) => {
            return Err(SearchError::EdgeLookup(edge_ref.0, edge_ref.1));
        },
    };
    assert(edge == graph_edge(ends, edge_ref));
    let admitted: bool = si.constraint_model.valid_frontier(
        &edge,
        instance.prev_edge,
        &instance.prev_state,
    );
    assert(admit_asked(si, *instance, edge_ref, admitted));
    if !admitted {
        proof {
            lemma_edge_skipped(
                si,
                *direction,
                target,
                *instance,
                prev_cost,
                edge_ref,
                admitted,
                t0,
                q0,
            );
        }
        return Ok(());
    }
    let next_vertex: VertexId = arrival(&edge, direction);
    assert(next_vertex == arrival_at(ends, edge_ref, *direction));
    if next_vertex.0 == prev_vertex.0 {
        proof {
            lemma_edge_skipped(
                si,
                *direction,
                target,
                *instance,
                prev_cost,
                edge_ref,
                admitted,
                t0,
                q0,
            );
        }
        return Ok(());
    }
    let traversed = si.traversal_model.traverse_edge(&edge, &instance.prev_state);
    assert(traverse_answered(&si.traversal_model, edge, instance.prev_state, traversed));
    let next_state: Vec<StateVariable> = match traversed {
        Ok(state) => state,
        Err(_) => {
            let e = SearchError::StateUpdate(edge_ref.0, edge_ref.1);
            proof {
                let failure = Some(e);
                assert(traversed_then(
                    si,
                    *direction,
                    target,
                    *instance,
                    prev_cost,
                    edge_ref,
                    traversed,
                    t0,
                    q0,
                    t0,
                    q0,
                    failure,
                ));
                lemma_edge_traversed(
                    si,
                    *direction,
                    target,
                    *instance,
                    prev_cost,
                    edge_ref,
                    traversed,
                    t0,
                    q0,
                    t0,
                    q0,
                    failure,
                );
            }
            return Err(e);
        },
    };
    let priced = si.cost_model.traversal_cost(&edge, &instance.prev_state, &next_state);
    assert(cost_answered(&si.cost_model, edge, instance.prev_state, next_state, priced));
    let edge_cost: TraversalCost = match priced {
        Ok(cost) => cost,
        Err(_) => {
            let e = SearchError::CostComputation(edge_ref.0, edge_ref.1);
            proof {
                let failure = Some(e);
                assert(priced_then(
                    si,
                    *direction,
                    target,
                    *instance,
                    prev_cost,
                    edge_ref,
                    next_state,
                    priced,
                    t0,
                    q0,
                    t0,
                    q0,
                    failure,
                ));
                lemma_edge_priced(
                    si,
                    *direction,
                    target,
                    *instance,
                    prev_cost,
                    edge_ref,
                    next_state,
                    priced,
                    t0,
                    q0,
                    t0,
                    q0,
                    failure,
                );
            }
            return Err(e);
        },
    };
    let labelled = si.label_model.label_from_state(next_vertex, &next_state);
    let ghost label_answer = labelled;
    assert(label_asked(si, next_vertex, next_state, label_answer));
    let next_label: Label = match labelled {
        Ok(label) => label,
        Err(_) => {
            let e = SearchError::LabelFailure(next_vertex);
            proof {
                let failure = Some(e);
                assert(labelled_then(
                    si,
                    *direction,
                    target,
                    *instance,
                    prev_cost,
                    edge_ref,
                    next_state,
                    edge_cost,
                    label_answer,
                    t0,
                    q0,
                    t0,
                    q0,
                    failure,
                ));
                lemma_edge_labelled(
                    si,
                    *direction,
                    target,
                    *instance,
                    prev_cost,
                    edge_ref,
                    next_state,
                    edge_cost,
                    label_answer,
                    t0,
                    q0,
                    t0,
                    q0,
                    failure,
                );
            }
            return Err(e);
        },
    };
    let ghost state_given = next_state;
    if next_label.vertex_id().0 != next_vertex.0 {
        let e = SearchError::LabelFailure(next_vertex);
        proof {
            let failure = Some(e);
            assert(labelled_then(
                si,
                *direction,
                target,
                *instance,
                prev_cost,
                edge_ref,
                next_state,
                edge_cost,
                label_answer,
                t0,
                q0,
                t0,
                q0,
                failure,
            ));
            lemma_edge_labelled(
                si,
                *direction,
                target,
                *instance,
                prev_cost,
                edge_ref,
                next_state,
                edge_cost,
                label_answer,
                t0,
                q0,
                t0,
                q0,
                failure,
            );
        }
        return Err(e);
    }
    let reached: Cost = prev_cost.objective_cost.saturating_add(edge_cost.objective_cost);
    let reached_total: Cost = prev_cost.total_cost.saturating_add(edge_cost.total_cost);
    let known: Option<(Cost, bool)> = match tree.get(&next_label) {
        Some(node) => {
            let cost: Cost = match node.traversal_cost() {
                Some(cost) => cost.objective_cost,
                None => Cost::zero(),
            };
            Some((cost, node.is_prunable()))
        },
        None => None,
    };
    let ghost taken = taken_over(edge_ref, state_given@, prev_cost, edge_cost);
    assert(taken.cost.objective_cost == reached);
    match known {
        Some((cost, prunable)) => {
            if reached.0 >= cost.0 || !prunable {
                proof {
                    let failure = None::<SearchError>;
                    assert(left_out(t0, next_label, reached));
                    assert(settled(
                        si,
                        *direction,
                        target,
                        *instance,
                        prev_cost,
                        edge_ref,
                        state_given@,
                        edge_cost,
                        next_label,
                        t0,
                        q0,
                        t0,
                        q0,
                        failure,
                    ));
                    lemma_edge_settled(
                        si,
                        *direction,
                        target,
                        *instance,
                        prev_cost,
                        edge_ref,
                        state_given,
                        edge_cost,
                        next_label,
                        t0,
                        q0,
                        t0,
                        q0,
                        failure,
                    );
                }
                return Ok(());
            }
            tree.remove(&next_label);
        },
        None => {},
    }
    assert(!left_out(t0, next_label, reached));
    assert(tree.entries() == remove_spec(t0, next_label));
    let traversal = EdgeTraversal {
        edge_list_id: edge.edge_list_id,
        edge_id: edge.edge_id,
        cost: TraversalCost { objective_cost: reached, total_cost: reached_total },
        result_state: next_state,
    };
    let ghost middle = tree.entries();
    let ghost added = (next_label, new_branch(traversal@, prev_label, *direction));
    assert(traversal@ == taken);
    match tree.insert(prev_label, traversal, next_label, &si.label_model) {
        Ok(()) => {},
        Err(cause) => {
            let e = SearchError::SearchTreeFailure(cause);
            proof {
                let failure = Some(e);
                assert(insert_outcome(&si.label_model, middle, prev_label, taken, next_label, *direction)
                    == Err::<Entries, SearchTreeError>(cause));
                assert(settled(
                    si,
                    *direction,
                    target,
                    *instance,
                    prev_cost,
                    edge_ref,
                    state_given@,
                    edge_cost,
                    next_label,
                    t0,
                    q0,
                    t0,
                    q0,
                    failure,
                ));
                lemma_edge_settled(
                    si,
                    *direction,
                    target,
                    *instance,
                    prev_cost,
                    edge_ref,
                    state_given,
                    edge_cost,
                    next_label,
                    t0,
                    q0,
                    t0,
                    q0,
                    failure,
                );
            }
            return Err(e);
        },
    }
    let ghost grown = tree.entries();
    assert(insert_outcome(&si.label_model, middle, prev_label, taken, next_label, *direction)
        == Ok::<Entries, SearchTreeError>(grown));
    proof {
        lemma_drawn_follows(middle, t0, ends, *direction);
        assert(edge_of(added.1->incoming_edge) == edge_ref);
        assert(follows_graph(added, ends, *direction));
        lemma_grown_follows(tree.entries(), middle, added, ends, *direction);
        lemma_drawn_models(si, middle, t0);
        assert(label_answer == Ok::<Label, LabelModelError>(next_label));
        assert(edge_taken(
            si,
            added,
            instance.prev_edge,
            instance.prev_state,
            prev_cost,
            state_given,
            edge_cost,
        ));
        lemma_grown_models(si, tree.entries(), middle, added);
        assert forall|v: VertexId| covers(t0, v) implies covers(tree.entries(), v) by {
            if v != next_label.vertex() {
                assert(covers(middle, v));
            }
        }
        lemma_cover_carries(frontier.entries(), t0, tree.entries());
    }
    let estimate: Cost = match target {
        Some(t) => si.traversal_model.estimate(next_vertex, t),
        None => Cost::zero(),
    };
    proof {
        lemma_push_covered(
            frontier.entries(),
            next_label,
            ReverseCost(reached.saturating_sum(estimate)),
            tree.entries(),
        );
    }
    frontier.push(next_label, ReverseCost::new(reached.saturating_add(estimate)));
    proof {
        let failure = None::<SearchError>;
        assert(estimate_asked(si, next_label.vertex(), target, estimate));
        lemma_settled_grown(
            si,
            *direction,
            target,
            *instance,
            prev_cost,
            edge_ref,
            state_given@,
            edge_cost,
            next_label,
            estimate,
            t0,
            q0,
            tree.entries(),
            frontier.entries(),
        );
        lemma_edge_settled(
            si,
            *direction,
            target,
            *instance,
            prev_cost,
            edge_ref,
            state_given,
            edge_cost,
            next_label,
            t0,
            q0,
            tree.entries(),
            frontier.entries(),
            failure,
        );
    }
    Ok(())
}

/// The end of `edge` at which a search in `direction` that starts on the
/// edge sets out: where the edge arrives.
pub open spec fn far_end(ends: Ends, edge: EdgeRef, direction: Direction) -> usize {
    arrival_of(ends, edge, direction)
}

/// The end of `edge` at which a search in `direction` that is to end on the
/// edge stops: where the edge is entered.
pub open spec fn near_end(ends: Ends, edge: EdgeRef, direction: Direction) -> usize {
    departure(ends, edge, direction)
}

/// The vertex at which a search that is to end with the edge `target`
/// stops, if there is such an edge.
pub open spec fn between(ends: Ends, target: Option<EdgeRef>, direction: Direction) -> Option<
    VertexId,
> {
    match target {
        Some(t) => Some(VertexId(near_end(ends, t, direction))),
        None => None,
    }
}

/// Runs an edge-oriented A* search: from the edge `source` to the edge
/// `target`, if one is given.
///
/// The search is the vertex-oriented search from the vertex at which the
/// source edge arrives to the vertex at which the target edge is entered
/// (see [`run_vertex_oriented`]); what it returns does not hold the two
/// edges themselves. A source or a target that is not an edge of the graph
/// is refused with `EdgeLookup`, which is the failure of nothing else.
pub fn run_edge_oriented<
    T: TraversalModel,
    K: CostModel,
    C: ConstraintModel,
    L: LabelModel,
    M: MapModel,
>(
    source: EdgeRef,
    target: Option<EdgeRef>,
    direction: &Direction,
    terminate_on_target: bool,
    si: &SearchInstance<T, K, C, L, M>,
) -> (r: Result<SearchResult, SearchError>)
    requires
        si.graph.wf(),
    ensures
        !si.graph.has_edge(source) ==> r == Err::<SearchResult, SearchError>(
            SearchError::EdgeLookup(source.0, source.1),
        ),
        si.graph.has_edge(source) ==> match target {
            Some(t) => !si.graph.has_edge(t) ==> r == Err::<SearchResult, SearchError>(
                SearchError::EdgeLookup(t.0, t.1),
            ),
            None => true,
        },
        match r {
            Ok(result) => {
                &&& si.graph.has_edge(source)
                &&& result.tree.wf()
                &&& result.tree.orientation() == *direction
                &&& result.tree.entries().len() > 0
                &&& result.tree.entries()[0].0.vertex().0 == far_end(
                    si.graph.ends(),
                    source,
                    *direction,
                )
                &&& tree_follows_graph(result.tree.entries(), si.graph.ends(), *direction)
                &&& terminate_on_target ==> match target {
                    Some(t) => labels_at(
                        result.tree.entries(),
                        VertexId(near_end(si.graph.ends(), t, *direction)),
                    ).len() > 0,
                    None => true,
                }
            },
            Err(e) => {
                &&& e matches SearchError::EdgeLookup(l, id) ==> (!si.graph.has_edge(source)
                    && source == (l, id)) || (si.graph.has_edge(source) && target == Some((l, id))
                    && !si.graph.has_edge((l, id)))
                &&& !(e is VertexLookup)
            },
        },
        si.graph.has_edge(source) && (target matches Some(t) ==> si.graph.has_edge(t))
            ==> call_ensures(
            run_vertex_oriented::<T, K, C, L, M>,
            (
                VertexId(far_end(si.graph.ends(), source, *direction)),
                between(si.graph.ends(), target, *direction),
                direction,
                terminate_on_target,
                si,
            ),
            r,
        ),
{
    let first: Edge = match si.graph.get_edge(&source.0, &source.1) {
        Ok(edge) => edge,
        Err(_) => {
            return Err(SearchError::EdgeLookup(source.0, source.1));
        },
    };
    let from: VertexId = arrival(&first, direction);
    let to: Option<VertexId> = match target {
        Some(t) => {
            let last: Edge = match si.graph.get_edge(&t.0, &t.1) {
                Ok(edge) => edge,
                Err(_) => {
                    return Err(SearchError::EdgeLookup(t.0, t.1));
                },
            };
            Some(
                match direction {
                    Direction::Forward => last.src_vertex_id,
                    Direction::Reverse => last.dst_vertex_id,
                },
            )
        },
        None => None,
    };
    run_vertex_oriented(from, to, direction, terminate_on_target, si)
}

} // verus!
