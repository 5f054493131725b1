//! The step from the frontier to the next label to expand.

use vstd::prelude::*;
use vstd::slice::slice_to_vec;
use crate::label::Label;
use crate::network::{EdgeId, EdgeListId, VertexId};
use crate::search::priority_queue::{lemma_top_index, top_index, InternalPriorityQueue, Ranked};
use crate::search::search_error::SearchError;
use crate::search::search_tree::SearchTree;
use crate::search::search_tree_node::SearchTreeNodeView;
use crate::search::tree_model::{has_label, index_of, Entries};
use crate::state::StateVariable;

verus! {

/// What the search expands next: a label, the edge that led to it (none at
/// the root) and the state there.
#[derive(Debug)]
pub struct FrontierInstance {
    pub prev_label: Label,
    pub prev_edge: Option<(EdgeListId, EdgeId)>,
    pub prev_state: Vec<StateVariable>,
}

/// A label was pruned if a tree that is not empty does not hold it.
pub open spec fn is_pruned(tree: Entries, label: Label) -> bool {
    !has_label(tree, label) && tree.len() > 0
}

/// Pops from `queue` until an entry is popped that stands at the target or
/// was not pruned: the queue that is left, and the label of that entry, if
/// the queue did not run empty first.
pub open spec fn next_live(queue: Seq<Ranked>, target: Option<VertexId>, tree: Entries) -> (
    Seq<Ranked>,
    Option<Label>,
)
    decreases queue.len(),
{
    if queue.len() == 0 {
        (queue, None)
    } else {
        let i = top_index(queue);
        let label = queue[i].0;
        let rest = queue.remove(i);
        if target != Some(label.vertex()) && is_pruned(tree, label) && rest.len() < queue.len() {
            next_live(rest, target, tree)
        } else {
            (rest, Some(label))
        }
    }
}

/// The edge that led to `label` in the tree; none at the root, and none for
/// a label that the tree does not hold.
pub open spec fn edge_into(tree: Entries, label: Label) -> Option<(EdgeListId, EdgeId)> {
    if has_label(tree, label) {
        match tree[index_of(tree, label)].1 {
            SearchTreeNodeView::Branch { incoming_edge, .. } => Some(
                (incoming_edge.edge_list_id, incoming_edge.edge_id),
            ),
            SearchTreeNodeView::Root { .. } => None,
        }
    } else {
        None
    }
}

/// The state at `label`: what the traversal into it resulted in; the
/// initial state at the root, and for a label that the tree does not hold.
pub open spec fn state_at(tree: Entries, label: Label, initial: Seq<StateVariable>) -> Seq<
    StateVariable,
> {
    if has_label(tree, label) {
        match tree[index_of(tree, label)].1 {
            SearchTreeNodeView::Branch { incoming_edge, .. } => incoming_edge.result_state,
            SearchTreeNodeView::Root { .. } => initial,
        }
    } else {
        initial
    }
}

impl FrontierInstance {
    /// Pops the next label to expand from the frontier.
    ///
    /// Entries are popped by priority. One whose label stands at the target
    /// ends the search: `Ok(None)`. One whose label the tree does not hold,
    /// while the tree is not empty, was pruned while it waited: it is
    /// skipped. Any other is returned, with the edge and state that the tree
    /// records for it, or no edge and the initial state at the root. A
    /// frontier that runs empty gives `Ok(None)` without a target, and
    /// `NoPathExistsBetweenVertices` with one.
    ///
    /// A pruned label is never returned.
    pub fn pop_new(
        frontier: &mut InternalPriorityQueue,
        source: VertexId,
        target: Option<VertexId>,
        solution: &SearchTree,
        initial_state: &[StateVariable],
    ) -> (r: Result<Option<FrontierInstance>, SearchError>)
        requires
            old(frontier).wf(),
            solution.wf(),
        ensures
            final(frontier).wf(),
            final(frontier).entries() == next_live(
                old(frontier).entries(),
                target,
                solution.entries(),
            ).0,
            match next_live(old(frontier).entries(), target, solution.entries()).1 {
                None => match target {
                    Some(t) => r == Err::<Option<FrontierInstance>, SearchError>(
                        SearchError::NoPathExistsBetweenVertices(
                            source,
                            t,
                            solution.entries().len() as usize,
                        ),
                    ),
                    None => r == Ok::<Option<FrontierInstance>, SearchError>(None),
                },
                Some(label) => if target == Some(label.vertex()) {
                    r == Ok::<Option<FrontierInstance>, SearchError>(None)
                } else {
                    r matches Ok(Some(instance)) && instance.prev_label == label
                        && instance.prev_edge == edge_into(solution.entries(), label)
                        && instance.prev_state@ == state_at(
                        solution.entries(),
                        label,
                        initial_state@,
                    )
                },
            },
            r matches Ok(Some(instance)) ==> !is_pruned(solution.entries(), instance.prev_label),
    {
        let ghost start = frontier.entries();
        let ghost tree = solution.entries();
        loop
            invariant
                frontier.wf(),
                solution.wf(),
                tree == solution.entries(),
                start == old(frontier).entries(),
                next_live(frontier.entries(), target, tree) == next_live(start, target, tree),
            decreases frontier.entries().len(),
        {
            let ghost queue = frontier.entries();
            proof {
                if queue.len() > 0 {
                    lemma_top_index(queue);
                }
            }
            match (frontier.pop(), target) {
                (None, Some(target_vertex_id)) => {
                    return Err(
                        SearchError::NoPathExistsBetweenVertices(
                            source,
                            target_vertex_id,
                            solution.len(),
                        ),
                    );
                },
                (None, None) => {
                    return Ok(None);
                },
                (Some((prev_label, _)), target) => {
                    let reached: bool = match target {
                        Some(target_v) => prev_label.vertex_id().0 == target_v.0,
                        None => false,
                    };
                    if reached {
                        return Ok(None);
                    }
                    let node_opt = solution.get(&prev_label);
                    if node_opt.is_none() && !solution.is_empty() {
                        continue ;
                    }
                    let prev_edge_traversal_opt = match node_opt {
                        Some(node) => node.incoming_edge(),
                        None => None,
                    };
                    let prev_edge = match prev_edge_traversal_opt {
                        Some(et) => Some((et.edge_list_id, et.edge_id)),
                        None => None,
                    };
                    let prev_state = match prev_edge_traversal_opt {
                        None => slice_to_vec(initial_state),
                        Some(et) => et.result_state.clone(),
                    };
                    let result = FrontierInstance { prev_label, prev_edge, prev_state };
                    return Ok(Some(result));
                },
            }
        }
    }
}

} // verus!
