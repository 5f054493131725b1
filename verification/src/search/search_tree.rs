//! The search tree: labelled nodes with parent links and child counts.

use vstd::prelude::*;
use crate::cost::Cost;
use crate::label::{Label, LabelModel, LabelModelError};
use crate::network::VertexId;
use crate::search::direction::Direction;
use crate::search::edge_traversal::{EdgeTraversal, EdgeTraversalView};
use crate::search::search_pruning::{
    lemma_prune_drawn, lemma_prune_keeps_cover, prune_outcome, prune_tree,
};
use crate::search::search_tree_node::{SearchTreeNode, SearchTreeNodeView};
use crate::search::tree_model::{
    child_indicator, count_exact, covers, drawn_from, grown_from, has_label, index_of, insert_spec,
    labels_at, lemma_index_of, lemma_insert_covers, lemma_insert_grown, lemma_insert_preserves_wf,
    lemma_parent_position, lemma_remove_drawn, lemma_remove_keeps_cover, lemma_remove_preserves_wf,
    lemma_sum_positive, lemma_sum_push, lemma_unlink_counts, recorded_children, recount,
    remove_spec, same_root, sum_by, total_children, tree_wf, Entries, Entry,
};

verus! {

/// Why an operation on a search tree failed.
#[derive(Debug)]
pub enum SearchTreeError {
    /// A root was to be set on a tree that has one.
    RootAlreadyExists,
    /// A branch was to be inserted under a label that the tree does not hold.
    MissingParent(Label),
    /// A branch was to be inserted under a label that the tree holds already.
    LabelAlreadyExists(Label),
    /// The tree holds no node for the label.
    MissingNodeForLabel(Label),
    /// The tree holds no label at the vertex.
    NoPathTo(VertexId),
    /// The label model could not compare two labels during pruning.
    PruningError(LabelModelError),
}

/// A search tree, keyed by label. Nodes refer to their parents by label.
pub struct SearchTree {
    nodes: Vec<(Label, SearchTreeNode)>,
    direction: Direction,
}

/// The views of a sequence of traversals.
pub open spec fn traversal_views(v: Seq<EdgeTraversal>) -> Seq<EdgeTraversalView> {
    v.map_values(|e: EdgeTraversal| e@)
}

/// Whether the entry at `i` stands at `vertex` and no entry at `vertex` is
/// cheaper, nor as cheap and older.
pub open spec fn cheapest_at(s: Entries, vertex: VertexId, i: int) -> bool {
    &&& 0 <= i < s.len()
    &&& s[i].0.vertex() == vertex
    &&& forall|k: int|
        0 <= k < s.len() && (#[trigger] s[k]).0.vertex() == vertex ==> {
            ||| s[i].1.objective_cost().0 < s[k].1.objective_cost().0
            ||| s[i].1.objective_cost().0 == s[k].1.objective_cost().0 && i <= k
        }
}

/// The traversals on the way from the entry at `i` up to the root, the one
/// that led to `i` first.
pub open spec fn walk_up(s: Entries, i: int) -> Seq<EdgeTraversalView>
    decreases i,
{
    if 0 < i < s.len() {
        match s[i].1 {
            SearchTreeNodeView::Branch { incoming_edge, parent, .. } => {
                let j = index_of(s, parent);
                if 0 <= j < i {
                    seq![incoming_edge] + walk_up(s, j)
                } else {
                    seq![incoming_edge]
                }
            },
            SearchTreeNodeView::Root { .. } => Seq::empty(),
        }
    } else {
        Seq::empty()
    }
}

/// The route that a tree of orientation `direction` gives for the entry at
/// `i`, in the order of travel: a forward tree is rooted at the origin, so
/// the walk towards the root is reversed; a reverse tree is rooted at the
/// destination, so the walk is the route.
pub open spec fn route_of(s: Entries, direction: Direction, i: int) -> Seq<EdgeTraversalView> {
    match direction {
        Direction::Forward => walk_up(s, i).reverse(),
        Direction::Reverse => walk_up(s, i),
    }
}

/// An entry that stands at `vertex` puts its label among the labels there.
pub proof fn lemma_labels_at_member(s: Entries, vertex: VertexId, k: int)
    requires
        0 <= k < s.len(),
        s[k].0.vertex() == vertex,
    ensures
        labels_at(s, vertex).len() > 0,
        labels_at(s, vertex).contains(s[k].0),
    decreases s.len(),
{
    if k == s.len() - 1 {
        let t = labels_at(s.drop_last(), vertex);
        assert(t.push(s.last().0)[t.len() as int] == s[k].0);
    } else {
        lemma_labels_at_member(s.drop_last(), vertex, k);
        let t = labels_at(s.drop_last(), vertex);
        let m = choose|m: int| 0 <= m < t.len() && t[m] == s[k].0;
        if s.last().0.vertex() == vertex {
            assert(t.push(s.last().0)[m] == s[k].0);
        }
    }
}

/// In a search tree, the parent of every branch is a node of the tree and
/// records at least one child, and the child counts of all nodes add up to
/// the number of branches, that is to one less than the number of nodes.
/// The first node is the root, and it is the only one.
pub proof fn lemma_tree_integrity(tree: SearchTree, i: int)
    requires
        tree.wf(),
        0 <= i < tree.entries().len(),
    ensures
        total_children(tree.entries()) == tree.entries().len() - 1,
        tree.entries()[i].1 matches SearchTreeNodeView::Branch { parent, .. } ==> tree.contains(
            parent,
        ) && tree.node(parent).children() >= 1,
        (tree.entries()[i].1 is Root) <==> i == 0,
{
    let s = tree.entries();
    if i > 0 {
        lemma_parent_position(s, i);
        let j = index_of(s, s[i].1->parent);
        assert(count_exact(s, j));
        lemma_sum_positive(s, child_indicator(s[j].0), i);
    }
}

/// In every search tree the child counts of all nodes add up to the number
/// of branches: to one less than the number of nodes where there is a node,
/// and to nothing in a tree without nodes, such as is left when the root is
/// removed.
pub proof fn lemma_children_add_up(tree: SearchTree)
    requires
        tree.wf(),
    ensures
        total_children(tree.entries()) == if tree.entries().len() == 0 {
            0
        } else {
            tree.entries().len() - 1
        },
{
    let s = tree.entries();
    if s.len() == 0 {
        assert(sum_by(s, recorded_children()) == 0);
    }
}

/// The label that backtracking starts from is the cheapest that the tree
/// holds at the target: the route that is returned has an objective cost no
/// greater than that of any other way to the target that the tree records.
pub proof fn lemma_backtrack_is_cheapest(s: Entries, target: VertexId, i: int, k: int)
    requires
        cheapest_at(s, target, i),
        0 <= k < s.len(),
        s[k].0.vertex() == target,
    ensures
        s[i].1.objective_cost().0 <= s[k].1.objective_cost().0,
{
}

/// The traversals in the opposite order.
fn reversed(walk: Vec<EdgeTraversal>) -> (route: Vec<EdgeTraversal>)
    ensures
        traversal_views(route@) == traversal_views(walk@).reverse(),
{
    let ghost given = traversal_views(walk@);
    let mut rest = walk;
    let mut route: Vec<EdgeTraversal> = Vec::new();
    while rest.len() > 0
        invariant
            rest.len() + route.len() == given.len(),
            forall|k: int| 0 <= k < rest.len() ==> (#[trigger] rest[k])@ == given[k],
            forall|k: int|
                0 <= k < route.len() ==> (#[trigger] route[k])@ == given[given.len() - 1 - k],
        decreases rest.len(),
    {
        let e = rest.pop();
        match e {
            Some(e) => {
                route.push(e);
            },
            None => {},
        }
    }
    assert(traversal_views(route@) =~= given.reverse());
    route
}

/// A branch without children.
pub open spec fn new_branch(
    edge: EdgeTraversalView,
    parent: Label,
    direction: Direction,
) -> SearchTreeNodeView {
    SearchTreeNodeView::Branch { incoming_edge: edge, parent, direction, child_count: 0 }
}

impl SearchTree {
    /// The labelled nodes, oldest first.
    pub closed spec fn entries(&self) -> Entries {
        self.nodes@.map_values(|e: (Label, SearchTreeNode)| (e.0, e.1@))
    }

    /// The orientation that the tree was made with.
    pub closed spec fn orientation(&self) -> Direction {
        self.direction
    }

    /// The invariant of the tree: one root, no dangling parent, exact child
    /// counts.
    pub open spec fn wf(&self) -> bool {
        tree_wf(self.entries(), self.orientation())
    }

    /// Whether the tree holds a node for `label`.
    pub open spec fn contains(&self, label: Label) -> bool {
        has_label(self.entries(), label)
    }

    /// The node that the tree holds for `label`.
    pub open spec fn node(&self, label: Label) -> SearchTreeNodeView {
        self.entries()[index_of(self.entries(), label)].1
    }

    /// An empty tree of the given orientation.
    pub fn new(direction: Direction) -> (tree: SearchTree)
        ensures
            tree.entries() == Seq::<Entry>::empty(),
            tree.orientation() == direction,
            tree.wf(),
    {
        let tree = SearchTree { nodes: Vec::new(), direction };
        assert(tree.entries() =~= Seq::<Entry>::empty());
        tree
    }

    /// The number of nodes.
    pub fn len(&self) -> (n: usize)
        ensures
            n == self.entries().len(),
    {
        self.nodes.len()
    }

    /// Whether the tree has no node, not even a root.
    pub fn is_empty(&self) -> (b: bool)
        ensures
            b == (self.entries().len() == 0),
    {
        self.nodes.len() == 0
    }

    /// The position of `label` among the nodes.
    fn find(&self, label: &Label) -> (r: Option<usize>)
        ensures
            match r {
                Some(i) => i < self.entries().len() && self.entries()[i as int].0 == *label,
                None => !has_label(self.entries(), *label),
            },
    {
        let mut i: usize = 0;
        while i < self.nodes.len()
            invariant
                i <= self.nodes.len(),
                forall|k: int| 0 <= k < i ==> (#[trigger] self.entries()[k]).0 != *label,
            decreases self.nodes.len() - i,
        {
            if self.nodes[i].0 == *label {
                return Some(i);
            }
            i += 1;
        }
        None
    }

    /// Makes `label` the root of an empty tree. A tree that has a root keeps
    /// it, and the call fails.
    pub fn set_root(&mut self, label: Label) -> (r: Result<(), SearchTreeError>)
        requires
            old(self).wf(),
        ensures
            final(self).wf(),
            final(self).orientation() == old(self).orientation(),
            old(self).entries().len() == 0 ==> r is Ok && final(self).entries() == seq![
                (
                    label,
                    SearchTreeNodeView::Root {
                        direction: old(self).orientation(),
                        child_count: 0,
                    },
                ),
            ],
            old(self).entries().len() > 0 ==> r == Err::<(), SearchTreeError>(
                SearchTreeError::RootAlreadyExists,
            ) && final(self).entries() == old(self).entries(),
    {
        if self.nodes.len() > 0 {
            return Err(SearchTreeError::RootAlreadyExists);
        }
        let node = SearchTreeNode::new_root(self.direction);
        self.nodes.push((label, node));
        proof {
            let s = self.entries();
            assert(s =~= seq![(label, node@)]);
            lemma_sum_push(Seq::<Entry>::empty(), child_indicator(label), (label, node@));
            lemma_sum_push(Seq::<Entry>::empty(), recorded_children(), (label, node@));
            assert(s =~= Seq::<Entry>::empty().push((label, node@)));
            assert(count_exact(s, 0));
        }
        Ok(())
    }

    /// The node for `label`, if the tree holds one.
    pub fn get(&self, label: &Label) -> (r: Option<&SearchTreeNode>)
        requires
            self.wf(),
        ensures
            r is Some <==> self.contains(*label),
            r is Some ==> r->0@ == self.node(*label),
    {
        match self.find(label) {
            Some(i) => {
                proof {
                    lemma_index_of(self.entries(), i as int);
                }
                Some(&self.nodes[i].1)
            },
            None => None,
        }
    }

    /// The labels that the tree holds at `vertex_id`, oldest first: exactly
    /// the keys of the tree that stand at that vertex.
    pub fn get_labels(&self, vertex_id: VertexId) -> (labels: Vec<Label>)
        ensures
            labels@ == labels_at(self.entries(), vertex_id),
    {
        let mut labels: Vec<Label> = Vec::new();
        let mut i: usize = 0;
        while i < self.nodes.len()
            invariant
                i <= self.nodes.len(),
                labels@ == labels_at(self.entries().take(i as int), vertex_id),
            decreases self.nodes.len() - i,
        {
            proof {
                let s = self.entries();
                assert(s.take(i + 1).drop_last() =~= s.take(i as int));
                assert(s.take(i + 1).last() == s[i as int]);
            }
            let label = self.nodes[i].0;
            if label.vertex_id().0 == vertex_id.0 {
                labels.push(label);
            }
            i += 1;
        }
        assert(self.entries().take(i as int) =~= self.entries());
        labels
    }

    /// Removes the node for `label` if it is prunable, that is if it has no
    /// children, and tells its parent. A label that the tree does not hold,
    /// or whose node has children, is left alone.
    ///
    /// The tree changes if and only if the node was there and prunable.
    pub fn remove(&mut self, label: &Label)
        requires
            old(self).wf(),
        ensures
            final(self).wf(),
            final(self).orientation() == old(self).orientation(),
            final(self).entries() == remove_spec(old(self).entries(), *label),
            final(self).entries() != old(self).entries() <==> old(self).contains(*label)
                && old(self).node(*label).children() == 0,
            forall|v: VertexId|
                v != label.vertex() && covers(old(self).entries(), v) ==> covers(
                    final(self).entries(),
                    v,
                ),
            drawn_from(final(self).entries(), old(self).entries()),
            same_root(final(self).entries(), old(self).entries()),
    {
        let ghost s = self.entries();
        proof {
            lemma_remove_preserves_wf(s, self.orientation(), *label);
            lemma_remove_drawn(s, self.orientation(), *label);
            assert forall|v: VertexId| v != label.vertex() && covers(s, v) implies covers(
                remove_spec(s, *label),
                v,
            ) by {
                lemma_remove_keeps_cover(s, self.orientation(), *label, v);
            }
        }
        let i: usize = match self.find(label) {
            Some(i) => i,
            None => {
                return ;
            },
        };
        proof {
            lemma_index_of(s, i as int);
        }
        if !self.nodes[i].1.is_prunable() {
            return ;
        }
        let parent: Option<Label> = match self.nodes[i].1.parent_label() {
            Some(p) => Some(*p),
            None => None,
        };
        match parent {
            None => {
                self.nodes.remove(i);
                assert(self.entries() =~= s.remove(i as int));
            },
            Some(p) => {
                proof {
                    if i > 0 {
                        lemma_parent_position(s, i as int);
                    }
                }
                let j: usize = match self.find(&p) {
                    Some(j) => j,
                    None => {
                        return ;
                    },
                };
                proof {
                    lemma_index_of(s, j as int);
                }
                let (parent_label, mut parent_node) = self.nodes.remove(j);
                parent_node.decrement_child_count();
                self.nodes.insert(j, (parent_label, parent_node));
                assert(self.entries() =~= recount(
                    s,
                    j as int,
                    (s[j as int].1.children() - 1) as usize,
                )) by {
                    lemma_unlink_counts(s, i as int, j as int);
                }
                self.nodes.remove(i);
                assert(self.entries() =~= recount(
                    s,
                    j as int,
                    (s[j as int].1.children() - 1) as usize,
                ).remove(i as int));
            },
        }
        assert(self.entries().len() != s.len());
    }

    /// Adds `child` as a childless branch under `parent`, reached over
    /// `edge_traversal`, and tells the parent.
    pub(crate) fn attach(&mut self, parent: Label, edge_traversal: EdgeTraversal, child: Label)
        requires
            old(self).wf(),
            old(self).contains(parent),
            !old(self).contains(child),
        ensures
            final(self).wf(),
            final(self).orientation() == old(self).orientation(),
            final(self).entries() == insert_spec(
                old(self).entries(),
                parent,
                SearchTreeNodeView::Branch {
                    incoming_edge: edge_traversal@,
                    parent,
                    direction: old(self).orientation(),
                    child_count: 0,
                },
                child,
            ),
    {
        let ghost s = self.entries();
        let node = SearchTreeNode::new_child(edge_traversal, parent, self.direction);
        let ghost view = node@;
        let j: usize = match self.find(&parent) {
            Some(j) => j,
            None => {
                assert(false);
                0
            },
        };
        self.nodes.push((child, node));
        let _count: usize = self.nodes.len();
        proof {
            assert(s.len() + 1 == _count);
            lemma_index_of(s, j as int);
            lemma_insert_preserves_wf(s, self.orientation(), parent, view, child);
        }
        let (parent_label, mut parent_node) = self.nodes.remove(j);
        parent_node.increment_child_count();
        self.nodes.insert(j, (parent_label, parent_node));
        assert(self.entries() =~= insert_spec(s, parent, view, child));
    }

    /// Inserts `child_label` as a branch under `parent_label`, reached over
    /// `edge_traversal`, after pruning the labels that `child_label`
    /// dominates.
    ///
    /// Fails with `MissingParent` if the tree does not hold `parent_label`,
    /// before pruning or after it; with `PruningError` if the label model
    /// cannot compare, in which case nothing was pruned; with
    /// `LabelAlreadyExists` if the pruned tree still holds `child_label`.
    /// Otherwise the pruned tree gains the branch, without children, and
    /// the parent records one child more.
    pub fn insert<M: LabelModel>(
        &mut self,
        parent_label: Label,
        edge_traversal: EdgeTraversal,
        child_label: Label,
        label_model: &M,
    ) -> (r: Result<(), SearchTreeError>)
        requires
            old(self).wf(),
        ensures
            final(self).wf(),
            final(self).orientation() == old(self).orientation(),
            !old(self).contains(parent_label) ==> r == Err::<(), SearchTreeError>(
                SearchTreeError::MissingParent(parent_label),
            ) && final(self).entries() == old(self).entries(),
            old(self).contains(parent_label) ==> match prune_outcome(
                label_model,
                old(self).entries(),
                child_label,
                edge_traversal.cost.objective_cost,
            ) {
                Err(e) => r == Err::<(), SearchTreeError>(SearchTreeError::PruningError(e))
                    && final(self).entries() == old(self).entries(),
                Ok(pruned) => if !has_label(pruned, parent_label) {
                    r == Err::<(), SearchTreeError>(SearchTreeError::MissingParent(parent_label))
                        && final(self).entries() == pruned
                } else if has_label(pruned, child_label) {
                    r == Err::<(), SearchTreeError>(
                        SearchTreeError::LabelAlreadyExists(child_label),
                    ) && final(self).entries() == pruned
                } else {
                    r is Ok && final(self).entries() == insert_spec(
                        pruned,
                        parent_label,
                        new_branch(edge_traversal@, parent_label, old(self).orientation()),
                        child_label,
                    )
                },
            },
            r is Ok ==> final(self).contains(child_label) && forall|v: VertexId|
                covers(old(self).entries(), v) || v == child_label.vertex() ==> covers(
                    final(self).entries(),
                    v,
                ),
            r is Ok ==> same_root(final(self).entries(), old(self).entries()) && grown_from(
                final(self).entries(),
                old(self).entries(),
                (child_label, new_branch(edge_traversal@, parent_label, old(self).orientation())),
            ),
    {
        let ghost s = self.entries();
        let ghost cost = edge_traversal.cost.objective_cost;
        let ghost branch = new_branch(edge_traversal@, parent_label, self.orientation());
        proof {
            if prune_outcome(label_model, s, child_label, cost) is Ok {
                lemma_prune_keeps_cover(label_model, s, self.orientation(), child_label, cost);
                lemma_prune_drawn(label_model, s, self.orientation(), child_label, cost);
                let pruned = prune_outcome(label_model, s, child_label, cost)->Ok_0;
                if has_label(pruned, parent_label) {
                    lemma_insert_grown(s, pruned, parent_label, branch, child_label);
                    assert forall|v: VertexId|
                        covers(s, v) || v == child_label.vertex() implies covers(
                        insert_spec(pruned, parent_label, branch, child_label),
                        v,
                    ) by {
                        lemma_insert_covers(pruned, parent_label, branch, child_label, v);
                    }
                    assert(insert_spec(pruned, parent_label, branch, child_label)[pruned.len() as int].0
                        == child_label);
                }
            }
        }
        if self.find(&parent_label).is_none() {
            return Err(SearchTreeError::MissingParent(parent_label));
        }
        match prune_tree(self, &child_label, &edge_traversal, label_model) {
            Err(e) => {
                return Err(e);
            },
            Ok(()) => {},
        }
        if self.find(&parent_label).is_none() {
            return Err(SearchTreeError::MissingParent(parent_label));
        }
        if self.find(&child_label).is_some() {
            return Err(SearchTreeError::LabelAlreadyExists(child_label));
        }
        self.attach(parent_label, edge_traversal, child_label);
        Ok(())
    }

    /// The position of the cheapest label at `vertex_id`.
    fn cheapest(&self, vertex_id: VertexId) -> (r: Option<usize>)
        ensures
            match r {
                Some(i) => cheapest_at(self.entries(), vertex_id, i as int),
                None => labels_at(self.entries(), vertex_id).len() == 0,
            },
    {
        let mut best: Option<usize> = None;
        let mut best_cost: Cost = Cost::zero();
        let mut i: usize = 0;
        while i < self.nodes.len()
            invariant
                i <= self.nodes.len(),
                match best {
                    Some(b) => b < i && cheapest_at(self.entries().take(i as int), vertex_id, b as int)
                        && best_cost == self.entries()[b as int].1.objective_cost(),
                    None => labels_at(self.entries().take(i as int), vertex_id).len() == 0,
                },
            decreases self.nodes.len() - i,
        {
            let ghost s = self.entries();
            proof {
                assert(s.take(i + 1).drop_last() =~= s.take(i as int));
                assert(s.take(i + 1).last() == s[i as int]);
            }
            if self.nodes[i].0.vertex_id().0 == vertex_id.0 {
                let cost: Cost = match self.nodes[i].1.traversal_cost() {
                    Some(tc) => tc.objective_cost,
                    None => Cost::zero(),
                };
                assert(cost == s[i as int].1.objective_cost());
                let better: bool = match best {
                    Some(_) => cost.0 < best_cost.0,
                    None => true,
                };
                if better {
                    best = Some(i);
                    best_cost = cost;
                    assert forall|k: int|
                        0 <= k < i + 1 && (#[trigger] s.take(i + 1)[k]).0.vertex()
                            == vertex_id implies {
                        ||| s.take(i + 1)[i as int].1.objective_cost().0 < s.take(
                            i + 1,
                        )[k].1.objective_cost().0
                        ||| s.take(i + 1)[i as int].1.objective_cost().0 == s.take(
                            i + 1,
                        )[k].1.objective_cost().0 && i <= k
                    } by {
                        if k < i {
                            assert(s.take(i as int)[k] == s[k]);
                            lemma_labels_at_member(s.take(i as int), vertex_id, k);
                        }
                    }
                } else {
                    let ghost b = best->0 as int;
                    assert forall|k: int|
                        0 <= k < i + 1 && (#[trigger] s.take(i + 1)[k]).0.vertex()
                            == vertex_id implies {
                        ||| s.take(i + 1)[b].1.objective_cost().0 < s.take(
                            i + 1,
                        )[k].1.objective_cost().0
                        ||| s.take(i + 1)[b].1.objective_cost().0 == s.take(
                            i + 1,
                        )[k].1.objective_cost().0 && b <= k
                    } by {
                        if k < i {
                            assert(s.take(i as int)[k] == s[k]);
                        }
                    }
                }
            } else {
                proof {
                    if best is Some {
                        let b = best->0 as int;
                        assert forall|k: int|
                            0 <= k < i + 1 && (#[trigger] s.take(i + 1)[k]).0.vertex()
                                == vertex_id implies {
                            ||| s.take(i + 1)[b].1.objective_cost().0 < s.take(
                                i + 1,
                            )[k].1.objective_cost().0
                            ||| s.take(i + 1)[b].1.objective_cost().0 == s.take(
                                i + 1,
                            )[k].1.objective_cost().0 && b <= k
                        } by {
                            if k < i {
                                assert(s.take(i as int)[k] == s[k]);
                            }
                        }
                    }
                }
            }
            i += 1;
        }
        assert(self.entries().take(i as int) =~= self.entries());
        best
    }

    /// The route to the cheapest label at `target`, in the order of travel.
    ///
    /// Among the labels that the tree holds at `target`, the route ends at
    /// one whose objective cost none of the others undercuts; of several as
    /// cheap, at the oldest. Fails with `NoPathTo(target)` exactly when the
    /// tree holds no label at `target`.
    pub fn backtrack(&self, target: VertexId) -> (r: Result<Vec<EdgeTraversal>, SearchTreeError>)
        requires
            self.wf(),
        ensures
            match r {
                Ok(route) => exists|i: int|
                    #![trigger cheapest_at(self.entries(), target, i)]
                    cheapest_at(self.entries(), target, i) && traversal_views(route@) == route_of(
                        self.entries(),
                        self.orientation(),
                        i,
                    ),
                Err(e) => e == SearchTreeError::NoPathTo(target) && labels_at(
                    self.entries(),
                    target,
                ).len() == 0,
            },
    {
        let start: usize = match self.cheapest(target) {
            Some(i) => i,
            None => {
                return Err(SearchTreeError::NoPathTo(target));
            },
        };
        let ghost s = self.entries();
        let mut walk: Vec<EdgeTraversal> = Vec::new();
        let mut cur: usize = start;
        loop
            invariant
                self.wf(),
                s == self.entries(),
                cur < s.len(),
                traversal_views(walk@) + walk_up(s, cur as int) == walk_up(s, start as int),
            ensures
                traversal_views(walk@) == walk_up(s, start as int),
            decreases cur,
        {
            let next: Option<usize> = match &self.nodes[cur].1 {
                SearchTreeNode::Root { .. } => None,
                SearchTreeNode::Branch { incoming_edge, parent, .. } => {
                    let ghost before = traversal_views(walk@);
                    walk.push(incoming_edge.clone());
                    assert(traversal_views(walk@) =~= before.push(incoming_edge@));
                    self.find(parent)
                },
            };
            proof {
                if cur > 0 {
                    lemma_parent_position(s, cur as int);
                }
            }
            match next {
                Some(j) => {
                    proof {
                        lemma_index_of(s, j as int);
                        assert(traversal_views(walk@) + walk_up(s, j as int) =~= walk_up(
                            s,
                            start as int,
                        ));
                    }
                    cur = j;
                },
                None => {
                    assert(traversal_views(walk@) =~= walk_up(s, start as int));
                    break ;
                },
            }
        }
        let route = match self.direction {
            Direction::Forward => reversed(walk),
            Direction::Reverse => walk,
        };
        Ok(route)
    }
}

} // verus!
