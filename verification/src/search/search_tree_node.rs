//! Nodes of the search tree.

use vstd::prelude::*;
use crate::cost::{Cost, TraversalCost};
use crate::label::Label;
use crate::search::direction::Direction;
use crate::search::edge_traversal::{EdgeTraversal, EdgeTraversalView};

verus! {

/// A node of the search tree: the root, or a branch that remembers the edge
/// that led to it and the label that it was reached from.
#[derive(Debug)]
pub enum SearchTreeNode {
    Root {
        /// Orientation of the tree that the node belongs to.
        direction: Direction,
        /// Number of nodes of the tree that have this node as their parent.
        child_count: usize,
    },
    Branch {
        /// The traversal that led to this node.
        incoming_edge: EdgeTraversal,
        /// Label of the parent node.
        parent: Label,
        /// Orientation of the tree that the node belongs to.
        direction: Direction,
        /// Number of nodes of the tree that have this node as their parent.
        child_count: usize,
    },
}

/// The mathematical content of a [`SearchTreeNode`].
pub enum SearchTreeNodeView {
    Root { direction: Direction, child_count: usize },
    Branch { incoming_edge: EdgeTraversalView, parent: Label, direction: Direction, child_count: usize },
}

impl SearchTreeNodeView {
    /// The number of children that the node records.
    pub open spec fn children(self) -> nat {
        match self {
            SearchTreeNodeView::Root { child_count, .. } => child_count as nat,
            SearchTreeNodeView::Branch { child_count, .. } => child_count as nat,
        }
    }

    /// The node with its child count replaced by `count`, all else kept.
    pub open spec fn with_children(self, count: usize) -> SearchTreeNodeView {
        match self {
            SearchTreeNodeView::Root { direction, .. } => SearchTreeNodeView::Root {
                direction,
                child_count: count,
            },
            SearchTreeNodeView::Branch { incoming_edge, parent, direction, .. } => {
                SearchTreeNodeView::Branch { incoming_edge, parent, direction, child_count: count }
            },
        }
    }

    /// The orientation that the node records.
    pub open spec fn orientation(self) -> Direction {
        match self {
            SearchTreeNodeView::Root { direction, .. } => direction,
            SearchTreeNodeView::Branch { direction, .. } => direction,
        }
    }

    /// Whether the node is a branch whose parent is `label`.
    pub open spec fn is_child_of(self, label: Label) -> bool {
        self matches SearchTreeNodeView::Branch { parent, .. } && parent == label
    }

    /// The objective cost of the traversal that led to the node; zero for a
    /// root.
    pub open spec fn objective_cost(self) -> Cost {
        match self {
            SearchTreeNodeView::Root { .. } => Cost(0),
            SearchTreeNodeView::Branch { incoming_edge, .. } => incoming_edge.cost.objective_cost,
        }
    }
}

impl View for SearchTreeNode {
    type V = SearchTreeNodeView;

    open spec fn view(&self) -> SearchTreeNodeView {
        match *self {
            SearchTreeNode::Root { direction, child_count } => SearchTreeNodeView::Root {
                direction,
                child_count,
            },
            SearchTreeNode::Branch { incoming_edge, parent, direction, child_count } => {
                SearchTreeNodeView::Branch {
                    incoming_edge: incoming_edge@,
                    parent,
                    direction,
                    child_count,
                }
            },
        }
    }
}

impl Clone for SearchTreeNode {
    fn clone(&self) -> (r: Self)
        ensures
            r@ == self@,
    {
        match self {
            SearchTreeNode::Root { direction, child_count } => SearchTreeNode::Root {
                direction: *direction,
                child_count: *child_count,
            },
            SearchTreeNode::Branch { incoming_edge, parent, direction, child_count } => {
                SearchTreeNode::Branch {
                    incoming_edge: incoming_edge.clone(),
                    parent: *parent,
                    direction: *direction,
                    child_count: *child_count,
                }
            },
        }
    }
}

impl SearchTreeNode {
    /// A root without children.
    pub fn new_root(orientation: Direction) -> (node: Self)
        ensures
            node@ == (SearchTreeNodeView::Root { direction: orientation, child_count: 0 }),
    {
        SearchTreeNode::Root { direction: orientation, child_count: 0 }
    }

    /// A branch without children, reached from `parent` over `edge_traversal`.
    pub fn new_child(edge_traversal: EdgeTraversal, parent: Label, direction: Direction) -> (node:
        Self)
        ensures
            node@ == (SearchTreeNodeView::Branch {
                incoming_edge: edge_traversal@,
                parent,
                direction,
                child_count: 0,
            }),
    {
        SearchTreeNode::Branch { incoming_edge: edge_traversal, parent, direction, child_count: 0 }
    }

    /// The parent's label; a root has none.
    pub fn parent_label(&self) -> (r: Option<&Label>)
        ensures
            match self@ {
                SearchTreeNodeView::Root { .. } => r is None,
                SearchTreeNodeView::Branch { parent, .. } => r == Some(&parent),
            },
    {
        match self {
            SearchTreeNode::Root { .. } => None,
            SearchTreeNode::Branch { parent, .. } => Some(parent),
        }
    }

    /// The traversal that led to the node; a root has none.
    pub fn incoming_edge(&self) -> (r: Option<&EdgeTraversal>)
        ensures
            match self@ {
                SearchTreeNodeView::Root { .. } => r is None,
                SearchTreeNodeView::Branch { incoming_edge, .. } => r is Some
                    && r->0@ == incoming_edge,
            },
    {
        match self {
            SearchTreeNode::Root { .. } => None,
            SearchTreeNode::Branch { incoming_edge, .. } => Some(incoming_edge),
        }
    }

    /// Whether the node is the root.
    pub fn is_root(&self) -> (b: bool)
        ensures
            b == (self@ is Root),
    {
        match self {
            SearchTreeNode::Root { .. } => true,
            SearchTreeNode::Branch { .. } => false,
        }
    }

    /// The orientation of the tree that the node belongs to.
    pub fn direction(&self) -> (d: Direction)
        ensures
            d == self@.orientation(),
    {
        match self {
            SearchTreeNode::Root { direction, .. } => *direction,
            SearchTreeNode::Branch { direction, .. } => *direction,
        }
    }

    /// The cost of the traversal that led to the node; a root has none.
    pub fn traversal_cost(&self) -> (r: Option<&TraversalCost>)
        ensures
            match self@ {
                SearchTreeNodeView::Root { .. } => r is None,
                SearchTreeNodeView::Branch { incoming_edge, .. } => r == Some(&incoming_edge.cost),
            },
    {
        match self {
            SearchTreeNode::Root { .. } => None,
            SearchTreeNode::Branch { incoming_edge, .. } => Some(&incoming_edge.cost),
        }
    }

    /// The number of nodes that have this node as their parent.
    pub fn child_count(&self) -> (n: usize)
        ensures
            n == self@.children(),
    {
        match self {
            SearchTreeNode::Root { child_count, .. } => *child_count,
            SearchTreeNode::Branch { child_count, .. } => *child_count,
        }
    }

    /// Records one more child.
    pub fn increment_child_count(&mut self)
        requires
            old(self)@.children() < usize::MAX,
        ensures
            final(self)@ == old(self)@.with_children((old(self)@.children() + 1) as usize),
    {
        match self {
            SearchTreeNode::Root { child_count, .. } => *child_count += 1,
            SearchTreeNode::Branch { child_count, .. } => *child_count += 1,
        }
    }

    /// Records one child fewer; a count of zero stays zero.
    pub fn decrement_child_count(&mut self)
        ensures
            final(self)@ == old(self)@.with_children(
                if old(self)@.children() > 0 {
                    (old(self)@.children() - 1) as usize
                } else {
                    0
                },
            ),
    {
        match self {
            SearchTreeNode::Root { child_count, .. } => {
                if *child_count > 0 {
                    *child_count -= 1;
                }
            },
            SearchTreeNode::Branch { child_count, .. } => {
                if *child_count > 0 {
                    *child_count -= 1;
                }
            },
        }
    }

    /// A node is prunable when it has no children: removing it orphans none.
    pub fn is_prunable(&self) -> (b: bool)
        ensures
            b == (self@.children() == 0),
    {
        self.child_count() == 0
    }
}

} // verus!
