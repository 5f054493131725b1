use routee_compass_core::cost::{Cost, TraversalCost};
use routee_compass_core::label::{Label, VertexLabelModel};
use routee_compass_core::network::{EdgeId, EdgeListId, VertexId};
use routee_compass_core::search::direction::Direction;
use routee_compass_core::search::edge_traversal::EdgeTraversal;
use routee_compass_core::search::search_tree::{SearchTree, SearchTreeError};
use routee_compass_core::search::search_tree_node::SearchTreeNode;
use routee_compass_core::state::StateVariable;

fn v(i: usize) -> Label {
    Label::Vertex(VertexId(i))
}

fn hop(edge: usize, cost: u64) -> EdgeTraversal {
    EdgeTraversal {
        edge_list_id: EdgeListId(0),
        edge_id: EdgeId(edge),
        cost: TraversalCost {
            objective_cost: Cost::new(cost),
            total_cost: Cost::new(cost),
        },
        result_state: vec![StateVariable(edge as i64)],
    }
}

fn chain(direction: Direction) -> SearchTree {
    let m = VertexLabelModel {};
    let mut tree = SearchTree::new(direction);
    tree.set_root(v(0)).unwrap();
    tree.insert(v(0), hop(10, 1), v(1), &m).unwrap();
    tree.insert(v(1), hop(11, 2), v(2), &m).unwrap();
    tree.insert(v(2), hop(12, 3), v(3), &m).unwrap();
    tree.insert(v(0), hop(13, 9), v(4), &m).unwrap();
    tree
}

fn child_count_sum(tree: &SearchTree, labels: &[Label]) -> usize {
    labels
        .iter()
        .filter_map(|l| tree.get(l))
        .map(|n| n.child_count())
        .sum()
}

#[test]
fn node_constructors_and_getters() {
    let mut root = SearchTreeNode::new_root(Direction::Reverse);
    assert!(root.is_root());
    assert!(root.is_prunable());
    assert_eq!(root.child_count(), 0);
    assert_eq!(root.direction(), Direction::Reverse);
    assert!(root.parent_label().is_none());
    assert!(root.incoming_edge().is_none());
    assert!(root.traversal_cost().is_none());
    root.increment_child_count();
    root.increment_child_count();
    assert_eq!(root.child_count(), 2);
    assert!(!root.is_prunable());
    root.decrement_child_count();
    root.decrement_child_count();
    root.decrement_child_count();
    assert_eq!(root.child_count(), 0);

    let mut child = SearchTreeNode::new_child(hop(7, 5), v(3), Direction::Forward);
    assert!(!child.is_root());
    assert_eq!(child.parent_label(), Some(&v(3)));
    assert_eq!(child.incoming_edge().unwrap().edge_id, EdgeId(7));
    assert_eq!(child.traversal_cost().unwrap().objective_cost, Cost::new(5));
    assert_eq!(child.direction(), Direction::Forward);
    child.increment_child_count();
    assert_eq!(child.child_count(), 1);
    child.decrement_child_count();
    child.decrement_child_count();
    assert_eq!(child.child_count(), 0);
}

#[test]
fn set_root_fails_when_root_exists() {
    let mut tree = SearchTree::new(Direction::Forward);
    assert!(tree.is_empty());
    assert!(tree.set_root(v(0)).is_ok());
    assert!(matches!(
        tree.set_root(v(1)),
        Err(SearchTreeError::RootAlreadyExists)
    ));
    assert_eq!(tree.len(), 1);
    assert!(tree.get(&v(0)).unwrap().is_root());
}

#[test]
fn insert_fails_without_parent() {
    let m = VertexLabelModel {};
    let mut tree = SearchTree::new(Direction::Forward);
    tree.set_root(v(0)).unwrap();
    let r = tree.insert(v(5), hop(1, 1), v(6), &m);
    assert!(matches!(r, Err(SearchTreeError::MissingParent(l)) if l == v(5)));
    assert_eq!(tree.len(), 1);
}

#[test]
fn insert_fails_on_label_that_exists() {
    let m = VertexLabelModel {};
    let mut tree = chain(Direction::Forward);
    let r = tree.insert(v(0), hop(1, 1), v(2), &m);
    assert!(matches!(r, Err(SearchTreeError::LabelAlreadyExists(l)) if l == v(2)));
    assert_eq!(tree.len(), 5);
}

#[test]
fn tree_integrity_after_inserts_and_removes() {
    let mut tree = chain(Direction::Forward);
    let all = [v(0), v(1), v(2), v(3), v(4)];
    assert_eq!(tree.len(), 5);
    assert_eq!(child_count_sum(&tree, &all), tree.len() - 1);
    for l in &all[1..] {
        let parent = *tree.get(l).unwrap().parent_label().unwrap();
        assert!(tree.get(&parent).unwrap().child_count() >= 1);
    }
    tree.remove(&v(3));
    tree.remove(&v(4));
    assert_eq!(tree.len(), 3);
    assert_eq!(child_count_sum(&tree, &all), tree.len() - 1);
    assert_eq!(tree.get(&v(0)).unwrap().child_count(), 1);
    assert_eq!(tree.get(&v(2)).unwrap().child_count(), 0);
}

#[test]
fn remove_changes_tree_only_if_prunable() {
    let mut tree = chain(Direction::Forward);
    // has a child: stays
    tree.remove(&v(1));
    assert_eq!(tree.len(), 5);
    assert!(tree.get(&v(1)).is_some());
    // not there: nothing happens
    tree.remove(&v(9));
    assert_eq!(tree.len(), 5);
    // a leaf: leaves, and the parent is told
    tree.remove(&v(3));
    assert_eq!(tree.len(), 4);
    assert!(tree.get(&v(3)).is_none());
    assert!(tree.get(&v(2)).unwrap().is_prunable());
}

#[test]
fn remove_childless_root_empties_tree() {
    let mut tree = SearchTree::new(Direction::Forward);
    tree.set_root(v(0)).unwrap();
    tree.remove(&v(0));
    assert!(tree.is_empty());
    assert!(tree.set_root(v(1)).is_ok());
}

#[test]
fn get_labels_covers_the_keys_at_a_vertex() {
    let m = VertexLabelModel {};
    let mut tree = SearchTree::new(Direction::Forward);
    tree.set_root(v(0)).unwrap();
    let a = Label::VertexWithIntState {
        vertex_id: VertexId(1),
        state: 1,
    };
    let b = Label::VertexWithIntState {
        vertex_id: VertexId(1),
        state: 2,
    };
    tree.insert(v(0), hop(1, 1), a, &m).unwrap();
    tree.insert(v(0), hop(2, 1), v(2), &m).unwrap();
    tree.insert(v(0), hop(3, 1), b, &m).unwrap();
    assert_eq!(tree.get_labels(VertexId(1)), vec![a, b]);
    assert_eq!(tree.get_labels(VertexId(0)), vec![v(0)]);
    assert!(tree.get_labels(VertexId(7)).is_empty());
    tree.remove(&a);
    assert_eq!(tree.get_labels(VertexId(1)), vec![b]);
}

#[test]
fn backtrack_forward_is_in_travel_order() {
    let tree = chain(Direction::Forward);
    let route = tree.backtrack(VertexId(3)).unwrap();
    let edges: Vec<usize> = route.iter().map(|e| e.edge_id.0).collect();
    assert_eq!(edges, vec![10, 11, 12]);
    assert!(tree.backtrack(VertexId(0)).unwrap().is_empty());
}

#[test]
fn backtrack_reverse_tree_walks_towards_root() {
    let tree = chain(Direction::Reverse);
    let route = tree.backtrack(VertexId(3)).unwrap();
    let edges: Vec<usize> = route.iter().map(|e| e.edge_id.0).collect();
    assert_eq!(edges, vec![12, 11, 10]);
}

#[test]
fn backtrack_fails_for_vertex_not_in_tree() {
    let tree = chain(Direction::Forward);
    assert!(matches!(
        tree.backtrack(VertexId(42)),
        Err(SearchTreeError::NoPathTo(VertexId(42)))
    ));
}

#[test]
fn backtrack_takes_cheapest_label_at_target() {
    let m = VertexLabelModel {};
    let mut tree = SearchTree::new(Direction::Forward);
    tree.set_root(v(0)).unwrap();
    let dear = Label::VertexWithIntState {
        vertex_id: VertexId(1),
        state: 1,
    };
    let cheap = Label::VertexWithIntState {
        vertex_id: VertexId(1),
        state: 2,
    };
    tree.insert(v(0), hop(1, 30), dear, &m).unwrap();
    tree.insert(v(0), hop(2, 20), cheap, &m).unwrap();
    let route = tree.backtrack(VertexId(1)).unwrap();
    assert_eq!(route.len(), 1);
    assert_eq!(route[0].edge_id, EdgeId(2));
    assert_eq!(route[0].cost.objective_cost, Cost::new(20));
}
