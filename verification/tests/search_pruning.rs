use routee_compass_core::cost::{Cost, TraversalCost};
use routee_compass_core::label::{IntStateLabelModel, Label, VertexLabelModel};
use routee_compass_core::network::{EdgeId, EdgeListId, VertexId};
use routee_compass_core::search::direction::Direction;
use routee_compass_core::search::edge_traversal::EdgeTraversal;
use routee_compass_core::search::search_pruning::{dominates, prune_tree, test_dominates};
use routee_compass_core::search::search_tree::{SearchTree, SearchTreeError};
use routee_compass_core::label::LabelOrder;
use routee_compass_core::state::StateVariable;

fn soc(vertex: usize, state: usize) -> Label {
    Label::VertexWithIntState {
        vertex_id: VertexId(vertex),
        state,
    }
}

fn traversal(edge: usize, cost: u64) -> EdgeTraversal {
    EdgeTraversal {
        edge_list_id: EdgeListId(0),
        edge_id: EdgeId(edge),
        cost: TraversalCost {
            objective_cost: Cost::new(cost),
            total_cost: Cost::new(cost),
        },
        result_state: vec![StateVariable(0)],
    }
}

#[test]
fn test_not_pareto_dominated() {
    let label_model = IntStateLabelModel {};
    let prev_label = soc(0, 30);
    let prev_cost = Cost::new(50);
    let next_label = soc(0, 80);
    let next_cost = Cost::new(70);
    let is_dominated = test_dominates(&prev_label, prev_cost, &next_label, next_cost, &label_model)
        .expect("test invariant failed");
    assert!(!is_dominated);
}

#[test]
fn test_is_pareto_dominated() {
    let label_model = IntStateLabelModel {};
    let prev_label = soc(0, 30);
    let prev_cost = Cost::new(50);
    let next_label = soc(0, 80);
    let next_cost = Cost::new(40);
    let is_dominated = test_dominates(&prev_label, prev_cost, &next_label, next_cost, &label_model)
        .expect("test invariant failed");
    assert!(is_dominated);
}

#[test]
fn dominance_by_order_and_cost() {
    let c = Cost::new;
    assert!(dominates(LabelOrder::Less, c(50), c(50)));
    assert!(dominates(LabelOrder::Less, c(50), c(40)));
    assert!(!dominates(LabelOrder::Less, c(50), c(51)));
    assert!(dominates(LabelOrder::Equal, c(50), c(49)));
    assert!(!dominates(LabelOrder::Equal, c(50), c(50)));
    assert!(!dominates(LabelOrder::Greater, c(50), c(0)));
}

#[test]
fn dominance_is_irreflexive_and_transitive_on_examples() {
    let m = IntStateLabelModel {};
    let a = (soc(0, 90), Cost::new(10));
    let b = (soc(0, 60), Cost::new(20));
    let c = (soc(0, 30), Cost::new(20));
    let dom = |next: &(Label, Cost), prev: &(Label, Cost)| {
        test_dominates(&prev.0, prev.1, &next.0, next.1, &m).unwrap()
    };
    assert!(!dom(&a, &a));
    assert!(dom(&a, &b));
    assert!(dom(&b, &c));
    assert!(dom(&a, &c));
    assert!(!dom(&b, &a));
}

#[test]
fn test_dominates_reports_incomparable_labels() {
    let m = IntStateLabelModel {};
    let r = test_dominates(
        &Label::Vertex(VertexId(0)),
        Cost::new(1),
        &soc(0, 1),
        Cost::new(1),
        &m,
    );
    assert!(r.is_err());
}

#[test]
fn pareto_pruning_removes_dominated_prunable_label() {
    let m = IntStateLabelModel {};
    let mut tree = SearchTree::new(Direction::Forward);
    let root = Label::Vertex(VertexId(0));
    tree.set_root(root).unwrap();
    let prev = soc(1, 30);
    tree.insert(root, traversal(0, 50), prev, &m).unwrap();
    assert_eq!(tree.len(), 2);

    // next = (state 80, cost 40) dominates prev = (state 30, cost 50)
    let next = soc(1, 80);
    tree.insert(root, traversal(1, 40), next, &m).unwrap();
    assert!(tree.get(&prev).is_none());
    assert!(tree.get(&next).is_some());
    assert_eq!(tree.len(), 2);
    assert_eq!(tree.get(&root).unwrap().child_count(), 1);
}

#[test]
fn pareto_pruning_keeps_label_that_is_not_dominated() {
    let m = IntStateLabelModel {};
    let mut tree = SearchTree::new(Direction::Forward);
    let root = Label::Vertex(VertexId(0));
    tree.set_root(root).unwrap();
    let prev = soc(1, 30);
    tree.insert(root, traversal(0, 50), prev, &m).unwrap();

    // next = (state 80, cost 70) does not dominate prev = (state 30, cost 50)
    let next = soc(1, 80);
    tree.insert(root, traversal(1, 70), next, &m).unwrap();
    assert!(tree.get(&prev).is_some());
    assert!(tree.get(&next).is_some());
    assert_eq!(tree.len(), 3);
    assert_eq!(tree.get(&root).unwrap().child_count(), 2);
}

#[test]
fn pareto_pruning_keeps_dominated_label_with_children() {
    let m = IntStateLabelModel {};
    let mut tree = SearchTree::new(Direction::Forward);
    let root = Label::Vertex(VertexId(0));
    tree.set_root(root).unwrap();
    let prev = soc(1, 30);
    tree.insert(root, traversal(0, 50), prev, &m).unwrap();
    let below = soc(2, 20);
    tree.insert(prev, traversal(2, 60), below, &m).unwrap();

    let next = soc(1, 80);
    prune_tree(&mut tree, &next, &traversal(1, 40), &m).unwrap();
    assert!(tree.get(&prev).is_some());
    assert_eq!(tree.len(), 3);
}

#[test]
fn pruning_failure_leaves_tree_unchanged() {
    let m = IntStateLabelModel {};
    let v = VertexLabelModel {};
    let mut tree = SearchTree::new(Direction::Forward);
    let root = Label::Vertex(VertexId(0));
    tree.set_root(root).unwrap();
    tree.insert(root, traversal(0, 50), soc(1, 30), &v).unwrap();
    tree.insert(root, traversal(1, 50), Label::Vertex(VertexId(1)), &v)
        .unwrap();
    let r = prune_tree(&mut tree, &soc(1, 80), &traversal(2, 10), &m);
    assert!(matches!(r, Err(SearchTreeError::PruningError(_))));
    assert_eq!(tree.len(), 3);
}
