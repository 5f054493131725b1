use routee_compass_core::cost::{Cost, ReverseCost, TraversalCost};
use routee_compass_core::label::{Label, VertexLabelModel};
use routee_compass_core::network::{EdgeId, EdgeListId, VertexId};
use routee_compass_core::search::direction::Direction;
use routee_compass_core::search::edge_traversal::EdgeTraversal;
use routee_compass_core::search::frontier_instance::FrontierInstance;
use routee_compass_core::search::priority_queue::InternalPriorityQueue;
use routee_compass_core::search::search_error::SearchError;
use routee_compass_core::search::search_tree::SearchTree;
use routee_compass_core::state::StateVariable;

#[test]
fn test_pop_new_empty_queue() {
    let mut frontier = InternalPriorityQueue::default();
    let solution = SearchTree::new(Direction::Forward);
    let initial_state = vec![StateVariable::zero()];
    let result =
        FrontierInstance::pop_new(&mut frontier, VertexId(0), None, &solution, &initial_state)
            .unwrap();
    assert!(result.is_none());
}

#[test]
fn test_pop_new_no_path_exists() {
    let mut frontier = InternalPriorityQueue::default();
    let solution = SearchTree::new(Direction::Forward);
    let initial_state = vec![StateVariable::zero()];
    let result = FrontierInstance::pop_new(
        &mut frontier,
        VertexId(0),
        Some(VertexId(1)),
        &solution,
        &initial_state,
    );
    assert!(result.is_err());
    assert!(matches!(
        result,
        Err(SearchError::NoPathExistsBetweenVertices(
            VertexId(0),
            VertexId(1),
            0
        ))
    ));
}

#[test]
fn test_pop_new_returns_root_when_tree_empty() {
    let mut frontier = InternalPriorityQueue::default();
    let label = Label::Vertex(VertexId(0));
    frontier.push(label.clone(), ReverseCost::new(Cost::zero()));
    let solution = SearchTree::new(Direction::Forward);
    let initial_state = vec![StateVariable::zero()];
    let result =
        FrontierInstance::pop_new(&mut frontier, VertexId(0), None, &solution, &initial_state)
            .unwrap();
    assert!(result.is_some());
    let instance = result.unwrap();
    assert_eq!(instance.prev_label, label);
    assert_eq!(instance.prev_edge, None);
    assert_eq!(instance.prev_state, initial_state);
}

#[test]
fn test_pop_new_skips_pruned_label() {
    let mut frontier = InternalPriorityQueue::default();
    let l1 = Label::Vertex(VertexId(1));
    let l2 = Label::Vertex(VertexId(2));

    // l2 has higher priority (lower cost) but is "pruned" (not in solution tree)
    frontier.push(l2.clone(), ReverseCost::new(Cost::new(5)));
    frontier.push(l1.clone(), ReverseCost::new(Cost::new(10)));

    let mut solution = SearchTree::new(Direction::Forward);
    let root = Label::Vertex(VertexId(0));
    solution.set_root(root.clone()).unwrap();

    // Add l1 to the tree
    let et = EdgeTraversal {
        edge_id: EdgeId(0),
        edge_list_id: EdgeListId(0),
        cost: TraversalCost {
            objective_cost: Cost::new(10),
            total_cost: Cost::new(10),
            ..Default::default()
        },
        result_state: vec![StateVariable::zero()],
    };
    let label_model = VertexLabelModel {};
    solution.insert(root, et, l1.clone(), &label_model).unwrap();

    let initial_state = vec![StateVariable::zero()];

    // Should skip l2 and return l1
    let result =
        FrontierInstance::pop_new(&mut frontier, VertexId(0), None, &solution, &initial_state)
            .unwrap();

    assert!(result.is_some());
    assert_eq!(result.unwrap().prev_label, l1);
}

#[test]
fn test_pop_new_reaches_target() {
    let mut frontier = InternalPriorityQueue::default();
    let target = VertexId(1);
    let label = Label::Vertex(target);
    frontier.push(label, ReverseCost::new(Cost::zero()));

    let solution = SearchTree::new(Direction::Forward);
    let initial_state = vec![StateVariable::zero()];

    // Reaching target vertex should return Ok(None)
    let result = FrontierInstance::pop_new(
        &mut frontier,
        VertexId(0),
        Some(target),
        &solution,
        &initial_state,
    )
    .unwrap();

    assert!(result.is_none());
}

#[test]
fn test_pop_new_skips_pruned_state_label() {
    let mut frontier = InternalPriorityQueue::default();
    let v1 = VertexId(1);
    let l1 = Label::VertexWithIntState {
        vertex_id: v1,
        state: 100,
    };
    let l2 = Label::VertexWithIntState {
        vertex_id: v1,
        state: 50,
    }; // This label will not be in the tree

    // l2 has higher priority (lower cost) but is not in the tree
    frontier.push(l2.clone(), ReverseCost::new(Cost::new(5)));
    frontier.push(l1.clone(), ReverseCost::new(Cost::new(10)));

    let mut solution = SearchTree::new(Direction::Forward);
    let root = Label::Vertex(VertexId(0));
    solution.set_root(root.clone()).unwrap();

    let et = EdgeTraversal {
        edge_id: EdgeId(0),
        edge_list_id: EdgeListId(0),
        cost: TraversalCost {
            objective_cost: Cost::new(10),
            total_cost: Cost::new(10),
            ..Default::default()
        },
        result_state: vec![StateVariable::zero()],
    };

    // This model orders every pair as Greater, so it prunes nothing: l1 is
    // in the tree and l2 is not.
    let label_model = VertexLabelModel {};
    solution.insert(root, et, l1.clone(), &label_model).unwrap();

    let initial_state = vec![StateVariable::zero()];

    // Should skip l2 (not in tree) and return l1
    let result =
        FrontierInstance::pop_new(&mut frontier, VertexId(0), None, &solution, &initial_state)
            .unwrap();

    assert!(result.is_some());
    assert_eq!(result.unwrap().prev_label, l1);
}

#[test]
fn pop_new_returns_edge_and_state_of_branch() {
    let mut frontier = InternalPriorityQueue::new();
    let root = Label::Vertex(VertexId(0));
    let l1 = Label::Vertex(VertexId(1));
    frontier.push(l1, ReverseCost::new(Cost::new(3)));
    let mut solution = SearchTree::new(Direction::Forward);
    solution.set_root(root).unwrap();
    let et = EdgeTraversal {
        edge_id: EdgeId(4),
        edge_list_id: EdgeListId(2),
        cost: TraversalCost::default(),
        result_state: vec![StateVariable(17), StateVariable(-3)],
    };
    solution.insert(root, et, l1, &VertexLabelModel {}).unwrap();
    let initial_state = vec![StateVariable::zero()];
    let instance =
        FrontierInstance::pop_new(&mut frontier, VertexId(0), None, &solution, &initial_state)
            .unwrap()
            .unwrap();
    assert_eq!(instance.prev_edge, Some((EdgeListId(2), EdgeId(4))));
    assert_eq!(instance.prev_state, vec![StateVariable(17), StateVariable(-3)]);
    assert!(frontier.is_empty());
}

#[test]
fn queue_pops_by_cost_then_age_and_updates_priorities() {
    let mut q = InternalPriorityQueue::new();
    let a = Label::Vertex(VertexId(1));
    let b = Label::Vertex(VertexId(2));
    let c = Label::Vertex(VertexId(3));
    q.push(a, ReverseCost::new(Cost::new(7)));
    q.push(b, ReverseCost::new(Cost::new(5)));
    q.push(c, ReverseCost::new(Cost::new(5)));
    assert_eq!(q.len(), 3);
    // pushing a label that waits replaces its priority
    q.push(a, ReverseCost::new(Cost::new(1)));
    assert_eq!(q.len(), 3);
    assert_eq!(q.pop().unwrap().0, a);
    assert_eq!(q.pop().unwrap().0, b);
    assert_eq!(q.pop().unwrap().0, c);
    assert!(q.pop().is_none());
}
