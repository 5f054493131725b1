use routee_compass_core::constraint::{
    RestrictionRecord, SpatialIndexType, TurnRestrictionFrontierService,
};
use routee_compass_core::cost::{Cost, TraversalCost};
use routee_compass_core::graph::{Graph, GraphError};
use routee_compass_core::label::{
    IntStateLabelModel, Label, LabelModel, LabelModelError, LabelOrder, VertexLabelModel,
};
use routee_compass_core::map_matching::distance::Distance;
use routee_compass_core::map_matching::lcss::lcss_ops::{
    compute_distance_to_edge, find_candidates, get_closest_vertex, path_of_search,
    run_shortest_path,
};
use routee_compass_core::map_matching::map_matching_error::MapMatchingError;
use routee_compass_core::map_matching::map_matching_trace::MapMatchingPoint;
use routee_compass_core::map_matching::map_model::{MapError, MapModel, NearestSearchResult};
use routee_compass_core::network::{Edge, EdgeId, EdgeListId, VertexId};
use routee_compass_core::search::a_star::{relax_edge, run_edge_oriented, run_vertex_oriented};
use routee_compass_core::search::frontier_instance::FrontierInstance;
use routee_compass_core::search::priority_queue::InternalPriorityQueue;
use routee_compass_core::search::search_tree::SearchTree;
use routee_compass_core::search::direction::Direction;
use routee_compass_core::search::models::{
    ConstraintModel, CostModel, ModelError, NoRestriction, TraversalModel,
};
use routee_compass_core::search::search_error::SearchError;
use routee_compass_core::search::search_instance::SearchInstance;
use routee_compass_core::search::search_tree::SearchTreeError;
use routee_compass_core::state::StateVariable;

/// A map on a line: vertex `v` lies at x = 100 * v, and a point is at the
/// distance |x - 100 * v| from it, in meters.
struct LineMap {
    edges: Vec<(usize, usize)>,
    index: SpatialIndexType,
}

impl LineMap {
    fn to_vertex(p: &MapMatchingPoint, v: usize) -> u64 {
        (p.x - 100 * v as i64).unsigned_abs() * 1000
    }
}

impl MapModel for LineMap {
    fn spatial_index_type(&self) -> SpatialIndexType {
        self.index
    }

    fn nearest_graph_ids(&self, point: &MapMatchingPoint, k: usize) -> Vec<NearestSearchResult> {
        let mut ids: Vec<usize> = (0..self.edges.len()).collect();
        ids.sort_by_key(|e| match self.distance_to_edge(point, &EdgeListId(0), &EdgeId(*e)) {
            Distance::Millimeters(d) => d,
            Distance::Infinite => u64::MAX,
        });
        ids.into_iter()
            .take(k)
            .map(|e| match self.index {
                SpatialIndexType::EdgeOriented => {
                    NearestSearchResult::NearestEdge(EdgeListId(0), EdgeId(e))
                }
                SpatialIndexType::VertexOriented => {
                    NearestSearchResult::NearestVertex(VertexId(self.edges[e].0))
                }
            })
            .collect()
    }

    fn nearest_graph_id(&self, point: &MapMatchingPoint) -> Result<NearestSearchResult, MapError> {
        self.nearest_graph_ids(point, 1)
            .first()
            .copied()
            .ok_or(MapError::EmptyIndex)
    }

    fn distance_to_edge(
        &self,
        point: &MapMatchingPoint,
        _edge_list_id: &EdgeListId,
        edge_id: &EdgeId,
    ) -> Distance {
        match self.edges.get(edge_id.0) {
            Some((a, b)) => Distance::new(std::cmp::min(
                Self::to_vertex(point, *a),
                Self::to_vertex(point, *b),
            )),
            None => Distance::Infinite,
        }
    }

    fn distance_to_vertex(
        &self,
        point: &MapMatchingPoint,
        vertex_id: &VertexId,
    ) -> Result<Distance, MapError> {
        Ok(Distance::new(Self::to_vertex(point, vertex_id.0)))
    }

    fn distance_between(&self, a: &MapMatchingPoint, b: &MapMatchingPoint) -> Option<Distance> {
        Some(Distance::new((a.x - b.x).unsigned_abs() * 1000))
    }
}

/// Prices each edge by a table, and counts the edges in the state.
struct Priced {
    costs: Vec<u64>,
}

impl TraversalModel for Priced {
    fn traverse_edge(
        &self,
        _edge: &Edge,
        prev_state: &Vec<StateVariable>,
    ) -> Result<Vec<StateVariable>, ModelError> {
        match prev_state.first() {
            Some(n) => Ok(vec![StateVariable(n.0 + 1)]),
            None => Err(ModelError::InvalidState),
        }
    }

    fn estimate(&self, _src: VertexId, _dst: VertexId) -> Cost {
        Cost::zero()
    }
}

impl CostModel for Priced {
    fn traversal_cost(
        &self,
        edge: &Edge,
        _prev_state: &Vec<StateVariable>,
        _next_state: &Vec<StateVariable>,
    ) -> Result<TraversalCost, ModelError> {
        match self.costs.get(edge.edge_id.0) {
            Some(c) => Ok(TraversalCost {
                objective_cost: Cost::new(*c),
                total_cost: Cost::new(2 * *c),
            }),
            None => Err(ModelError::MissingData),
        }
    }
}

// A diamond with a shortcut:
//   0 -e0(1)-> 1 -e1(1)-> 3
//   0 -e2(5)-> 2 -e3(1)-> 3
//   0 -e4(9)-> 3
//   3 -e5(1)-> 4
fn diamond() -> (Vec<(usize, usize)>, Vec<u64>) {
    (
        vec![(0, 1), (1, 3), (0, 2), (2, 3), (0, 3), (3, 4)],
        vec![1, 1, 5, 1, 9, 1],
    )
}

fn instance<C: ConstraintModel, L: LabelModel>(
    constraint_model: C,
    label_model: L,
    iteration_limit: usize,
) -> SearchInstance<Priced, Priced, C, L, LineMap> {
    let (edges, costs) = diamond();
    SearchInstance {
        graph: Graph::new(6, vec![edges.clone()]).unwrap(),
        map_model: LineMap {
            edges,
            index: SpatialIndexType::EdgeOriented,
        },
        traversal_model: Priced {
            costs: costs.clone(),
        },
        cost_model: Priced { costs },
        constraint_model,
        label_model,
        initial_state: vec![StateVariable::zero()],
        iteration_limit,
    }
}

fn edge_ids(route: &[routee_compass_core::search::edge_traversal::EdgeTraversal]) -> Vec<usize> {
    route.iter().map(|e| e.edge_id.0).collect()
}

#[test]
fn graph_refuses_edges_to_missing_vertices() {
    let r = Graph::new(2, vec![vec![(0, 1)], vec![(1, 0), (1, 2)]]);
    assert_eq!(
        r.err(),
        Some(GraphError::VertexOutOfRange(EdgeListId(1), EdgeId(1)))
    );
    assert!(Graph::new(0, vec![]).is_ok());
}

#[test]
fn graph_answers_end_points_and_adjacency() {
    let g = Graph::new(3, vec![vec![(0, 1), (1, 2)], vec![(0, 2), (2, 0)]]).unwrap();
    assert_eq!(g.vertex_count(), 3);
    assert_eq!(g.edge_list_count(), 2);
    assert_eq!(g.src_vertex_id(&EdgeListId(1), &EdgeId(1)), Ok(VertexId(2)));
    assert_eq!(g.dst_vertex_id(&EdgeListId(1), &EdgeId(1)), Ok(VertexId(0)));
    assert_eq!(g.get_edge(&EdgeListId(0), &EdgeId(1)), Ok(Edge::new(0, 1, 1, 2)));
    assert_eq!(
        g.src_vertex_id(&EdgeListId(0), &EdgeId(2)),
        Err(GraphError::UnknownEdge(EdgeListId(0), EdgeId(2)))
    );
    assert_eq!(
        g.dst_vertex_id(&EdgeListId(2), &EdgeId(0)),
        Err(GraphError::UnknownEdge(EdgeListId(2), EdgeId(0)))
    );
    let e = |l: usize, i: usize| (EdgeListId(l), EdgeId(i));
    assert_eq!(
        *g.incident_edges(VertexId(0), Direction::Forward),
        vec![e(0, 0), e(1, 0)]
    );
    assert_eq!(
        *g.incident_edges(VertexId(2), Direction::Reverse),
        vec![e(0, 1), e(1, 0)]
    );
    assert_eq!(*g.incident_edges(VertexId(0), Direction::Reverse), vec![e(1, 1)]);
    assert!(g.incident_edges(VertexId(9), Direction::Forward).is_empty());
}

#[test]
fn search_finds_the_cheapest_path() {
    let si = instance(NoRestriction {}, VertexLabelModel {}, 100);
    let result =
        run_vertex_oriented(VertexId(0), Some(VertexId(4)), &Direction::Forward, true, &si)
            .unwrap();
    let route = result.tree.backtrack(VertexId(4)).unwrap();
    assert_eq!(edge_ids(&route), vec![0, 1, 5]);
    // the tree records the costs added up from the source
    let costs: Vec<u64> = route.iter().map(|e| e.cost.objective_cost.0).collect();
    assert_eq!(costs, vec![1, 2, 3]);
    assert_eq!(route[2].cost.total_cost, Cost::new(6));
    assert_eq!(route[2].result_state, vec![StateVariable(3)]);
}

#[test]
fn search_without_target_expands_the_whole_graph() {
    let si = instance(NoRestriction {}, VertexLabelModel {}, 100);
    let result = run_vertex_oriented(VertexId(0), None, &Direction::Forward, true, &si).unwrap();
    assert_eq!(result.tree.len(), 5);
    assert_eq!(result.iterations, 5);
    for v in 0..5 {
        assert!(result.tree.backtrack(VertexId(v)).is_ok());
    }
    assert!(result.tree.backtrack(VertexId(5)).is_err());
    let route = result.tree.backtrack(VertexId(3)).unwrap();
    assert_eq!(edge_ids(&route), vec![0, 1]);
}

#[test]
fn search_of_a_single_vertex_returns_the_root() {
    let si = instance(NoRestriction {}, VertexLabelModel {}, 100);
    let result = run_vertex_oriented(VertexId(5), None, &Direction::Forward, true, &si).unwrap();
    assert_eq!(result.tree.len(), 1);
    assert!(result.tree.get(&Label::Vertex(VertexId(5))).unwrap().is_root());
    assert!(result.tree.backtrack(VertexId(5)).unwrap().is_empty());
}

#[test]
fn search_fails_where_no_path_exists() {
    let si = instance(NoRestriction {}, VertexLabelModel {}, 100);
    let r = run_vertex_oriented(VertexId(4), Some(VertexId(0)), &Direction::Forward, true, &si);
    assert!(matches!(
        r,
        Err(SearchError::NoPathExistsBetweenVertices(
            VertexId(4),
            VertexId(0),
            1
        ))
    ));
}

#[test]
fn reverse_search_follows_edges_backwards() {
    let si = instance(NoRestriction {}, VertexLabelModel {}, 100);
    let result =
        run_vertex_oriented(VertexId(4), Some(VertexId(0)), &Direction::Reverse, true, &si)
            .unwrap();
    let route = result.tree.backtrack(VertexId(0)).unwrap();
    // in the order of travel, from 0 to 4
    assert_eq!(edge_ids(&route), vec![0, 1, 5]);
}

#[test]
fn search_skips_edges_that_are_not_admitted() {
    // the turn from edge 0 into edge 1 is forbidden
    let restrictions = TurnRestrictionFrontierService::new(vec![RestrictionRecord {
        prev_edge_id: EdgeId(0),
        next_edge_id: EdgeId(1),
    }]);
    let si = instance(restrictions, VertexLabelModel {}, 100);
    let result =
        run_vertex_oriented(VertexId(0), Some(VertexId(3)), &Direction::Forward, true, &si)
            .unwrap();
    let route = result.tree.backtrack(VertexId(3)).unwrap();
    assert_eq!(edge_ids(&route), vec![2, 3]);
}

#[test]
fn search_stops_at_the_iteration_limit() {
    let si = instance(NoRestriction {}, VertexLabelModel {}, 2);
    let r = run_vertex_oriented(VertexId(0), Some(VertexId(4)), &Direction::Forward, true, &si);
    assert!(matches!(r, Err(SearchError::IterationLimitReached(2))));
    // five labels can be expanded within a limit of five
    let si = instance(NoRestriction {}, VertexLabelModel {}, 5);
    let r = run_vertex_oriented(VertexId(0), None, &Direction::Forward, true, &si).unwrap();
    assert_eq!(r.iterations, 5);
    let si = instance(NoRestriction {}, VertexLabelModel {}, 4);
    let r = run_vertex_oriented(VertexId(0), None, &Direction::Forward, true, &si);
    assert!(matches!(r, Err(SearchError::IterationLimitReached(4))));
    // a search that expands nothing needs no iterations
    let si = instance(NoRestriction {}, VertexLabelModel {}, 0);
    let r = run_vertex_oriented(VertexId(0), Some(VertexId(0)), &Direction::Forward, true, &si);
    assert_eq!(r.unwrap().iterations, 0);
}

#[test]
fn search_with_state_labels_prunes_dominated_labels() {
    // the state counts the edges: a label with more edges and no more cost
    // dominates one with fewer edges
    let si = instance(NoRestriction {}, IntStateLabelModel {}, 100);
    let result = run_vertex_oriented(VertexId(0), None, &Direction::Forward, true, &si).unwrap();
    // at vertex 3: (state 2, cost 2) dominates (state 1, cost 9); (state 2, cost 6) is
    // the same label as (state 2, cost 2), and dearer
    let labels = result.tree.get_labels(VertexId(3));
    assert_eq!(
        labels,
        vec![Label::VertexWithIntState {
            vertex_id: VertexId(3),
            state: 2
        }]
    );
    let route = result.tree.backtrack(VertexId(3)).unwrap();
    assert_eq!(edge_ids(&route), vec![0, 1]);
}

#[test]
fn shortest_path_is_empty_where_no_path_exists() {
    let si = instance(NoRestriction {}, VertexLabelModel {}, 100);
    let e = |i: usize| (EdgeListId(0), EdgeId(i));
    assert_eq!(
        run_shortest_path(VertexId(0), VertexId(4), &si).unwrap(),
        vec![e(0), e(1), e(5)]
    );
    assert_eq!(run_shortest_path(VertexId(4), VertexId(0), &si).unwrap(), vec![]);
    assert_eq!(run_shortest_path(VertexId(2), VertexId(2), &si).unwrap(), vec![]);
    let limited = instance(NoRestriction {}, VertexLabelModel {}, 1);
    assert!(matches!(
        run_shortest_path(VertexId(0), VertexId(4), &limited),
        Err(MapMatchingError::SearchError(
            SearchError::IterationLimitReached(1)
        ))
    ));
}

#[test]
fn shortest_path_refuses_a_vertex_that_the_graph_lacks() {
    let si = instance(NoRestriction {}, VertexLabelModel {}, 100);
    assert!(matches!(
        run_shortest_path(VertexId(9), VertexId(4), &si),
        Err(MapMatchingError::SearchError(SearchError::VertexLookup(
            VertexId(9)
        )))
    ));
    assert!(matches!(
        run_shortest_path(VertexId(0), VertexId(8), &si),
        Err(MapMatchingError::SearchError(SearchError::VertexLookup(
            VertexId(8)
        )))
    ));
    assert!(matches!(
        run_shortest_path(VertexId(9), VertexId(8), &si),
        Err(MapMatchingError::SearchError(SearchError::VertexLookup(
            VertexId(9)
        )))
    ));
}

#[test]
fn path_of_a_search_follows_its_outcome() {
    let si = instance(NoRestriction {}, VertexLabelModel {}, 100);
    let e = |i: usize| (EdgeListId(0), EdgeId(i));
    let found = run_vertex_oriented(VertexId(0), Some(VertexId(4)), &Direction::Forward, true, &si);
    assert_eq!(
        path_of_search(found, VertexId(4)).unwrap(),
        vec![e(0), e(1), e(5)]
    );
    // the same tree, asked for a vertex on the way
    let found = run_vertex_oriented(VertexId(0), Some(VertexId(4)), &Direction::Forward, true, &si);
    assert_eq!(
        path_of_search(found, VertexId(3)).unwrap(),
        vec![e(0), e(1)]
    );
    // a tree that holds no label at the end
    let found = run_vertex_oriented(VertexId(3), Some(VertexId(4)), &Direction::Forward, true, &si);
    assert!(matches!(
        path_of_search(found, VertexId(0)),
        Err(MapMatchingError::SearchTreeError(SearchTreeError::NoPathTo(
            VertexId(0)
        )))
    ));
    let none = Err(SearchError::NoPathExistsBetweenVertices(
        VertexId(4),
        VertexId(0),
        1,
    ));
    assert_eq!(path_of_search(none, VertexId(0)).unwrap(), vec![]);
    let failed = Err(SearchError::IterationLimitReached(7));
    assert!(matches!(
        path_of_search(failed, VertexId(0)),
        Err(MapMatchingError::SearchError(
            SearchError::IterationLimitReached(7)
        ))
    ));
}

#[test]
fn distance_to_an_edge_is_what_the_map_answers() {
    let si = instance(NoRestriction {}, VertexLabelModel {}, 100);
    // edge 1 goes from vertex 1 (x = 100) to vertex 3 (x = 300)
    let p = MapMatchingPoint::new(120, 0);
    assert_eq!(
        compute_distance_to_edge(&p, &EdgeListId(0), &EdgeId(1), &si.map_model),
        Distance::new(20_000)
    );
    let q = MapMatchingPoint::new(330, 0);
    assert_eq!(
        compute_distance_to_edge(&q, &EdgeListId(0), &EdgeId(1), &si.map_model),
        Distance::new(30_000)
    );
    assert_eq!(
        compute_distance_to_edge(&q, &EdgeListId(0), &EdgeId(77), &si.map_model),
        Distance::Infinite
    );
}

#[test]
fn candidates_are_taken_from_the_first_entries_only() {
    let si = instance(NoRestriction {}, VertexLabelModel {}, 100);
    let p = MapMatchingPoint::new(390, 0);
    let one = find_candidates(&p, &si.map_model, 1).unwrap();
    assert_eq!(one, vec![(EdgeListId(0), EdgeId(5), Distance::new(10_000))]);
    // with no entry to look at, the nearest entry of the index is taken
    let none = find_candidates(&p, &si.map_model, 0).unwrap();
    assert_eq!(none, vec![(EdgeListId(0), EdgeId(5), Distance::new(10_000))]);
}

#[test]
fn closest_vertex_of_an_edge() {
    let si = instance(NoRestriction {}, VertexLabelModel {}, 100);
    // edge 1 goes from vertex 1 (x = 100) to vertex 3 (x = 300)
    let near_src = MapMatchingPoint::new(120, 0);
    let near_dst = MapMatchingPoint::new(290, 0);
    let mid = MapMatchingPoint::new(200, 0);
    let get = |p: &MapMatchingPoint| {
        get_closest_vertex(p, &EdgeListId(0), &EdgeId(1), &si.graph, &si.map_model).unwrap()
    };
    assert_eq!(get(&near_src), (VertexId(1), Distance::new(20_000)));
    assert_eq!(get(&near_dst), (VertexId(3), Distance::new(10_000)));
    assert_eq!(get(&mid), (VertexId(1), Distance::new(100_000)));
    let missing = get_closest_vertex(
        &mid,
        &EdgeListId(0),
        &EdgeId(77),
        &si.graph,
        &si.map_model,
    );
    assert!(matches!(missing, Err(MapMatchingError::InternalError(_))));
}

#[test]
fn candidates_come_nearest_first() {
    let si = instance(NoRestriction {}, VertexLabelModel {}, 100);
    let p = MapMatchingPoint::new(390, 0);
    let found = find_candidates(&p, &si.map_model, 3).unwrap();
    assert_eq!(found.len(), 3);
    // edge 5 (3 -> 4) is 10 m away; edges 1, 3, 4 end at vertex 3, 90 m away
    assert_eq!(found[0], (EdgeListId(0), EdgeId(5), Distance::new(10_000)));
    assert_eq!(found[1].2, Distance::new(90_000));
    assert_eq!(found[1].1, EdgeId(1));
    assert_eq!(found[2].1, EdgeId(3));
}

#[test]
fn candidates_need_an_index_of_edges() {
    let (edges, _) = diamond();
    let map = LineMap {
        edges,
        index: SpatialIndexType::VertexOriented,
    };
    let r = find_candidates(&MapMatchingPoint::new(0, 0), &map, 3);
    assert!(matches!(r, Err(MapMatchingError::InternalError(_))));
    let empty = LineMap {
        edges: vec![],
        index: SpatialIndexType::EdgeOriented,
    };
    let r = find_candidates(&MapMatchingPoint::new(0, 0), &empty, 3);
    assert!(matches!(r, Err(MapMatchingError::InternalError(_))));
}

/// Fails on the edges that cost 5, and counts the others.
struct Fragile {
    fail_state: bool,
}

impl TraversalModel for Fragile {
    fn traverse_edge(
        &self,
        edge: &Edge,
        prev_state: &Vec<StateVariable>,
    ) -> Result<Vec<StateVariable>, ModelError> {
        if self.fail_state && edge.edge_id.0 == 2 {
            Err(ModelError::MissingData)
        } else {
            Ok(vec![StateVariable(prev_state[0].0 + 1)])
        }
    }

    fn estimate(&self, _src: VertexId, _dst: VertexId) -> Cost {
        Cost::zero()
    }
}

impl CostModel for Fragile {
    fn traversal_cost(
        &self,
        edge: &Edge,
        _prev_state: &Vec<StateVariable>,
        _next_state: &Vec<StateVariable>,
    ) -> Result<TraversalCost, ModelError> {
        if !self.fail_state && edge.edge_id.0 == 2 {
            Err(ModelError::MissingData)
        } else {
            Ok(TraversalCost::default())
        }
    }
}

/// Labels every state at vertex 3 with vertex 0, and cannot compare.
struct Confused {
    everywhere: bool,
}

impl LabelModel for Confused {
    fn order(&self, prev: Label, next: Label) -> Result<LabelOrder, LabelModelError> {
        Err(LabelModelError::Incomparable(prev, next))
    }

    fn compare(&self, prev: &Label, next: &Label) -> Result<LabelOrder, LabelModelError> {
        self.order(*prev, *next)
    }

    fn label_from_state(
        &self,
        vertex_id: VertexId,
        state: &Vec<StateVariable>,
    ) -> Result<Label, LabelModelError> {
        if self.everywhere && vertex_id.0 == 3 {
            Ok(Label::Vertex(VertexId(0)))
        } else if vertex_id.0 == 3 {
            Err(LabelModelError::BadState(vertex_id))
        } else {
            Ok(Label::VertexWithIntState {
                vertex_id,
                state: state[0].0 as usize,
            })
        }
    }
}

/// Labels states by the number of edges, and cannot compare any two labels.
struct Incomparable {}

impl LabelModel for Incomparable {
    fn order(&self, prev: Label, next: Label) -> Result<LabelOrder, LabelModelError> {
        Err(LabelModelError::Incomparable(prev, next))
    }

    fn compare(&self, prev: &Label, next: &Label) -> Result<LabelOrder, LabelModelError> {
        self.order(*prev, *next)
    }

    fn label_from_state(
        &self,
        vertex_id: VertexId,
        state: &Vec<StateVariable>,
    ) -> Result<Label, LabelModelError> {
        Ok(Label::VertexWithIntState {
            vertex_id,
            state: state[0].0 as usize,
        })
    }
}

fn fragile<L: LabelModel>(fail_state: bool, label_model: L) -> SearchInstance<Fragile, Fragile, NoRestriction, L, LineMap> {
    let (edges, _) = diamond();
    SearchInstance {
        graph: Graph::new(6, vec![edges.clone()]).unwrap(),
        map_model: LineMap {
            edges,
            index: SpatialIndexType::EdgeOriented,
        },
        traversal_model: Fragile { fail_state },
        cost_model: Fragile { fail_state },
        constraint_model: NoRestriction {},
        label_model,
        initial_state: vec![StateVariable::zero()],
        iteration_limit: 100,
    }
}

#[test]
fn search_refuses_vertices_that_the_graph_does_not_have() {
    let si = instance(NoRestriction {}, VertexLabelModel {}, 100);
    let r = run_vertex_oriented(VertexId(6), None, &Direction::Forward, true, &si);
    assert!(matches!(r, Err(SearchError::VertexLookup(VertexId(6)))));
    let r = run_vertex_oriented(VertexId(0), Some(VertexId(9)), &Direction::Forward, false, &si);
    assert!(matches!(r, Err(SearchError::VertexLookup(VertexId(9)))));
}

#[test]
fn search_fails_when_a_model_fails() {
    let si = fragile(true, VertexLabelModel {});
    let r = run_vertex_oriented(VertexId(0), None, &Direction::Forward, true, &si);
    assert!(matches!(
        r,
        Err(SearchError::StateUpdate(EdgeListId(0), EdgeId(2)))
    ));
    let si = fragile(false, VertexLabelModel {});
    let r = run_vertex_oriented(VertexId(0), None, &Direction::Forward, true, &si);
    assert!(matches!(
        r,
        Err(SearchError::CostComputation(EdgeListId(0), EdgeId(2)))
    ));
}

#[test]
fn search_fails_when_the_label_model_fails() {
    // no label for vertex 3
    let si = instance(NoRestriction {}, Confused { everywhere: false }, 100);
    let r = run_vertex_oriented(VertexId(0), None, &Direction::Forward, true, &si);
    assert!(matches!(r, Err(SearchError::LabelFailure(VertexId(3)))));
    // a label that stands at another vertex
    let si = instance(NoRestriction {}, Confused { everywhere: true }, 100);
    let r = run_vertex_oriented(VertexId(0), None, &Direction::Forward, true, &si);
    assert!(matches!(r, Err(SearchError::LabelFailure(VertexId(3)))));
}

#[test]
fn search_fails_when_labels_cannot_be_compared() {
    // vertex 3 is reached with one edge and with two: the second label must be
    // compared with the first
    let si = instance(NoRestriction {}, Incomparable {}, 100);
    let r = run_vertex_oriented(VertexId(0), None, &Direction::Forward, true, &si);
    assert!(matches!(
        r,
        Err(SearchError::SearchTreeFailure(
            SearchTreeError::PruningError(LabelModelError::Incomparable(_, _))
        ))
    ));
}

#[test]
fn compute_path_traverses_the_edges_in_order() {
    let si = instance(NoRestriction {}, VertexLabelModel {}, 100);
    let e = |i: usize| (EdgeListId(0), EdgeId(i));
    let route = si.compute_path(&vec![e(2), e(3), e(5)]).unwrap();
    assert_eq!(edge_ids(&route), vec![2, 3, 5]);
    // each traversal carries the cost of its edge and the state after it
    let costs: Vec<u64> = route.iter().map(|t| t.cost.objective_cost.0).collect();
    assert_eq!(costs, vec![5, 1, 1]);
    let states: Vec<i64> = route.iter().map(|t| t.result_state[0].0).collect();
    assert_eq!(states, vec![1, 2, 3]);
    assert!(si.compute_path(&vec![]).unwrap().is_empty());
}

#[test]
fn compute_path_fails_on_the_first_edge_that_is_not_in_the_graph() {
    let si = instance(NoRestriction {}, VertexLabelModel {}, 100);
    let e = |i: usize| (EdgeListId(0), EdgeId(i));
    let r = si.compute_path(&vec![e(0), e(17), e(1), e(18)]);
    assert!(matches!(
        r,
        Err(SearchError::EdgeLookup(EdgeListId(0), EdgeId(17)))
    ));
    let r = si.compute_path(&vec![(EdgeListId(3), EdgeId(0))]);
    assert!(matches!(
        r,
        Err(SearchError::EdgeLookup(EdgeListId(3), EdgeId(0)))
    ));
    let broken = fragile(true, VertexLabelModel {});
    let r = broken.compute_path(&vec![e(0), e(2)]);
    assert!(matches!(
        r,
        Err(SearchError::StateUpdate(EdgeListId(0), EdgeId(2)))
    ));
    let broken = fragile(false, VertexLabelModel {});
    let r = broken.compute_path(&vec![e(0), e(2)]);
    assert!(matches!(
        r,
        Err(SearchError::CostComputation(EdgeListId(0), EdgeId(2)))
    ));
}

#[test]
fn edge_oriented_search_leads_from_edge_to_edge() {
    let si = instance(NoRestriction {}, VertexLabelModel {}, 100);
    let e = |i: usize| (EdgeListId(0), EdgeId(i));
    // from edge 0 (0 -> 1) to edge 5 (3 -> 4): the search leads from vertex 1 to vertex 3
    let result = run_edge_oriented(e(0), Some(e(5)), &Direction::Forward, true, &si).unwrap();
    assert!(result.tree.get(&Label::Vertex(VertexId(1))).unwrap().is_root());
    let route = result.tree.backtrack(VertexId(3)).unwrap();
    assert_eq!(edge_ids(&route), vec![1]);
    // against the edges: from the source of edge 5 back to the destination of edge 0
    let result = run_edge_oriented(e(5), Some(e(0)), &Direction::Reverse, true, &si).unwrap();
    assert!(result.tree.get(&Label::Vertex(VertexId(3))).unwrap().is_root());
    let route = result.tree.backtrack(VertexId(1)).unwrap();
    assert_eq!(edge_ids(&route), vec![1]);
    // without a target the graph behind the edge is expanded
    let result = run_edge_oriented(e(1), None, &Direction::Forward, true, &si).unwrap();
    assert_eq!(result.tree.len(), 2);
}

#[test]
fn edge_oriented_search_refuses_edges_that_the_graph_does_not_have() {
    let si = instance(NoRestriction {}, VertexLabelModel {}, 100);
    let e = |i: usize| (EdgeListId(0), EdgeId(i));
    let r = run_edge_oriented(e(9), Some(e(5)), &Direction::Forward, true, &si);
    assert!(matches!(
        r,
        Err(SearchError::EdgeLookup(EdgeListId(0), EdgeId(9)))
    ));
    let r = run_edge_oriented(e(0), Some((EdgeListId(1), EdgeId(0))), &Direction::Forward, true, &si);
    assert!(matches!(
        r,
        Err(SearchError::EdgeLookup(EdgeListId(1), EdgeId(0)))
    ));
}

#[test]
fn relaxing_an_edge_grows_the_tree_and_the_frontier() {
    let si = instance(NoRestriction {}, VertexLabelModel {}, 100);
    let root = Label::Vertex(VertexId(0));
    let mut tree = SearchTree::new(Direction::Forward);
    tree.set_root(root).unwrap();
    let mut frontier = InternalPriorityQueue::new();
    let from = FrontierInstance {
        prev_label: root,
        prev_edge: None,
        prev_state: vec![StateVariable::zero()],
    };
    let nothing = TraversalCost::default();
    let e = |i: usize| (EdgeListId(0), EdgeId(i));
    // edge 4 goes from vertex 0 to vertex 3 at a cost of 9
    let direction = Direction::Forward;
    relax_edge(
        &si,
        &direction,
        VertexId(0),
        None,
        &from,
        nothing,
        e(4),
        &mut tree,
        &mut frontier,
    )
    .unwrap();
    assert_eq!(tree.len(), 2);
    let reached = Label::Vertex(VertexId(3));
    let cost = tree.get(&reached).unwrap().traversal_cost().unwrap().objective_cost;
    assert_eq!(cost, Cost::new(9));
    let waiting = frontier.pop().unwrap();
    assert_eq!(waiting.0, reached);
    assert_eq!(waiting.1 .0, Cost::new(9));
    assert!(frontier.pop().is_none());
    // the same label at no smaller cost is left out
    relax_edge(
        &si,
        &direction,
        VertexId(0),
        None,
        &from,
        nothing,
        e(4),
        &mut tree,
        &mut frontier,
    )
    .unwrap();
    assert_eq!(tree.len(), 2);
    assert!(frontier.is_empty());
    // an edge that the traversal model fails on is the failure of the step
    let fragile = SearchInstance {
        graph: Graph::new(6, vec![diamond().0]).unwrap(),
        map_model: LineMap {
            edges: diamond().0,
            index: SpatialIndexType::EdgeOriented,
        },
        traversal_model: Fragile { fail_state: true },
        cost_model: Priced { costs: diamond().1 },
        constraint_model: NoRestriction {},
        label_model: VertexLabelModel {},
        initial_state: vec![StateVariable::zero()],
        iteration_limit: 100,
    };
    let mut other = SearchTree::new(Direction::Forward);
    other.set_root(root).unwrap();
    let r = relax_edge(
        &fragile,
        &direction,
        VertexId(0),
        None,
        &from,
        nothing,
        e(2),
        &mut other,
        &mut frontier,
    );
    assert!(matches!(
        r,
        Err(SearchError::StateUpdate(EdgeListId(0), EdgeId(2)))
    ));
    assert_eq!(other.len(), 1);
}
