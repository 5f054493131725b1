//! Map matching on a 10x10 grid network.
//!
//! - Vertices: 0-99, where vertex ID = row * 10 + col
//! - Grid origin: (-105.0, 40.0) at vertex 0, spacing 0.01 degrees
//! - Each vertex has up to 2 edges: horizontal (to col+1) and vertical (to
//!   row+1); within a row, edges are numbered H, V, H, V, ... from left to
//!   right, so a full row has 19 edges.

use routee_compass_core::constraint::SpatialIndexType;
use routee_compass_core::cost::{Cost, TraversalCost};
use routee_compass_core::graph::Graph;
use routee_compass_core::label::VertexLabelModel;
use routee_compass_core::map_matching::distance::Distance;
use routee_compass_core::map_matching::lcss::join::join_segments;
use routee_compass_core::map_matching::lcss::lcss_map_matching::{LcssConfig, LcssMapMatching};
use routee_compass_core::map_matching::lcss::lcss_ops::{find_stationary_points, new_path_for_trace};
use routee_compass_core::map_matching::lcss::trajectory_segment::TrajectorySegment;
use routee_compass_core::map_matching::map_matching_error::MapMatchingError;
use routee_compass_core::map_matching::map_matching_result::MapMatchingResult;
use routee_compass_core::map_matching::map_matching_trace::{MapMatchingPoint, MapMatchingTrace};
use routee_compass_core::map_matching::map_model::{MapError, MapModel, NearestSearchResult};
use routee_compass_core::network::{Edge, EdgeId, EdgeListId, VertexId};
use routee_compass_core::route_output::{RouteOutput, StateFeature};
use routee_compass_core::summary::SummaryOp;
use routee_compass_core::search::models::{CostModel, ModelError, NoRestriction, TraversalModel};
use routee_compass_core::search::search_instance::SearchInstance;
use routee_compass_core::state::StateVariable;

const GRID_COLS: usize = 10;
const GRID_ROWS: usize = 10;
const BASE_X: f64 = -105.0;
const BASE_Y: f64 = 40.0;
const SPACING: f64 = 0.01;

/// Computes the edge ID for a horizontal edge (going right) at the given grid position.
/// Returns None if the position is at the right edge of the grid.
fn horizontal_edge_id(row: usize, col: usize) -> Option<i64> {
    if col >= GRID_COLS - 1 {
        return None;
    }
    let edges_before_row = edges_per_row() * row;
    let edge_in_row = 2 * col;
    Some((edges_before_row + edge_in_row) as i64)
}

/// Computes the edge ID for a vertical edge (going up) at the given grid position.
/// Returns None if the position is at the top row of the grid.
fn vertical_edge_id(row: usize, col: usize) -> Option<i64> {
    if row >= GRID_ROWS - 1 {
        return None;
    }
    let edges_before_row = edges_per_row() * row;
    let edge_in_row = if col < GRID_COLS - 1 {
        2 * col + 1
    } else {
        2 * (GRID_COLS - 1)
    };
    Some((edges_before_row + edge_in_row) as i64)
}

/// Number of edges per row (9 horizontal + 10 vertical = 19)
fn edges_per_row() -> usize {
    (GRID_COLS - 1) + GRID_COLS
}


/// Returns the x-coordinate for a column
fn col_x(col: usize) -> f64 {
    BASE_X + (col as f64 * SPACING)
}

/// Returns the y-coordinate for a row
fn row_y(row: usize) -> f64 {
    BASE_Y + (row as f64 * SPACING)
}

/// Returns the midpoint x-coordinate between two columns (for horizontal edge midpoint)
fn horizontal_edge_midpoint_x(col: usize) -> f64 {
    col_x(col) + SPACING / 2.0
}

/// Returns the midpoint y-coordinate between two rows (for vertical edge midpoint)
fn vertical_edge_midpoint_y(row: usize) -> f64 {
    row_y(row) + SPACING / 2.0
}

fn haversine_meters(x1: f64, y1: f64, x2: f64, y2: f64) -> f64 {
    let r = 6_371_000.0_f64;
    let (lat1, lat2) = (y1.to_radians(), y2.to_radians());
    let dlat = (y2 - y1).to_radians();
    let dlon = (x2 - x1).to_radians();
    let a = (dlat / 2.0).sin().powi(2) + lat1.cos() * lat2.cos() * (dlon / 2.0).sin().powi(2);
    2.0 * r * a.sqrt().atan2((1.0 - a).sqrt())
}

fn millimeters(meters: f64) -> Distance {
    if meters.is_finite() {
        Distance::new((meters * 1000.0) as u64)
    } else {
        Distance::Infinite
    }
}

fn degrees(fixed: i64) -> f64 {
    fixed as f64 / 1e7
}

fn fixed(degrees: f64) -> i64 {
    (degrees * 1e7).round() as i64
}

fn point(x: f64, y: f64) -> MapMatchingPoint {
    MapMatchingPoint::new(fixed(x), fixed(y))
}

/// The geometry of the grid: straight edges between the vertices.
struct GridMap {
    edges: Vec<(usize, usize)>,
    index: SpatialIndexType,
}

impl GridMap {
    fn vertex_xy(v: usize) -> (f64, f64) {
        (col_x(v % GRID_COLS), row_y(v / GRID_COLS))
    }

    fn edge_distance(&self, p: &MapMatchingPoint, e: usize) -> f64 {
        let (src, dst) = self.edges[e];
        let (ax, ay) = Self::vertex_xy(src);
        let (bx, by) = Self::vertex_xy(dst);
        let (px, py) = (degrees(p.x), degrees(p.y));
        let (dx, dy) = (bx - ax, by - ay);
        let len2 = dx * dx + dy * dy;
        let t = if len2 == 0.0 {
            0.0
        } else {
            (((px - ax) * dx + (py - ay) * dy) / len2).clamp(0.0, 1.0)
        };
        haversine_meters(px, py, ax + t * dx, ay + t * dy)
    }
}

impl MapModel for GridMap {
    fn spatial_index_type(&self) -> SpatialIndexType {
        self.index
    }

    fn nearest_graph_ids(&self, point: &MapMatchingPoint, k: usize) -> Vec<NearestSearchResult> {
        let mut order: Vec<usize> = (0..self.edges.len()).collect();
        order.sort_by(|a, b| {
            self.edge_distance(point, *a)
                .partial_cmp(&self.edge_distance(point, *b))
                .unwrap()
        });
        order
            .into_iter()
            .take(k)
            .map(|e| NearestSearchResult::NearestEdge(EdgeListId(0), EdgeId(e)))
            .collect()
    }

    fn nearest_graph_id(&self, point: &MapMatchingPoint) -> Result<NearestSearchResult, MapError> {
        self.nearest_graph_ids(point, 1)
            .first()
            .copied()
            .ok_or(MapError::EmptyIndex)
    }

    fn distance_to_edge(
        &self,
        point: &MapMatchingPoint,
        _edge_list_id: &EdgeListId,
        edge_id: &EdgeId,
    ) -> Distance {
        if edge_id.0 < self.edges.len() {
            millimeters(self.edge_distance(point, edge_id.0))
        } else {
            Distance::Infinite
        }
    }

    fn distance_to_vertex(
        &self,
        point: &MapMatchingPoint,
        vertex_id: &VertexId,
    ) -> Result<Distance, MapError> {
        if vertex_id.0 >= GRID_ROWS * GRID_COLS {
            return Err(MapError::MissingGeometry);
        }
        let (vx, vy) = Self::vertex_xy(vertex_id.0);
        Ok(millimeters(haversine_meters(
            degrees(point.x),
            degrees(point.y),
            vx,
            vy,
        )))
    }

    fn distance_between(&self, a: &MapMatchingPoint, b: &MapMatchingPoint) -> Option<Distance> {
        Some(millimeters(haversine_meters(
            degrees(a.x),
            degrees(a.y),
            degrees(b.x),
            degrees(b.y),
        )))
    }
}

/// Counts the meters travelled in the one state variable, and prices an
/// edge by its length in meters.
struct ByLength {}

fn edge_meters(edge: &Edge) -> u64 {
    let (ax, ay) = GridMap::vertex_xy(edge.src_vertex_id.0);
    let (bx, by) = GridMap::vertex_xy(edge.dst_vertex_id.0);
    haversine_meters(ax, ay, bx, by) as u64
}

impl TraversalModel for ByLength {
    fn traverse_edge(
        &self,
        edge: &Edge,
        prev_state: &Vec<StateVariable>,
    ) -> Result<Vec<StateVariable>, ModelError> {
        match prev_state.first() {
            Some(d) => Ok(vec![StateVariable(d.0 + edge_meters(edge) as i64)]),
            None => Err(ModelError::InvalidState),
        }
    }

    fn estimate(&self, _src: VertexId, _dst: VertexId) -> Cost {
        Cost::zero()
    }
}

impl CostModel for ByLength {
    fn traversal_cost(
        &self,
        edge: &Edge,
        _prev_state: &Vec<StateVariable>,
        _next_state: &Vec<StateVariable>,
    ) -> Result<TraversalCost, ModelError> {
        let c = Cost::new(edge_meters(edge));
        Ok(TraversalCost {
            objective_cost: c,
            total_cost: c,
        })
    }
}

type GridInstance = SearchInstance<ByLength, ByLength, NoRestriction, VertexLabelModel, GridMap>;

fn grid_edges() -> Vec<(usize, usize)> {
    let mut edges = Vec::new();
    for row in 0..GRID_ROWS {
        for col in 0..GRID_COLS {
            let v = row * GRID_COLS + col;
            if col < GRID_COLS - 1 {
                edges.push((v, v + 1));
            }
            if row < GRID_ROWS - 1 {
                edges.push((v, v + GRID_COLS));
            }
        }
    }
    edges
}

fn grid_instance(index: SpatialIndexType) -> GridInstance {
    let edges = grid_edges();
    SearchInstance {
        graph: Graph::new(GRID_ROWS * GRID_COLS, vec![edges.clone()]).unwrap(),
        map_model: GridMap { edges, index },
        traversal_model: ByLength {},
        cost_model: ByLength {},
        constraint_model: NoRestriction {},
        label_model: VertexLabelModel {},
        initial_state: vec![StateVariable::zero()],
        iteration_limit: 10_000,
    }
}

fn lcss() -> LcssMapMatching {
    LcssMapMatching::from_config(LcssConfig::default()).unwrap()
}

struct TestTrace {
    points: Vec<MapMatchingPoint>,
    expected_edges: Vec<i64>,
}

impl TestTrace {
    fn eastward_horizontal(row: usize, count: usize) -> Self {
        let points = (0..count)
            .map(|col| {
                let x = if col == 0 {
                    col_x(col) + SPACING * 0.25
                } else if col == count - 1 {
                    col_x(col) + SPACING * 0.75
                } else {
                    horizontal_edge_midpoint_x(col)
                };
                let y = row_y(row);
                point(x, y)
            })
            .collect();
        let expected_edges = (0..count)
            .map(|col| horizontal_edge_id(row, col).unwrap())
            .collect();
        Self {
            points,
            expected_edges,
        }
    }

    fn northward_vertical(col: usize, count: usize) -> Self {
        let points = (0..count)
            .map(|row| {
                let y = if row == 0 {
                    row_y(row) + SPACING * 0.25
                } else if row == count - 1 {
                    row_y(row) + SPACING * 0.75
                } else {
                    vertical_edge_midpoint_y(row)
                };
                let x = col_x(col);
                point(x, y)
            })
            .collect();
        let expected_edges = (0..count)
            .map(|row| vertical_edge_id(row, col).unwrap())
            .collect();
        Self {
            points,
            expected_edges,
        }
    }

    fn l_shaped() -> Self {
        // East along row 0 (cols 0, 1), then North along col 2 (rows 0, 1, 2)
        let points = vec![
            point(col_x(0) + SPACING * 0.25, row_y(0)),
            point(col_x(1) + SPACING * 0.25, row_y(0)),
            point(col_x(2), row_y(0) + SPACING * 0.25),
            point(col_x(2), row_y(1) + SPACING * 0.25),
            point(col_x(2), row_y(2) + SPACING * 0.75),
        ];
        let expected_edges = vec![
            horizontal_edge_id(0, 0).unwrap(),
            horizontal_edge_id(0, 1).unwrap(),
            vertical_edge_id(0, 2).unwrap(),
            vertical_edge_id(1, 2).unwrap(),
            vertical_edge_id(2, 2).unwrap(),
        ];
        Self {
            points,
            expected_edges,
        }
    }

    fn noisy_eastward_horizontal(row: usize, count: usize) -> Self {
        let points = (0..count)
            .map(|col| {
                let noise = if col % 2 == 0 { 0.0003 } else { -0.0003 };
                let x = if col == 0 {
                    col_x(col) + SPACING * 0.25
                } else if col == count - 1 {
                    col_x(col) + SPACING * 0.75
                } else {
                    horizontal_edge_midpoint_x(col)
                };
                let y = row_y(row) + noise;
                point(x, y)
            })
            .collect();
        let expected_edges = (0..count)
            .map(|col| horizontal_edge_id(row, col).unwrap())
            .collect();
        Self {
            points,
            expected_edges,
        }
    }
}

fn map_match(points: Vec<MapMatchingPoint>) -> Result<MapMatchingResult, MapMatchingError> {
    let si = grid_instance(SpatialIndexType::EdgeOriented);
    lcss().match_trace(&MapMatchingTrace::new(points), &si)
}

fn run_map_match_test(trace: TestTrace, label: &str) {
    let result = map_match(trace.points).unwrap();
    assert_eq!(
        result.point_matches.len(),
        trace.expected_edges.len(),
        "{}: point_matches length mismatch",
        label
    );
    for (i, (matched, &expected)) in result
        .point_matches
        .iter()
        .zip(trace.expected_edges.iter())
        .enumerate()
    {
        let actual = matched.edge_id.0 as i64;
        assert_eq!(
            actual, expected,
            "{}: mismatch at point {}, expected edge {}, got {}",
            label, i, expected, actual
        );
    }
}

#[test]
fn test_lcss_eastward_horizontal_trace() {
    let trace = TestTrace::eastward_horizontal(0, 5);
    assert_eq!(trace.expected_edges, vec![0, 2, 4, 6, 8]);
    run_map_match_test(trace, "LCSS eastward horizontal");
}

#[test]
fn test_lcss_northward_vertical_trace() {
    let trace = TestTrace::northward_vertical(0, 5);
    assert_eq!(trace.expected_edges, vec![1, 20, 39, 58, 77]);
    run_map_match_test(trace, "LCSS northward vertical");
}

#[test]
fn test_lcss_l_shaped_path() {
    let trace = TestTrace::l_shaped();
    assert_eq!(trace.expected_edges, vec![0, 2, 5, 24, 43]);
    run_map_match_test(trace, "LCSS L-shaped");
}

#[test]
fn test_lcss_noisy_trace() {
    let trace = TestTrace::noisy_eastward_horizontal(0, 5);
    assert_eq!(trace.expected_edges, vec![0, 2, 4, 6, 8]);
    run_map_match_test(trace, "LCSS noisy horizontal");
}

#[test]
fn test_empty_trace_validation() {
    let result = map_match(vec![]);
    assert!(matches!(result, Err(MapMatchingError::EmptyTrace)));
}

#[test]
fn vertex_oriented_index_is_refused() {
    let si = grid_instance(SpatialIndexType::VertexOriented);
    let trace = MapMatchingTrace::new(vec![point(-104.995, 40.0)]);
    let result = lcss().match_trace(&trace, &si);
    assert!(matches!(result, Err(MapMatchingError::InternalError(_))));
}

#[test]
fn test_map_matching_simple_single_point() {
    // Query point near edge 0: (-105.0, 40.0) -> (-104.99, 40.0)
    let result = map_match(vec![point(-104.995, 40.0)]).unwrap();
    assert_eq!(result.point_matches.len(), 1);
    assert_eq!(result.point_matches[0].edge_id, EdgeId(0));
}

#[test]
fn test_map_matching_simple_long_trace() {
    // East along the bottom row of the grid: midpoints of edges 0, 2, ..., 16
    let points: Vec<MapMatchingPoint> = (0..9)
        .map(|i| {
            let x = if i == 0 {
                -105.0 + 0.0025
            } else if i == 8 {
                -105.0 + (i as f64 * 0.01) + 0.0075
            } else {
                -105.0 + (i as f64 * 0.01) + 0.005
            };
            point(x, 40.0)
        })
        .collect();
    let result = map_match(points).unwrap();
    assert_eq!(result.point_matches.len(), 9);
    for (i, matched) in result.point_matches.iter().enumerate() {
        assert_eq!(matched.edge_id.0, i * 2, "Mismatch at index {}", i);
    }
}

#[test]
fn test_map_matching_with_geometry() {
    // points near edges 0 and 2
    let result = map_match(vec![
        point(col_x(0) + SPACING * 0.25, row_y(0)),
        point(col_x(1) + SPACING * 0.75, row_y(0)),
    ])
    .unwrap();
    assert_eq!(result.point_matches.len(), 2);
    assert_eq!(result.point_matches[0].edge_id, EdgeId(0));
    assert_eq!(result.point_matches[1].edge_id, EdgeId(2));
    assert_eq!(result.matched_path.len(), 2);
    assert_eq!(result.matched_path[0], (EdgeListId(0), EdgeId(0)));
    assert_eq!(result.matched_path[1], (EdgeListId(0), EdgeId(2)));
    // the matched path can be traversed edge by edge
    let si = grid_instance(SpatialIndexType::EdgeOriented);
    let route = si.compute_path(&result.matched_path).unwrap();
    assert_eq!(route.len(), 2);
    assert!(route[1].result_state[0].0 > route[0].result_state[0].0);
}

#[test]
fn test_map_matching_formats_and_summaries() {
    // points near edges 0 and 2
    let result = map_match(vec![
        point(col_x(0) + SPACING * 0.25, row_y(0)),
        point(col_x(1) + SPACING * 0.75, row_y(0)),
    ])
    .unwrap();
    let si = grid_instance(SpatialIndexType::EdgeOriented);
    let route = si.compute_path(&result.matched_path).unwrap();
    let state_model = vec![StateFeature {
        name: "trip_distance".to_string(),
        unit: "meters".to_string(),
        accumulator: true,
    }];
    // the summary of the trip distance, as asked for: summed
    let summary_ops = vec![("trip_distance".to_string(), SummaryOp::Sum)];
    let output = RouteOutput::generate(&route, &state_model, &summary_ops).unwrap();
    assert_eq!(output.traversal_summary.len(), 1);
    let trip_distance = &output.traversal_summary[0];
    assert_eq!(trip_distance.name, "trip_distance");
    assert_eq!(trip_distance.unit, "meters");
    assert_eq!(trip_distance.op, SummaryOp::Sum);
    assert_eq!(
        trip_distance.value.0,
        route[0].result_state[0].0 + route[1].result_state[0].0
    );
    // by default an accumulated trip distance is read off at the end
    let output = RouteOutput::generate(&route, &state_model, &vec![]).unwrap();
    assert_eq!(output.traversal_summary[0].op, SummaryOp::Last);
    assert_eq!(output.traversal_summary[0].value, route[1].result_state[0]);
    assert_eq!(output.path, result.matched_path);
}

#[test]
fn matched_path_is_made_of_edges_that_the_points_are_matched_to() {
    let result = map_match(TestTrace::l_shaped().points).unwrap();
    let path: Vec<usize> = result.matched_path.iter().map(|e| e.1 .0).collect();
    assert_eq!(path, vec![0, 2, 5, 24, 43]);
    for m in &result.point_matches {
        assert!(result.matched_path.contains(&(m.edge_list_id, m.edge_id)));
        assert!(!m.distance_to_edge.is_infinite());
    }
}

#[test]
fn new_path_connects_the_ends_of_a_trace() {
    let si = grid_instance(SpatialIndexType::EdgeOriented);
    let trace = MapMatchingTrace::new(TestTrace::northward_vertical(3, 4).points);
    let path = new_path_for_trace(&trace, &si).unwrap();
    let edges: Vec<i64> = path.iter().map(|e| e.1 .0 as i64).collect();
    let expected: Vec<i64> = (0..4).map(|row| vertical_edge_id(row, 3).unwrap()).collect();
    assert_eq!(edges, expected);
}

#[test]
fn joining_a_single_segment_keeps_trace_and_path() {
    let si = grid_instance(SpatialIndexType::EdgeOriented);
    let points = TestTrace::eastward_horizontal(0, 5).points;
    let e = |i: usize| (EdgeListId(0), EdgeId(i));
    let path = vec![e(0), e(0), e(2), e(4), e(4), e(4), e(6), e(8)];
    let segment = TrajectorySegment::new(MapMatchingTrace::new(points.clone()), path);
    let joined = join_segments(&lcss(), vec![segment], &si).unwrap();
    assert_eq!(joined.trace.points, points);
    assert_eq!(joined.path, vec![e(0), e(2), e(4), e(6), e(8)]);
    assert_eq!(joined.matches.len(), 5);
    assert_eq!(joined.score, 1_000_000);
    // joining nothing, or a segment without trace, is refused
    let nothing: Vec<TrajectorySegment> = vec![];
    assert!(matches!(
        join_segments(&lcss(), nothing, &si),
        Err(MapMatchingError::InternalError(_))
    ));
    let empty = TrajectorySegment::new(MapMatchingTrace::new(vec![]), vec![e(0)]);
    assert!(matches!(
        join_segments(&lcss(), vec![empty], &si),
        Err(MapMatchingError::EmptyTrace)
    ));
}

#[test]
fn joining_segments_fills_the_gap_between_their_paths() {
    let si = grid_instance(SpatialIndexType::EdgeOriented);
    let points = TestTrace::eastward_horizontal(0, 5).points;
    let e = |i: usize| (EdgeListId(0), EdgeId(i));
    // the first path ends at vertex 1, the second starts at vertex 3
    let first = TrajectorySegment::new(MapMatchingTrace::new(points[..2].to_vec()), vec![e(0)]);
    let second = TrajectorySegment::new(
        MapMatchingTrace::new(points[2..].to_vec()),
        vec![e(6), e(8)],
    );
    let joined = join_segments(&lcss(), vec![first, second], &si).unwrap();
    assert_eq!(joined.trace.points, points);
    assert_eq!(joined.path, vec![e(0), e(2), e(4), e(6), e(8)]);
    let edges: Vec<usize> = joined.matches.iter().map(|m| m.edge_id.0).collect();
    assert_eq!(edges, vec![0, 2, 4, 6, 8]);
}

#[test]
fn splitting_cuts_the_trace_at_the_cutting_points() {
    let si = grid_instance(SpatialIndexType::EdgeOriented);
    let points = TestTrace::eastward_horizontal(0, 9).points;
    let mut segment = TrajectorySegment::new(MapMatchingTrace::new(points.clone()), vec![]);
    // without cutting points the segment stays as it is
    let parts = segment.split_segment(&si).unwrap();
    assert_eq!(parts.len(), 1);
    assert_eq!(parts[0].trace.points, points);
    segment.cutting_points = vec![3, 6];
    let parts = segment.split_segment(&si).unwrap();
    assert_eq!(parts.len(), 3);
    assert_eq!(parts[0].trace.points, points[..3].to_vec());
    assert_eq!(parts[1].trace.points, points[3..6].to_vec());
    assert_eq!(parts[2].trace.points, points[6..].to_vec());
    // each part has a path of its own: the last point of the first part lies in the
    // middle of edge 4, and the path ends at the source of that edge
    let first: Vec<usize> = parts[0].path.iter().map(|e| e.1 .0).collect();
    assert_eq!(first, vec![0, 2]);
    assert!(parts.iter().all(|p| p.matches.is_empty() && p.score == 0));
}

#[test]
fn splitting_leaves_out_empty_stretches() {
    let si = grid_instance(SpatialIndexType::EdgeOriented);
    let points = TestTrace::eastward_horizontal(0, 9).points;
    let mut segment = TrajectorySegment::new(MapMatchingTrace::new(points.clone()), vec![]);
    // a cut before the first point, a repeated cut and a cut behind the last point
    segment.cutting_points = vec![0, 4, 4, 9];
    let parts = segment.split_segment(&si).unwrap();
    assert_eq!(parts.len(), 2);
    assert!(parts.len() <= segment.cutting_points.len() + 1);
    assert_eq!(parts[0].trace.points, points[..4].to_vec());
    assert_eq!(parts[1].trace.points, points[4..].to_vec());
    for part in &parts {
        assert!(!part.trace.points.is_empty());
        assert!(part.matches.is_empty());
        assert!(part.cutting_points.is_empty());
        assert_eq!(part.score, 0);
        // the path of a part is the path that is found for its trace
        let path = new_path_for_trace(&part.trace, &si).unwrap();
        assert_eq!(part.path, path);
    }
    // the segment itself is left as it was
    assert_eq!(segment.trace.points, points);
    assert_eq!(segment.cutting_points, vec![0, 4, 4, 9]);
}

#[test]
fn splitting_a_short_trace_gives_the_segment_itself() {
    let si = grid_instance(SpatialIndexType::EdgeOriented);
    let points = TestTrace::eastward_horizontal(0, 1).points;
    let e = |i: usize| (EdgeListId(0), EdgeId(i));
    let mut segment = TrajectorySegment::new(MapMatchingTrace::new(points.clone()), vec![e(0)]);
    segment.score = 7;
    segment.cutting_points = vec![0];
    let parts = segment.split_segment(&si).unwrap();
    assert_eq!(parts.len(), 1);
    assert_eq!(parts[0].trace.points, points);
    assert_eq!(parts[0].path, vec![e(0)]);
    assert_eq!(parts[0].score, 7);
    assert_eq!(parts[0].cutting_points, vec![0]);
}

#[test]
fn joining_paths_that_follow_each_other_needs_no_search() {
    let si = grid_instance(SpatialIndexType::EdgeOriented);
    let points = TestTrace::eastward_horizontal(0, 5).points;
    let e = |i: usize| (EdgeListId(0), EdgeId(i));
    // the second path starts with the edge that the first ends in, the third
    // starts at the vertex at which the second ends, the fourth has no path
    let parts = vec![
        TrajectorySegment::new(MapMatchingTrace::new(points[..2].to_vec()), vec![e(0), e(2)]),
        TrajectorySegment::new(MapMatchingTrace::new(points[2..3].to_vec()), vec![e(2), e(4)]),
        TrajectorySegment::new(MapMatchingTrace::new(points[3..4].to_vec()), vec![e(6)]),
        TrajectorySegment::new(MapMatchingTrace::new(points[4..].to_vec()), vec![]),
    ];
    let joined = join_segments(&lcss(), parts, &si).unwrap();
    assert_eq!(joined.trace.points, points);
    assert_eq!(joined.path, vec![e(0), e(2), e(4), e(6)]);
    assert_eq!(joined.matches.len(), 5);
    assert!(joined.path.windows(2).all(|w| w[0] != w[1]));
}

#[test]
fn joining_fails_on_an_edge_that_the_graph_lacks() {
    let si = grid_instance(SpatialIndexType::EdgeOriented);
    let points = TestTrace::eastward_horizontal(0, 4).points;
    let e = |i: usize| (EdgeListId(0), EdgeId(i));
    let first = TrajectorySegment::new(MapMatchingTrace::new(points[..2].to_vec()), vec![e(0)]);
    let second = TrajectorySegment::new(
        MapMatchingTrace::new(points[2..].to_vec()),
        vec![e(100_000)],
    );
    assert!(matches!(
        join_segments(&lcss(), vec![first, second], &si),
        Err(MapMatchingError::InternalError(_))
    ));
    // segments without a point are refused, however many there are
    let none = |path| TrajectorySegment::new(MapMatchingTrace::new(vec![]), path);
    assert!(matches!(
        join_segments(&lcss(), vec![none(vec![e(0)]), none(vec![e(2)])], &si),
        Err(MapMatchingError::EmptyTrace)
    ));
}

#[test]
fn joined_path_repeats_no_edge() {
    let si = grid_instance(SpatialIndexType::EdgeOriented);
    let points = TestTrace::eastward_horizontal(0, 5).points;
    let e = |i: usize| (EdgeListId(0), EdgeId(i));
    let first = TrajectorySegment::new(
        MapMatchingTrace::new(points[..2].to_vec()),
        vec![e(0), e(0), e(2), e(2)],
    );
    let second = TrajectorySegment::new(
        MapMatchingTrace::new(points[2..].to_vec()),
        vec![e(2), e(4), e(8), e(8)],
    );
    let joined = join_segments(&lcss(), vec![first, second], &si).unwrap();
    assert_eq!(joined.path, vec![e(0), e(2), e(4), e(8)]);
    assert!(joined.path.windows(2).all(|w| w[0] != w[1]));
}

#[test]
fn matched_path_repeats_no_edge_and_empty_trace_is_the_only_empty_failure() {
    let result = map_match(TestTrace::l_shaped().points).unwrap();
    assert!(result.matched_path.windows(2).all(|w| w[0] != w[1]));
    assert!(matches!(map_match(vec![]), Err(MapMatchingError::EmptyTrace)));
    let one = map_match(TestTrace::eastward_horizontal(0, 1).points);
    assert!(!matches!(one, Err(MapMatchingError::EmptyTrace)));
}

#[test]
fn refining_splits_a_segment_that_scores_badly() {
    let si = grid_instance(SpatialIndexType::EdgeOriented);
    let points = TestTrace::eastward_horizontal(0, 5).points;
    // without a path the segment scores nothing and is cut in the middle
    let poor = TrajectorySegment::new(MapMatchingTrace::new(points.clone()), vec![]);
    let (parts, changed) = lcss().refine_segment(&poor, &si).unwrap();
    assert!(changed);
    assert_eq!(parts.len(), 2);
    assert_eq!(parts[0].trace.points, points[..2].to_vec());
    assert_eq!(parts[1].trace.points, points[2..].to_vec());
    assert!(parts.iter().all(|p| p.matches.is_empty() && p.score == 0));
    // a segment that scores a whole stays, scored and matched
    let e = |i: usize| (EdgeListId(0), EdgeId(i));
    let good = TrajectorySegment::new(
        MapMatchingTrace::new(points.clone()),
        vec![e(0), e(2), e(4), e(6), e(8)],
    );
    let (parts, changed) = lcss().refine_segment(&good, &si).unwrap();
    assert!(!changed);
    assert_eq!(parts.len(), 1);
    assert_eq!(parts[0].trace.points, points);
    assert_eq!(parts[0].score, 1_000_000);
    assert_eq!(parts[0].matches.len(), 5);
}

#[test]
fn score_and_match_asks_the_map_for_the_distances() {
    let si = grid_instance(SpatialIndexType::EdgeOriented);
    let points = TestTrace::noisy_eastward_horizontal(0, 5).points;
    let e = |i: usize| (EdgeListId(0), EdgeId(i));
    let path = vec![e(0), e(2), e(4), e(6), e(8)];
    let mut segment = TrajectorySegment::new(MapMatchingTrace::new(points), path);
    segment.score_and_match(&lcss(), &si.map_model).unwrap();
    let edges: Vec<usize> = segment.matches.iter().map(|m| m.edge_id.0).collect();
    assert_eq!(edges, vec![0, 2, 4, 6, 8]);
    // each point is about 33 m off its edge: similar to about a third
    assert!(segment.score > 300_000 && segment.score < 360_000);
    for m in &segment.matches {
        match m.distance_to_edge {
            Distance::Millimeters(d) => assert!(d > 33_000 && d < 34_000),
            Distance::Infinite => panic!("every point is near its edge"),
        }
    }
}

#[test]
fn stationary_points_are_found_by_the_map() {
    let si = grid_instance(SpatialIndexType::EdgeOriented);
    let mut points = TestTrace::eastward_horizontal(0, 5).points;
    let repeated = points[1];
    points.insert(2, repeated);
    let groups: Vec<Vec<usize>> =
        find_stationary_points(&MapMatchingTrace::new(points), &si.map_model)
            .into_iter()
            .map(|g| g.i_index)
            .collect();
    assert_eq!(groups, vec![vec![1, 2]]);
}

#[test]
fn stationary_points_take_the_match_before_them() {
    let mut trace = TestTrace::eastward_horizontal(0, 5);
    // the third point is repeated twice
    let repeated = trace.points[2];
    trace.points.insert(3, repeated);
    trace.points.insert(3, repeated);
    let result = map_match(trace.points).unwrap();
    let edges: Vec<usize> = result.point_matches.iter().map(|m| m.edge_id.0).collect();
    assert_eq!(edges, vec![0, 2, 4, 4, 4, 6, 8]);
}

#[test]
fn test_grid_helper_horizontal_edges_row0() {
    // Row 0 horizontal edges should be: 0, 2, 4, 6, 8, 10, 12, 14, 16
    assert_eq!(horizontal_edge_id(0, 0), Some(0));
    assert_eq!(horizontal_edge_id(0, 1), Some(2));
    assert_eq!(horizontal_edge_id(0, 2), Some(4));
    assert_eq!(horizontal_edge_id(0, 3), Some(6));
    assert_eq!(horizontal_edge_id(0, 4), Some(8));
    assert_eq!(horizontal_edge_id(0, 5), Some(10));
    assert_eq!(horizontal_edge_id(0, 6), Some(12));
    assert_eq!(horizontal_edge_id(0, 7), Some(14));
    assert_eq!(horizontal_edge_id(0, 8), Some(16));
    assert_eq!(horizontal_edge_id(0, 9), None); // No horizontal edge at rightmost column
}

#[test]
fn test_grid_helper_vertical_edges_row0() {
    // Row 0 vertical edges should be: 1, 3, 5, 7, 9, 11, 13, 15, 17, 18
    assert_eq!(vertical_edge_id(0, 0), Some(1));
    assert_eq!(vertical_edge_id(0, 1), Some(3));
    assert_eq!(vertical_edge_id(0, 2), Some(5));
    assert_eq!(vertical_edge_id(0, 3), Some(7));
    assert_eq!(vertical_edge_id(0, 4), Some(9));
    assert_eq!(vertical_edge_id(0, 5), Some(11));
    assert_eq!(vertical_edge_id(0, 6), Some(13));
    assert_eq!(vertical_edge_id(0, 7), Some(15));
    assert_eq!(vertical_edge_id(0, 8), Some(17));
    assert_eq!(vertical_edge_id(0, 9), Some(18)); // Rightmost column
}

#[test]
fn test_grid_helper_row1_edges() {
    // Row 1 starts at edge 19
    assert_eq!(horizontal_edge_id(1, 0), Some(19));
    assert_eq!(horizontal_edge_id(1, 1), Some(21));
    assert_eq!(vertical_edge_id(1, 0), Some(20));
    assert_eq!(vertical_edge_id(1, 9), Some(37));
}
