use routee_compass_core::map_matching::distance::Distance;
use routee_compass_core::map_matching::lcss::lcss_map_matching::{
    accept_split, check_spatial_index, DistanceUnit, LcssConfig, LcssMapMatching,
};
use routee_compass_core::constraint::SpatialIndexType;
use routee_compass_core::map_matching::lcss::lcss_map_matching_builder::LcssMapMatchingBuilder;
use routee_compass_core::map_matching::lcss::lcss_ops::{closer_vertex, rank_candidates};
use routee_compass_core::map_matching::lcss::stationary::{
    add_matches_for_stationary_points, group_stationary, StationaryIndex,
};
use routee_compass_core::map_matching::lcss::join::dedup_path;
use routee_compass_core::map_matching::lcss::trajectory_segment::TrajectorySegment;
use routee_compass_core::map_matching::map_matching_error::MapMatchingError;
use routee_compass_core::map_matching::map_matching_result::{MapMatchingResult, PointMatch};
use routee_compass_core::map_matching::map_matching_trace::{MapMatchingPoint, MapMatchingTrace};
use routee_compass_core::network::{EdgeId, EdgeListId, VertexId};

fn mm(meters: u64) -> Distance {
    Distance::new(meters * 1000)
}

fn lcss() -> LcssMapMatching {
    LcssMapMatching::from_config(LcssConfig::default()).unwrap()
}

fn trace(n: usize) -> MapMatchingTrace {
    MapMatchingTrace::new((0..n).map(|i| MapMatchingPoint::new(i as i64, 0)).collect())
}

fn path(n: usize) -> Vec<(EdgeListId, EdgeId)> {
    (0..n).map(|j| (EdgeListId(0), EdgeId(10 + j))).collect()
}

fn matched(edge: usize, d: Distance) -> PointMatch {
    PointMatch::new(EdgeListId(0), EdgeId(edge), d)
}

#[test]
fn test_result_creation() {
    let point_matches = vec![
        PointMatch::new(EdgeListId(0), EdgeId(1), Distance::new(5500)),
        PointMatch::new(EdgeListId(0), EdgeId(2), Distance::new(3200)),
    ];
    let matched_path = vec![(EdgeListId(0), EdgeId(1)), (EdgeListId(0), EdgeId(2))];
    let result = MapMatchingResult::new(point_matches, matched_path);

    assert_eq!(result.point_matches.len(), 2);
    assert_eq!(result.matched_path.len(), 2);
}

#[test]
fn config_defaults() {
    let c = LcssConfig::default();
    assert_eq!(c.distance_unit, "meters");
    assert_eq!(c.distance_epsilon, 50);
    assert_eq!(c.similarity_cutoff, 900_000);
    assert_eq!(c.cutting_threshold, 10);
    assert_eq!(c.random_cuts, 0);
    assert_eq!(c.distance_threshold, 10_000);
    let m = lcss();
    assert_eq!(m.distance_epsilon, 50_000);
    assert_eq!(m.similarity_cutoff, 900_000);
    assert_eq!(m.cutting_threshold, 10_000);
    assert_eq!(m.random_cuts, 0);
    assert_eq!(m.distance_threshold, 10_000_000);
    assert_eq!(m.name(), "lcss_map_matching");
}

#[test]
fn config_units_convert_to_millimeters() {
    assert_eq!(DistanceUnit::Meters.to_millimeters(3), 3_000);
    assert_eq!(DistanceUnit::Kilometers.to_millimeters(3), 3_000_000);
    assert_eq!(DistanceUnit::Miles.to_millimeters(1), 1_609_344);
    assert_eq!(DistanceUnit::Feet.to_millimeters(1), 304);
    assert_eq!(DistanceUnit::Feet.to_millimeters(10), 3_048);
    assert_eq!(DistanceUnit::Inches.to_millimeters(10), 254);
    assert_eq!(DistanceUnit::Kilometers.to_millimeters(u64::MAX), u64::MAX);
    assert_eq!(
        DistanceUnit::from_name(&"miles".to_string()),
        Some(DistanceUnit::Miles)
    );
    assert_eq!(DistanceUnit::from_name(&"furlongs".to_string()), None);
}

#[test]
fn config_with_unknown_unit_is_refused() {
    let mut c = LcssConfig::default();
    c.distance_unit = "parsecs".to_string();
    match LcssMapMatching::from_config(c) {
        Err(MapMatchingError::InternalError(message)) => {
            assert_eq!(message, "Invalid distance unit: parsecs")
        }
        _ => panic!("an unknown unit must be refused"),
    }
    let mut c = LcssConfig::default();
    c.distance_unit = "kilometers".to_string();
    c.distance_epsilon = 2;
    let m = LcssMapMatchingBuilder.build(c).unwrap();
    assert_eq!(m.distance_epsilon, 2_000_000);
}

#[test]
fn spatial_index_must_be_edge_oriented() {
    assert!(check_spatial_index(SpatialIndexType::EdgeOriented).is_ok());
    assert!(matches!(
        check_spatial_index(SpatialIndexType::VertexOriented),
        Err(MapMatchingError::InternalError(_))
    ));
}

#[test]
fn score_and_match_refuses_empty_trace() {
    let mut s = TrajectorySegment::new(trace(0), path(2));
    let r = s.score_and_match_distances(&lcss(), &vec![vec![], vec![]]);
    assert!(matches!(r, Err(MapMatchingError::EmptyTrace)));
}

#[test]
fn score_and_match_without_path_matches_nothing() {
    let mut s = TrajectorySegment::new(trace(3), vec![]);
    s.score_and_match_distances(&lcss(), &vec![]).unwrap();
    assert_eq!(s.score, 0);
    assert_eq!(s.matches.len(), 3);
    for m in &s.matches {
        assert_eq!(*m, matched(0, Distance::Infinite));
    }
}

#[test]
fn score_of_a_perfect_match_is_one_whole() {
    // 3 points, 3 edges, each point on its own edge
    let far = mm(500);
    let d = vec![
        vec![mm(0), far, far],
        vec![far, mm(0), far],
        vec![far, far, mm(0)],
    ];
    let mut s = TrajectorySegment::new(trace(3), path(3));
    s.score_and_match_distances(&lcss(), &d).unwrap();
    assert_eq!(s.score, 1_000_000);
    let edges: Vec<usize> = s.matches.iter().map(|m| m.edge_id.0).collect();
    assert_eq!(edges, vec![10, 11, 12]);
}

#[test]
fn score_counts_similarity_by_share_of_epsilon() {
    // epsilon is 50 m; distances 10 m and 25 m are similar to 0.8 and 0.5
    let far = mm(60);
    let d = vec![vec![mm(10), far], vec![far, mm(25)]];
    let mut s = TrajectorySegment::new(trace(2), path(2));
    s.score_and_match_distances(&lcss(), &d).unwrap();
    // (0.8 + 0.5) / 2
    assert_eq!(s.score, 650_000);
    assert_eq!(s.matches[0], matched(10, mm(10)));
    assert_eq!(s.matches[1], matched(11, mm(25)));
}

#[test]
fn score_is_penalized_for_far_end_points() {
    // first point 100 m away from its nearest edge, last point on its edge
    let d = vec![vec![mm(100), mm(200)], vec![mm(150), mm(0)]];
    let mut s = TrajectorySegment::new(trace(2), path(2));
    s.score_and_match_distances(&lcss(), &d).unwrap();
    // raw score: best pairing is point 1 with edge 1: 1.0 / 2 = 0.5
    // penalty: (max(100/50, 1) + max(0/50, 1)) / 2 = 1.5
    assert_eq!(s.score, 333_333);
    assert_eq!(s.matches[0], matched(10, mm(100)));
}

#[test]
fn matches_beyond_the_threshold_are_infinite_and_leave_no_score() {
    let d = vec![vec![mm(20_000), mm(0)]];
    let mut s = TrajectorySegment::new(trace(2), path(1));
    s.score_and_match_distances(&lcss(), &d).unwrap();
    assert_eq!(s.matches[0], matched(10, Distance::Infinite));
    assert_eq!(s.matches[1], matched(10, mm(0)));
    assert_eq!(s.score, 0);
}

#[test]
fn nearest_edge_is_the_first_of_several() {
    let d = vec![vec![mm(5)], vec![mm(3)], vec![mm(3)]];
    let mut s = TrajectorySegment::new(trace(1), path(3));
    s.score_and_match_distances(&lcss(), &d).unwrap();
    assert_eq!(s.matches[0].edge_id, EdgeId(11));
    // nothing can be reached: the first edge, at an infinite distance
    let d = vec![vec![Distance::Infinite], vec![Distance::Infinite]];
    let mut s = TrajectorySegment::new(trace(1), path(2));
    s.score_and_match_distances(&lcss(), &d).unwrap();
    assert_eq!(s.matches[0], matched(10, Distance::Infinite));
}

#[test]
fn cutting_point_is_the_middle_without_path_or_matches() {
    let mut s = TrajectorySegment::new(trace(10), vec![]);
    s.compute_cutting_points(&lcss());
    assert_eq!(s.cutting_points, vec![5]);
    let mut s = TrajectorySegment::new(trace(10), path(1));
    s.matches = (0..10).map(|_| matched(10, Distance::Infinite)).collect();
    s.compute_cutting_points(&lcss());
    assert_eq!(s.cutting_points, vec![5]);
    // the middle of a short trace is too close to its ends
    let mut s = TrajectorySegment::new(trace(4), vec![]);
    s.compute_cutting_points(&lcss());
    assert!(s.cutting_points.is_empty());
}

#[test]
fn cutting_points_are_worst_match_and_matches_near_epsilon() {
    let mut s = TrajectorySegment::new(trace(12), path(1));
    // worst finite match at 3 (last of the equally bad), near epsilon at 6 and 9
    let d = [0, 0, 90, 90, 0, 0, 45, 0, 0, 59, 0, 0];
    s.matches = d.iter().map(|m| matched(10, mm(*m))).collect();
    s.compute_cutting_points(&lcss());
    assert_eq!(s.cutting_points, vec![3, 6, 9]);
}

#[test]
fn cutting_points_are_thinned_kept_once_and_kept_off_the_ends() {
    let mut s = TrajectorySegment::new(trace(12), path(1));
    // near epsilon at 0, 1, 5, 6, 7, 10; worst match is 6, which is listed twice
    let d = [45, 45, 0, 0, 0, 45, 59, 45, 0, 0, 45, 0];
    s.matches = d.iter().map(|m| matched(10, mm(*m))).collect();
    s.compute_cutting_points(&lcss());
    // in order: 0, 1, 5, 6, 6, 7, 10 -> runs [0, 1], [5, 6], [6, 7], [10]
    // middles 1, 6, 7, 10; without the ends (index > 1, index < 10): 6, 7
    assert_eq!(s.cutting_points, vec![6, 7]);
    // near epsilon at 4 and 6; the worst match 4 is listed twice, and is kept once
    let d = [0, 0, 0, 0, 59, 0, 45, 0, 0, 0, 0, 0];
    s.matches = d.iter().map(|m| matched(10, mm(*m))).collect();
    s.compute_cutting_points(&lcss());
    assert_eq!(s.cutting_points, vec![4, 6]);
}

#[test]
fn dedup_keeps_the_first_of_repeated_edges() {
    let e = |i: usize| (EdgeListId(0), EdgeId(i));
    assert_eq!(
        dedup_path(&vec![e(1), e(1), e(2), e(1), e(1), e(1), e(3)]),
        vec![e(1), e(2), e(1), e(3)]
    );
    assert_eq!(dedup_path(&vec![]), vec![]);
    assert_eq!(
        dedup_path(&vec![(EdgeListId(0), EdgeId(1)), (EdgeListId(1), EdgeId(1))]).len(),
        2
    );
}

#[test]
fn stationary_points_are_grouped() {
    let near = Some(Distance::new(0));
    let far = Some(Distance::new(5));
    // points 1, 2, 3 stand at one place, and so do 4 and 5
    let gaps = vec![far, near, near, far, near, far];
    let groups: Vec<Vec<usize>> = group_stationary(&gaps)
        .into_iter()
        .map(|g| g.i_index)
        .collect();
    assert_eq!(groups, vec![vec![1, 2, 3], vec![4, 5]]);
    // a group that is open at the end is closed
    let groups: Vec<Vec<usize>> = group_stationary(&vec![far, near])
        .into_iter()
        .map(|g| g.i_index)
        .collect();
    assert_eq!(groups, vec![vec![1, 2]]);
    assert!(group_stationary(&vec![]).is_empty());
    assert!(group_stationary(&vec![Some(Distance::new(1))]).is_empty());
}

#[test]
fn a_gap_that_cannot_be_measured_neither_extends_nor_closes_a_group() {
    let near = Some(Distance::new(0));
    let groups: Vec<Vec<usize>> = group_stationary(&vec![near, None, near])
        .into_iter()
        .map(|g| g.i_index)
        .collect();
    assert_eq!(groups, vec![vec![0, 1, 3]]);
}

#[test]
fn matches_are_added_for_stationary_points() {
    let matches = vec![
        matched(1, mm(1)),
        matched(2, mm(2)),
        matched(3, mm(3)),
        matched(4, mm(4)),
    ];
    let groups = vec![
        StationaryIndex {
            i_index: vec![4, 5],
        },
        StationaryIndex {
            i_index: vec![1, 2, 3],
        },
    ];
    let expanded = add_matches_for_stationary_points(matches, groups);
    let edges: Vec<usize> = expanded.iter().map(|m| m.edge_id.0).collect();
    // full trace of 4 + 3 points: 0, 1, (2, 3), 4, (5), 6
    assert_eq!(edges, vec![1, 2, 2, 2, 3, 3, 4]);
}

#[test]
fn matches_without_stationary_points_stay_as_they_are() {
    let matches = vec![matched(1, mm(1)), matched(2, mm(2))];
    let expanded = add_matches_for_stationary_points(matches.clone(), vec![]);
    assert_eq!(expanded, matches);
}

#[test]
fn candidates_are_ranked_by_distance_and_keep_their_order() {
    let c = |e: usize, d: Distance| (EdgeListId(0), EdgeId(e), d);
    let ranked = rank_candidates(vec![
        c(1, mm(30)),
        c(2, mm(10)),
        c(3, Distance::Infinite),
        c(4, mm(10)),
        c(5, mm(0)),
    ]);
    let edges: Vec<usize> = ranked.iter().map(|x| x.1 .0).collect();
    assert_eq!(edges, vec![5, 2, 4, 1, 3]);
}

#[test]
fn closer_vertex_prefers_the_source_on_a_tie() {
    let (s, d) = (VertexId(1), VertexId(2));
    assert_eq!(closer_vertex(s, mm(5), d, mm(5)), (s, mm(5)));
    assert_eq!(closer_vertex(s, mm(5), d, mm(4)), (d, mm(4)));
    assert_eq!(
        closer_vertex(s, Distance::Infinite, d, Distance::Infinite),
        (s, Distance::Infinite)
    );
}

#[test]
fn distances_compare_with_infinity_as_the_greatest() {
    assert!(mm(1).is_shorter_than(&mm(2)));
    assert!(!mm(2).is_shorter_than(&mm(2)));
    assert!(mm(2).is_shorter_than(&Distance::Infinite));
    assert!(!Distance::Infinite.is_shorter_than(&Distance::Infinite));
    assert!(Distance::Infinite.is_longer_than(u64::MAX));
    assert!(!mm(2).is_longer_than(2000));
    assert!(Distance::Infinite.is_infinite());
}

#[test]
fn a_split_is_accepted_only_if_it_scores_better() {
    // below the cutoff, more than one part, and a better score when joined
    assert!(accept_split(500_000, 900_000, 2, 500_001));
    assert!(!accept_split(500_000, 900_000, 2, 500_000));
    assert!(!accept_split(500_000, 900_000, 1, 900_000));
    assert!(!accept_split(900_000, 900_000, 3, 1_000_000));
    assert!(!accept_split(950_000, 900_000, 3, 1_000_000));
    assert!(accept_split(0, 1, 2, 1));
}
