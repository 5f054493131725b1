//! What map matching returns.

use vstd::prelude::*;
use crate::map_matching::distance::Distance;
use crate::network::{EdgeId, EdgeListId};

verus! {

/// The match of one GPS point: an edge and the distance from the point to
/// it.
#[derive(Clone, Copy, Debug, PartialEq, Eq, Structural)]
pub struct PointMatch {
    /// The edge list that holds the matched edge.
    pub edge_list_id: EdgeListId,
    /// The matched edge.
    pub edge_id: EdgeId,
    /// The distance from the point to the matched edge.
    pub distance_to_edge: Distance,
}

impl PointMatch {
    /// A match of a point with an edge.
    pub fn new(edge_list_id: EdgeListId, edge_id: EdgeId, distance_to_edge: Distance) -> (m: Self)
        ensures
            m == (PointMatch { edge_list_id, edge_id, distance_to_edge }),
    {
        PointMatch { edge_list_id, edge_id, distance_to_edge }
    }
}

/// The result of matching a trace: one match per point of the trace, and
/// the path that the trace is taken to have followed.
#[derive(Debug)]
pub struct MapMatchingResult {
    /// One match for each point of the trace, in the order of the trace.
    pub point_matches: Vec<PointMatch>,
    /// The inferred path through the network.
    pub matched_path: Vec<(EdgeListId, EdgeId)>,
}

impl MapMatchingResult {
    /// A result of the given matches and path.
    pub fn new(point_matches: Vec<PointMatch>, matched_path: Vec<(EdgeListId, EdgeId)>) -> (r:
        Self)
        ensures
            r.point_matches == point_matches,
            r.matched_path == matched_path,
    {
        MapMatchingResult { point_matches, matched_path }
    }
}

} // verus!
