//! The geometry of the map, as far as matching needs it.
//!
//! Distances on the globe and nearest-neighbour queries are computed
//! outside of this library. A map model hands their results in as whole
//! numbers. Its methods carry no contract: the matcher states what holds
//! whatever they answer.

use vstd::prelude::*;
use crate::constraint::SpatialIndexType;
use crate::map_matching::distance::Distance;
use crate::map_matching::map_matching_trace::MapMatchingPoint;
use crate::network::{EdgeId, EdgeListId, VertexId};

verus! {

/// What a spatial index found nearest to a point.
#[derive(Clone, Copy, Debug, PartialEq, Eq, Structural)]
pub enum NearestSearchResult {
    NearestEdge(EdgeListId, EdgeId),
    NearestVertex(VertexId),
}

/// The map could not answer.
#[derive(Clone, Copy, Debug, PartialEq, Eq, Structural)]
pub enum MapError {
    /// The spatial index holds nothing.
    EmptyIndex,
    /// The map has no geometry for what was asked.
    MissingGeometry,
}

/// The geometry services of a map.
pub trait MapModel {
    /// How the spatial index is keyed.
    fn spatial_index_type(&self) -> SpatialIndexType;

    /// Up to `k` entries of the spatial index, nearest to `point` first.
    fn nearest_graph_ids(&self, point: &MapMatchingPoint, k: usize) -> Vec<NearestSearchResult>;

    /// The entry of the spatial index that is nearest to `point`.
    fn nearest_graph_id(&self, point: &MapMatchingPoint) -> Result<NearestSearchResult, MapError>;

    /// The distance from `point` to the nearest point of the edge's line;
    /// `Infinite` where it cannot be had.
    fn distance_to_edge(
        &self,
        point: &MapMatchingPoint,
        edge_list_id: &EdgeListId,
        edge_id: &EdgeId,
    ) -> Distance;

    /// The distance from `point` to the vertex; an error if the map has no
    /// such vertex, `Infinite` where the distance cannot be had.
    fn distance_to_vertex(&self, point: &MapMatchingPoint, vertex_id: &VertexId) -> Result<
        Distance,
        MapError,
    >;

    /// The distance between two points; `None` where it cannot be had.
    fn distance_between(&self, a: &MapMatchingPoint, b: &MapMatchingPoint) -> Option<Distance>;
}

} // verus!
