//! Dense integer identifiers of the road network.

use vstd::prelude::*;

verus! {

/// Identifier of a vertex.
#[derive(Clone, Copy, Debug, PartialEq, Eq, Structural, Hash, PartialOrd, Ord, Default)]
pub struct VertexId(pub usize);

/// Identifier of a directed edge within its edge list.
#[derive(Clone, Copy, Debug, PartialEq, Eq, Structural, Hash, PartialOrd, Ord, Default)]
pub struct EdgeId(pub usize);

/// Identifier of one edge list (one layer of the network).
#[derive(Clone, Copy, Debug, PartialEq, Eq, Structural, Hash, PartialOrd, Ord, Default)]
pub struct EdgeListId(pub usize);

/// An edge of the network: its edge list and its place in it.
pub type EdgeRef = (EdgeListId, EdgeId);

/// A directed edge with its end points.
#[derive(Clone, Copy, Debug, PartialEq, Eq, Structural, Hash)]
pub struct Edge {
    pub edge_list_id: EdgeListId,
    pub edge_id: EdgeId,
    pub src_vertex_id: VertexId,
    pub dst_vertex_id: VertexId,
}

impl Edge {
    /// The edge `edge_id` of list `edge_list_id` from `src` to `dst`.
    pub fn new(edge_list_id: usize, edge_id: usize, src: usize, dst: usize) -> (edge: Edge)
        ensures
            edge == (Edge {
                edge_list_id: EdgeListId(edge_list_id),
                edge_id: EdgeId(edge_id),
                src_vertex_id: VertexId(src),
                dst_vertex_id: VertexId(dst),
            }),
    {
        Edge {
            edge_list_id: EdgeListId(edge_list_id),
            edge_id: EdgeId(edge_id),
            src_vertex_id: VertexId(src),
            dst_vertex_id: VertexId(dst),
        }
    }
}

} // verus!
