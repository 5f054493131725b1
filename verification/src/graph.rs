//! The road network as a directed multigraph: vertices, and directed edges
//! in parallel edge lists.

use vstd::prelude::*;
use crate::network::{Edge, EdgeId, EdgeListId, EdgeRef, VertexId};
use crate::search::direction::Direction;

verus! {

/// Why a graph could not be built or answered.
#[derive(Clone, Copy, Debug, PartialEq, Eq, Structural)]
pub enum GraphError {
    /// An edge ends at a vertex that the graph does not have.
    VertexOutOfRange(EdgeListId, EdgeId),
    /// The graph has no such edge.
    UnknownEdge(EdgeListId, EdgeId),
}

/// The end points of the edges of each edge list: `ends[l][e]` is the pair
/// of source and destination of edge `e` of list `l`.
pub type Ends = Seq<Seq<(usize, usize)>>;

/// The edges of list `list` up to position `n` that leave `vertex` (for
/// `Forward`) or enter it (for `Reverse`), in order.
pub open spec fn incident_in_list(
    row: Seq<(usize, usize)>,
    list: int,
    n: nat,
    vertex: usize,
    direction: Direction,
) -> Seq<EdgeRef>
    decreases n,
{
    if n == 0 {
        Seq::empty()
    } else {
        let before = incident_in_list(row, list, (n - 1) as nat, vertex, direction);
        let end = match direction {
            Direction::Forward => row[n - 1].0,
            Direction::Reverse => row[n - 1].1,
        };
        if end == vertex {
            before.push((EdgeListId(list as usize), EdgeId((n - 1) as usize)))
        } else {
            before
        }
    }
}

/// The edges of the first `n` lists that leave `vertex` (for `Forward`) or
/// enter it (for `Reverse`), list by list, in order.
pub open spec fn incident(ends: Ends, n: nat, vertex: usize, direction: Direction) -> Seq<EdgeRef>
    decreases n,
{
    if n == 0 {
        Seq::empty()
    } else {
        incident(ends, (n - 1) as nat, vertex, direction) + incident_in_list(
            ends[n - 1],
            n - 1,
            ends[n - 1].len(),
            vertex,
            direction,
        )
    }
}

/// Every incident edge is an edge of the graph, and it leaves or enters the
/// vertex.
pub proof fn lemma_incident_valid(ends: Ends, n: nat, vertex: usize, direction: Direction)
    requires
        n <= ends.len(),
        ends.len() <= usize::MAX,
        forall|l: int| 0 <= l < ends.len() ==> (#[trigger] ends[l]).len() <= usize::MAX,
    ensures
        forall|k: int|
            0 <= k < incident(ends, n, vertex, direction).len() ==> {
                let edge = #[trigger] incident(ends, n, vertex, direction)[k];
                &&& edge.0.0 < n
                &&& edge.1.0 < ends[edge.0.0 as int].len()
                &&& match direction {
                    Direction::Forward => ends[edge.0.0 as int][edge.1.0 as int].0 == vertex,
                    Direction::Reverse => ends[edge.0.0 as int][edge.1.0 as int].1 == vertex,
                }
            },
    decreases n,
{
    if n > 0 {
        lemma_incident_valid(ends, (n - 1) as nat, vertex, direction);
        lemma_incident_in_list_valid(ends[n - 1], n - 1, ends[n - 1].len(), vertex, direction);
        let before = incident(ends, (n - 1) as nat, vertex, direction);
        let added = incident_in_list(ends[n - 1], n - 1, ends[n - 1].len(), vertex, direction);
        assert forall|k: int| 0 <= k < incident(ends, n, vertex, direction).len() implies {
            let edge = #[trigger] incident(ends, n, vertex, direction)[k];
            &&& edge.0.0 < n
            &&& edge.1.0 < ends[edge.0.0 as int].len()
            &&& match direction {
                Direction::Forward => ends[edge.0.0 as int][edge.1.0 as int].0 == vertex,
                Direction::Reverse => ends[edge.0.0 as int][edge.1.0 as int].1 == vertex,
            }
        } by {
            if k < before.len() {
                assert((before + added)[k] == before[k]);
            } else {
                assert((before + added)[k] == added[k - before.len()]);
            }
        }
    }
}

/// Every incident edge of a list is an edge of the list, and it leaves or
/// enters the vertex.
pub proof fn lemma_incident_in_list_valid(
    row: Seq<(usize, usize)>,
    list: int,
    n: nat,
    vertex: usize,
    direction: Direction,
)
    requires
        n <= row.len(),
        0 <= list <= usize::MAX,
        row.len() <= usize::MAX,
    ensures
        forall|k: int|
            0 <= k < incident_in_list(row, list, n, vertex, direction).len() ==> {
                let edge = #[trigger] incident_in_list(row, list, n, vertex, direction)[k];
                &&& edge.0.0 == list
                &&& edge.1.0 < n
                &&& match direction {
                    Direction::Forward => row[edge.1.0 as int].0 == vertex,
                    Direction::Reverse => row[edge.1.0 as int].1 == vertex,
                }
            },
    decreases n,
{
    if n > 0 {
        lemma_incident_in_list_valid(row, list, (n - 1) as nat, vertex, direction);
        let before = incident_in_list(row, list, (n - 1) as nat, vertex, direction);
        assert forall|k: int|
            0 <= k < incident_in_list(row, list, n, vertex, direction).len() implies {
            let edge = #[trigger] incident_in_list(row, list, n, vertex, direction)[k];
            &&& edge.0.0 == list
            &&& edge.1.0 < n
            &&& match direction {
                Direction::Forward => row[edge.1.0 as int].0 == vertex,
                Direction::Reverse => row[edge.1.0 as int].1 == vertex,
            }
        } by {
            if k < before.len() {
                assert(incident_in_list(row, list, n, vertex, direction)[k] == before[k]);
            }
        }
    }
}

/// Whether every edge ends at vertices below `vertex_count`.
pub open spec fn ends_in_range(ends: Ends, vertex_count: nat) -> bool {
    forall|l: int, e: int|
        0 <= l < ends.len() && 0 <= e < ends[l].len() ==> (#[trigger] ends[l][e]).0 < vertex_count
            && ends[l][e].1 < vertex_count
}

/// Whether `edge` is among the edges.
pub open spec fn is_edge(ends: Ends, edge: EdgeRef) -> bool {
    edge.0.0 < ends.len() && edge.1.0 < ends[edge.0.0 as int].len()
}

/// The vertex that `edge` leaves.
pub open spec fn source_of(ends: Ends, edge: EdgeRef) -> usize {
    ends[edge.0.0 as int][edge.1.0 as int].0
}

/// The vertex that `edge` enters.
pub open spec fn destination_of(ends: Ends, edge: EdgeRef) -> usize {
    ends[edge.0.0 as int][edge.1.0 as int].1
}

/// Whether `path` is a walk from `from` to `to`: its edges are edges of
/// the graph, the first leaves `from`, each of the others leaves the vertex
/// that the one before it enters, and the last enters `to`. The walk
/// without edges leads from a vertex to itself.
pub open spec fn is_walk(ends: Ends, path: Seq<EdgeRef>, from: usize, to: usize) -> bool
    decreases path.len(),
{
    if path.len() == 0 {
        from == to
    } else {
        &&& is_edge(ends, path[0])
        &&& source_of(ends, path[0]) == from
        &&& is_walk(ends, path.drop_first(), destination_of(ends, path[0]), to)
    }
}

/// A walk that is extended by an edge that leaves where it ends is a walk.
pub proof fn lemma_walk_extend(ends: Ends, path: Seq<EdgeRef>, from: usize, to: usize, edge: EdgeRef)
    requires
        is_walk(ends, path, from, to),
        is_edge(ends, edge),
        source_of(ends, edge) == to,
    ensures
        is_walk(ends, path.push(edge), from, destination_of(ends, edge)),
    decreases path.len(),
{
    let longer = path.push(edge);
    if path.len() == 0 {
        assert(longer.drop_first() =~= Seq::<EdgeRef>::empty());
        assert(longer[0] == edge);
        assert(is_walk(
            ends,
            Seq::<EdgeRef>::empty(),
            destination_of(ends, edge),
            destination_of(ends, edge),
        ));
    } else {
        lemma_walk_extend(ends, path.drop_first(), destination_of(ends, path[0]), to, edge);
        assert(longer.drop_first() =~= path.drop_first().push(edge));
        assert(longer[0] == path[0]);
    }
}

/// Two walks of which the second starts where the first ends make one.
pub proof fn lemma_walk_join(
    ends: Ends,
    first: Seq<EdgeRef>,
    second: Seq<EdgeRef>,
    from: usize,
    via: usize,
    to: usize,
)
    requires
        is_walk(ends, first, from, via),
        is_walk(ends, second, via, to),
    ensures
        is_walk(ends, first + second, from, to),
    decreases first.len(),
{
    if first.len() == 0 {
        assert(first + second =~= second);
    } else {
        lemma_walk_join(
            ends,
            first.drop_first(),
            second,
            destination_of(ends, first[0]),
            via,
            to,
        );
        assert((first + second).drop_first() =~= first.drop_first() + second);
        assert((first + second)[0] == first[0]);
    }
}

/// Every edge of a walk is an edge of the graph.
pub proof fn lemma_walk_edges(ends: Ends, path: Seq<EdgeRef>, from: usize, to: usize, k: int)
    requires
        is_walk(ends, path, from, to),
        0 <= k < path.len(),
    ensures
        is_edge(ends, path[k]),
    decreases path.len(),
{
    if k > 0 {
        lemma_walk_edges(ends, path.drop_first(), destination_of(ends, path[0]), to, k - 1);
    }
}

/// Whether edge `k` of list `l` is the first, list by list, that ends at a
/// vertex that is not below `vertex_count`.
pub open spec fn first_out_of_range(ends: Ends, vertex_count: nat, l: int, k: int) -> bool {
    &&& 0 <= l < ends.len()
    &&& 0 <= k < ends[l].len()
    &&& (ends[l][k].0 >= vertex_count || ends[l][k].1 >= vertex_count)
    &&& forall|a: int, b: int|
        0 <= a < ends.len() && 0 <= b < ends[a].len() && (a < l || (a == l && b < k)) ==> (
        #[trigger] ends[a][b]).0 < vertex_count && ends[a][b].1 < vertex_count
}

/// A read-only directed multigraph. Edge `e` of list `l` is identified by
/// the pair (`l`, `e`).
#[derive(Debug)]
pub struct Graph {
    vertex_count: usize,
    edge_lists: Vec<Vec<(usize, usize)>>,
    out_edges: Vec<Vec<EdgeRef>>,
    in_edges: Vec<Vec<EdgeRef>>,
    none: Vec<EdgeRef>,
}

/// The views of the rows of a table.
pub open spec fn rows<T>(table: Seq<Vec<T>>) -> Seq<Seq<T>> {
    table.map_values(|row: Vec<T>| row@)
}

impl Graph {
    /// The number of vertices.
    pub closed spec fn vertices(&self) -> nat {
        self.vertex_count as nat
    }

    /// The end points of the edges.
    pub closed spec fn ends(&self) -> Ends {
        rows(self.edge_lists@)
    }

    /// The invariant of the graph: every edge ends at vertices of the
    /// graph, and the adjacency lists hold, for each vertex, exactly the
    /// edges that leave it and that enter it.
    pub closed spec fn wf(&self) -> bool {
        &&& ends_in_range(self.ends(), self.vertices())
        &&& self.out_edges@.len() == self.vertex_count
        &&& self.in_edges@.len() == self.vertex_count
        &&& self.none@.len() == 0
        &&& forall|v: int|
            0 <= v < self.vertex_count ==> (#[trigger] self.out_edges@[v])@ == incident(
                self.ends(),
                self.ends().len(),
                v as usize,
                Direction::Forward,
            )
        &&& forall|v: int|
            0 <= v < self.vertex_count ==> (#[trigger] self.in_edges@[v])@ == incident(
                self.ends(),
                self.ends().len(),
                v as usize,
                Direction::Reverse,
            )
    }

    /// Whether the graph has the edge.
    pub open spec fn has_edge(&self, edge: EdgeRef) -> bool {
        is_edge(self.ends(), edge)
    }

    /// Builds the graph of `vertex_count` vertices whose edge `e` of list
    /// `l` goes from `edge_lists[l][e].0` to `edge_lists[l][e].1`. Fails
    /// exactly when an edge ends at a vertex that is not below
    /// `vertex_count`.
    pub fn new(vertex_count: usize, edge_lists: Vec<Vec<(usize, usize)>>) -> (r: Result<
        Graph,
        GraphError,
    >)
        ensures
            match r {
                Ok(graph) => graph.wf() && graph.vertices() == vertex_count && graph.ends()
                    == rows(edge_lists@) && ends_in_range(rows(edge_lists@), vertex_count as nat),
                Err(e) => e matches GraphError::VertexOutOfRange(l, k) && first_out_of_range(
                    rows(edge_lists@),
                    vertex_count as nat,
                    l.0 as int,
                    k.0 as int,
                ),
            },
    {
        let ghost ends = rows(edge_lists@);
        let mut out_edges: Vec<Vec<EdgeRef>> = Vec::new();
        let mut in_edges: Vec<Vec<EdgeRef>> = Vec::new();
        let mut v: usize = 0;
        while v < vertex_count
            invariant
                v <= vertex_count,
                out_edges@.len() == v,
                in_edges@.len() == v,
                forall|k: int| 0 <= k < v ==> (#[trigger] out_edges@[k])@ == Seq::<EdgeRef>::empty(),
                forall|k: int| 0 <= k < v ==> (#[trigger] in_edges@[k])@ == Seq::<EdgeRef>::empty(),
            decreases vertex_count - v,
        {
            out_edges.push(Vec::new());
            in_edges.push(Vec::new());
            v += 1;
        }
        let mut l: usize = 0;
        while l < edge_lists.len()
            invariant
                l <= edge_lists.len(),
                ends == rows(edge_lists@),
                out_edges@.len() == vertex_count,
                in_edges@.len() == vertex_count,
                forall|a: int, b: int|
                    0 <= a < l && 0 <= b < ends[a].len() ==> (#[trigger] ends[a][b]).0
                        < vertex_count && ends[a][b].1 < vertex_count,
                forall|k: int|
                    0 <= k < vertex_count ==> (#[trigger] out_edges@[k])@ == incident(
                        ends,
                        l as nat,
                        k as usize,
                        Direction::Forward,
                    ),
                forall|k: int|
                    0 <= k < vertex_count ==> (#[trigger] in_edges@[k])@ == incident(
                        ends,
                        l as nat,
                        k as usize,
                        Direction::Reverse,
                    ),
            decreases edge_lists.len() - l,
        {
            let row = &edge_lists[l];
            assert(ends[l as int] == row@);
            let mut e: usize = 0;
            while e < row.len()
                invariant
                    e <= row.len(),
                    l < edge_lists.len(),
                    ends == rows(edge_lists@),
                    ends[l as int] == row@,
                    out_edges@.len() == vertex_count,
                    in_edges@.len() == vertex_count,
                    forall|b: int|
                        0 <= b < e ==> (#[trigger] row@[b]).0 < vertex_count && row@[b].1
                            < vertex_count,
                    forall|a: int, b: int|
                        0 <= a < l && 0 <= b < ends[a].len() ==> (#[trigger] ends[a][b]).0
                            < vertex_count && ends[a][b].1 < vertex_count,
                    forall|k: int|
                        0 <= k < vertex_count ==> (#[trigger] out_edges@[k])@ == incident(
                            ends,
                            l as nat,
                            k as usize,
                            Direction::Forward,
                        ) + incident_in_list(row@, l as int, e as nat, k as usize, Direction::Forward),
                    forall|k: int|
                        0 <= k < vertex_count ==> (#[trigger] in_edges@[k])@ == incident(
                            ends,
                            l as nat,
                            k as usize,
                            Direction::Reverse,
                        ) + incident_in_list(row@, l as int, e as nat, k as usize, Direction::Reverse),
                decreases row.len() - e,
            {
                let (src, dst) = row[e];
                if src >= vertex_count || dst >= vertex_count {
                    assert(ends[l as int][e as int] == (src, dst));
                    assert(first_out_of_range(ends, vertex_count as nat, l as int, e as int));
                    return Err(GraphError::VertexOutOfRange(EdgeListId(l), EdgeId(e)));
                }
                let ghost prior_out = rows(out_edges@);
                let ghost prior_in = rows(in_edges@);
                out_edges[src].push((EdgeListId(l), EdgeId(e)));
                in_edges[dst].push((EdgeListId(l), EdgeId(e)));
                proof {
                    assert forall|k: int| 0 <= k < vertex_count implies (
                    #[trigger] out_edges@[k])@ == incident(
                        ends,
                        l as nat,
                        k as usize,
                        Direction::Forward,
                    ) + incident_in_list(
                        row@,
                        l as int,
                        (e + 1) as nat,
                        k as usize,
                        Direction::Forward,
                    ) by {
                        assert(prior_out[k] == incident(
                            ends,
                            l as nat,
                            k as usize,
                            Direction::Forward,
                        ) + incident_in_list(
                            row@,
                            l as int,
                            e as nat,
                            k as usize,
                            Direction::Forward,
                        ));
                    }
                    assert forall|k: int| 0 <= k < vertex_count implies (
                    #[trigger] in_edges@[k])@ == incident(
                        ends,
                        l as nat,
                        k as usize,
                        Direction::Reverse,
                    ) + incident_in_list(
                        row@,
                        l as int,
                        (e + 1) as nat,
                        k as usize,
                        Direction::Reverse,
                    ) by {
                        assert(prior_in[k] == incident(
                            ends,
                            l as nat,
                            k as usize,
                            Direction::Reverse,
                        ) + incident_in_list(
                            row@,
                            l as int,
                            e as nat,
                            k as usize,
                            Direction::Reverse,
                        ));
                    }
                }
                e += 1;
            }
            l += 1;
        }
        Ok(Graph { vertex_count, edge_lists, out_edges, in_edges, none: Vec::new() })
    }

    /// The number of vertices.
    pub fn vertex_count(&self) -> (n: usize)
        ensures
            n == self.vertices(),
    {
        self.vertex_count
    }

    /// The number of edge lists.
    pub fn edge_list_count(&self) -> (n: usize)
        ensures
            n == self.ends().len(),
    {
        self.edge_lists.len()
    }

    /// The edge `edge_id` of list `edge_list_id` with its end points. Fails
    /// with `UnknownEdge` exactly when the graph has no such edge.
    pub fn get_edge(&self, edge_list_id: &EdgeListId, edge_id: &EdgeId) -> (r: Result<
        Edge,
        GraphError,
    >)
        requires
            self.wf(),
        ensures
            match r {
                Ok(edge) => self.has_edge((*edge_list_id, *edge_id)) && edge == (Edge {
                    edge_list_id: *edge_list_id,
                    edge_id: *edge_id,
                    src_vertex_id: VertexId(
                        self.ends()[edge_list_id.0 as int][edge_id.0 as int].0,
                    ),
                    dst_vertex_id: VertexId(
                        self.ends()[edge_list_id.0 as int][edge_id.0 as int].1,
                    ),
                }) && edge.src_vertex_id.0 < self.vertices() && edge.dst_vertex_id.0
                    < self.vertices(),
                Err(e) => !self.has_edge((*edge_list_id, *edge_id)) && e == GraphError::UnknownEdge(
                    *edge_list_id,
                    *edge_id,
                ),
            },
    {
        if edge_list_id.0 >= self.edge_lists.len() {
            return Err(GraphError::UnknownEdge(*edge_list_id, *edge_id));
        }
        let row = &self.edge_lists[edge_list_id.0];
        assert(self.ends()[edge_list_id.0 as int] == row@);
        if edge_id.0 >= row.len() {
            return Err(GraphError::UnknownEdge(*edge_list_id, *edge_id));
        }
        let (src, dst) = row[edge_id.0];
        assert(self.ends()[edge_list_id.0 as int][edge_id.0 as int] == (src, dst));
        Ok(
            Edge {
                edge_list_id: *edge_list_id,
                edge_id: *edge_id,
                src_vertex_id: VertexId(src),
                dst_vertex_id: VertexId(dst),
            },
        )
    }

    /// The vertex that the edge leaves. Fails with `UnknownEdge` exactly
    /// when the graph has no such edge.
    pub fn src_vertex_id(&self, edge_list_id: &EdgeListId, edge_id: &EdgeId) -> (r: Result<
        VertexId,
        GraphError,
    >)
        requires
            self.wf(),
        ensures
            match r {
                Ok(v) => self.has_edge((*edge_list_id, *edge_id)) && v.0
                    == self.ends()[edge_list_id.0 as int][edge_id.0 as int].0 && v.0
                    < self.vertices(),
                Err(e) => !self.has_edge((*edge_list_id, *edge_id)) && e == GraphError::UnknownEdge(
                    *edge_list_id,
                    *edge_id,
                ),
            },
    {
        match self.get_edge(edge_list_id, edge_id) {
            Ok(edge) => Ok(edge.src_vertex_id),
            Err(e) => Err(e),
        }
    }

    /// The vertex that the edge enters. Fails with `UnknownEdge` exactly
    /// when the graph has no such edge.
    pub fn dst_vertex_id(&self, edge_list_id: &EdgeListId, edge_id: &EdgeId) -> (r: Result<
        VertexId,
        GraphError,
    >)
        requires
            self.wf(),
        ensures
            match r {
                Ok(v) => self.has_edge((*edge_list_id, *edge_id)) && v.0
                    == self.ends()[edge_list_id.0 as int][edge_id.0 as int].1 && v.0
                    < self.vertices(),
                Err(e) => !self.has_edge((*edge_list_id, *edge_id)) && e == GraphError::UnknownEdge(
                    *edge_list_id,
                    *edge_id,
                ),
            },
    {
        match self.get_edge(edge_list_id, edge_id) {
            Ok(edge) => Ok(edge.dst_vertex_id),
            Err(e) => Err(e),
        }
    }

    /// The edges that a search in `direction` may take at `vertex`: those
    /// that leave it, for `Forward`; those that enter it, for `Reverse`;
    /// list by list, in order. A vertex that the graph does not have has
    /// none.
    pub fn incident_edges(&self, vertex: VertexId, direction: Direction) -> (edges: &Vec<EdgeRef>)
        requires
            self.wf(),
        ensures
            vertex.0 < self.vertices() ==> edges@ == incident(
                self.ends(),
                self.ends().len(),
                vertex.0,
                direction,
            ),
            vertex.0 >= self.vertices() ==> edges@.len() == 0,
            forall|k: int|
                0 <= k < edges@.len() ==> self.has_edge(#[trigger] edges@[k]) && match direction {
                    Direction::Forward => source_of(self.ends(), edges@[k]) == vertex.0,
                    Direction::Reverse => destination_of(self.ends(), edges@[k]) == vertex.0,
                },
    {
        if vertex.0 >= self.vertex_count {
            return &self.none;
        }
        let _lists: usize = self.edge_lists.len();
        proof {
            assert forall|l: int| 0 <= l < self.ends().len() implies (
            #[trigger] self.ends()[l]).len() <= usize::MAX by {
                assert(self.ends()[l] == self.edge_lists@[l]@);
                assert(self.edge_lists@[l].len() <= usize::MAX);
            }
            lemma_incident_valid(self.ends(), self.ends().len(), vertex.0, direction);
        }
        match direction {
            Direction::Forward => &self.out_edges[vertex.0],
            Direction::Reverse => &self.in_edges[vertex.0],
        }
    }
}

} // verus!
