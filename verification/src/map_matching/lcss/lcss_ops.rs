//! The steps of the LCSS matcher that consult the map and the graph.

use vstd::prelude::*;
use crate::graph::{
    destination_of, is_edge, is_walk, lemma_walk_edges, source_of, Ends, Graph,
};
use crate::label::LabelModel;
use crate::map_matching::distance::Distance;
use crate::map_matching::lcss::stationary::{
    group_stationary, group_views, scan, stationary_groups, StationaryIndex,
};
use crate::map_matching::map_matching_error::MapMatchingError;
use crate::map_matching::map_matching_trace::{MapMatchingPoint, MapMatchingTrace};
use crate::map_matching::map_model::{MapError, MapModel, NearestSearchResult};
use crate::network::{EdgeId, EdgeListId, EdgeRef, VertexId};
use crate::search::a_star::{edges_along, lemma_route_is_walk, run_vertex_oriented};
use crate::search::direction::Direction;
use crate::search::edge_traversal::EdgeTraversal;
use crate::search::models::{ConstraintModel, CostModel, TraversalModel};
use crate::search::search_error::SearchError;
use crate::search::search_instance::{edges_of, SearchInstance, SearchResult};
use crate::search::search_tree::{
    cheapest_at, lemma_labels_at_member, route_of, traversal_views, SearchTreeError,
};
use crate::search::tree_model::labels_at;

verus! {

/// A candidate edge for a point: the edge and its distance from the point.
pub type Candidate = (EdgeListId, EdgeId, Distance);

/// The number of nearest edges that are looked at for each end of a trace.
pub const CANDIDATES: usize = 10;

/// `c` put into `sorted` behind every candidate that is not farther than
/// it.
pub open spec fn insert_by_distance(sorted: Seq<Candidate>, c: Candidate) -> Seq<Candidate>
    decreases sorted.len(),
{
    if sorted.len() == 0 {
        seq![c]
    } else if c.2.shorter_than(sorted.last().2) {
        insert_by_distance(sorted.drop_last(), c).push(sorted.last())
    } else {
        sorted.push(c)
    }
}

/// The candidates in the order of their distances, nearest first; those
/// that are equally far keep their order.
pub open spec fn by_distance(s: Seq<Candidate>) -> Seq<Candidate>
    decreases s.len(),
{
    if s.len() == 0 {
        Seq::empty()
    } else {
        insert_by_distance(by_distance(s.drop_last()), s.last())
    }
}

/// Whether no candidate is nearer than one before it.
pub open spec fn nearest_first(s: Seq<Candidate>) -> bool {
    forall|i: int, j: int| 0 <= i <= j < s.len() ==> !(#[trigger] s[j]).2.shorter_than((#[trigger] s[i]).2)
}

/// Putting a candidate in keeps the order and adds one.
pub proof fn lemma_insert_by_distance(sorted: Seq<Candidate>, c: Candidate)
    requires
        nearest_first(sorted),
    ensures
        nearest_first(insert_by_distance(sorted, c)),
        insert_by_distance(sorted, c).len() == sorted.len() + 1,
        forall|k: int|
            0 <= k < insert_by_distance(sorted, c).len() ==> (#[trigger] insert_by_distance(
                sorted,
                c,
            )[k]) == c || sorted.contains(insert_by_distance(sorted, c)[k]),
    decreases sorted.len(),
{
    let r = insert_by_distance(sorted, c);
    if sorted.len() > 0 {
        if c.2.shorter_than(sorted.last().2) {
            let head = sorted.drop_last();
            assert forall|i: int, j: int| 0 <= i <= j < head.len() implies !(
            #[trigger] head[j]).2.shorter_than((#[trigger] head[i]).2) by {
                assert(head[i] == sorted[i] && head[j] == sorted[j]);
            }
            lemma_insert_by_distance(head, c);
            let inner = insert_by_distance(head, c);
            assert forall|i: int, j: int| 0 <= i <= j < r.len() implies !(
            #[trigger] r[j]).2.shorter_than((#[trigger] r[i]).2) by {
                if j < inner.len() {
                    assert(r[i] == inner[i] && r[j] == inner[j]);
                } else if i < inner.len() {
                    assert(r[i] == inner[i]);
                    if inner[i] != c {
                        let w = choose|w: int| 0 <= w < head.len() && head[w] == inner[i];
                        assert(sorted[w] == inner[i]);
                        assert(!sorted[sorted.len() - 1].2.shorter_than(sorted[w].2));
                    }
                }
            }
            assert forall|k: int| 0 <= k < r.len() implies (#[trigger] r[k]) == c
                || sorted.contains(r[k]) by {
                if k < inner.len() {
                    assert(r[k] == inner[k]);
                    if inner[k] != c {
                        let w = choose|w: int| 0 <= w < head.len() && head[w] == inner[k];
                        assert(sorted[w] == inner[k]);
                    }
                } else {
                    assert(r[k] == sorted[sorted.len() - 1]);
                }
            }
        } else {
            assert forall|i: int, j: int| 0 <= i <= j < r.len() implies !(
            #[trigger] r[j]).2.shorter_than((#[trigger] r[i]).2) by {
                if j < sorted.len() {
                    assert(r[i] == sorted[i] && r[j] == sorted[j]);
                } else if i < sorted.len() {
                    assert(r[i] == sorted[i]);
                    assert(!sorted[sorted.len() - 1].2.shorter_than(sorted[i].2));
                }
            }
            assert forall|k: int| 0 <= k < r.len() implies (#[trigger] r[k]) == c
                || sorted.contains(r[k]) by {
                if k < sorted.len() {
                    assert(r[k] == sorted[k]);
                }
            }
        }
    }
}

/// Candidates by distance are as many as before, nearest first.
pub proof fn lemma_by_distance(s: Seq<Candidate>)
    ensures
        nearest_first(by_distance(s)),
        by_distance(s).len() == s.len(),
    decreases s.len(),
{
    if s.len() > 0 {
        lemma_by_distance(s.drop_last());
        lemma_insert_by_distance(by_distance(s.drop_last()), s.last());
    }
}

/// Puts the candidates in the order of their distances, nearest first;
/// those that are equally far keep their order.
pub fn rank_candidates(found: Vec<Candidate>) -> (ranked: Vec<Candidate>)
    ensures
        ranked@ == by_distance(found@),
{
    let mut ranked: Vec<Candidate> = Vec::new();
    let mut i: usize = 0;
    assert(found@.take(0) =~= Seq::<Candidate>::empty());
    while i < found.len()
        invariant
            i <= found.len(),
            ranked@ == by_distance(found@.take(i as int)),
        decreases found.len() - i,
    {
        let c: Candidate = (found[i].0, found[i].1, found[i].2);
        proof {
            assert(found@.take(i + 1).drop_last() =~= found@.take(i as int));
            assert(found@.take(i + 1).last() == c);
        }
        let ghost before = ranked@;
        let mut pos: usize = ranked.len();
        assert(before.take(pos as int) =~= before);
        assert(before.skip(pos as int) =~= Seq::<Candidate>::empty());
        assert(insert_by_distance(before, c) =~= insert_by_distance(before.take(pos as int), c)
            + before.skip(pos as int));
        while pos > 0 && c.2.is_shorter_than(&ranked[pos - 1].2)
            invariant
                pos <= ranked.len(),
                before == ranked@,
                insert_by_distance(before, c) == insert_by_distance(before.take(pos as int), c)
                    + before.skip(pos as int),
            decreases pos,
        {
            proof {
                let head = before.take(pos as int);
                assert(head.last() == before[pos - 1]);
                assert(head.drop_last() =~= before.take(pos - 1));
                assert(insert_by_distance(head, c).push(before[pos - 1]) + before.skip(pos as int)
                    =~= insert_by_distance(head, c) + before.skip(pos - 1)) by {
                    assert(before.skip(pos - 1) =~= seq![before[pos - 1]] + before.skip(
                        pos as int,
                    ));
                }
                assert(insert_by_distance(before.take(pos as int), c) == insert_by_distance(
                    before.take(pos - 1),
                    c,
                ).push(before[pos - 1]));
                assert(insert_by_distance(before.take(pos - 1), c).push(before[pos - 1])
                    + before.skip(pos as int) =~= insert_by_distance(before.take(pos - 1), c)
                    + before.skip(pos - 1)) by {
                    assert(before.skip(pos - 1) =~= seq![before[pos - 1]] + before.skip(
                        pos as int,
                    ));
                }
            }
            pos -= 1;
        }
        proof {
            let head = before.take(pos as int);
            if pos > 0 {
                assert(head.last() == before[pos - 1]);
            }
            assert(insert_by_distance(head, c) == head.push(c));
        }
        ranked.insert(pos, c);
        assert(ranked@ =~= before.take(pos as int).push(c) + before.skip(pos as int));
        i += 1;
    }
    assert(found@.take(i as int) =~= found@);
    ranked
}

/// The distance from a point to an edge: what the map model answers when
/// it is asked for the distance from this point to this edge.
pub fn compute_distance_to_edge<M: MapModel>(
    point: &MapMatchingPoint,
    edge_list_id: &EdgeListId,
    edge_id: &EdgeId,
    map_model: &M,
) -> (distance: Distance)
    ensures
        call_ensures(M::distance_to_edge, (map_model, point, edge_list_id, edge_id), distance),
{
    map_model.distance_to_edge(point, edge_list_id, edge_id)
}

/// The nearer of the two end points of an edge, with its distance: the
/// source unless the destination is strictly nearer.
pub fn closer_vertex(
    src: VertexId,
    src_distance: Distance,
    dst: VertexId,
    dst_distance: Distance,
) -> (r: (VertexId, Distance))
    ensures
        r == nearer_end(src, src_distance, dst, dst_distance),
{
    if dst_distance.is_shorter_than(&src_distance) {
        (dst, dst_distance)
    } else {
        (src, src_distance)
    }
}

/// The end point of an edge that is nearer to `point`, with its distance.
///
/// Fails with `InternalError` if the graph does not have the edge, or the
/// map does not have one of its end points. Otherwise the map model is
/// asked for the distance from the point to the source and to the
/// destination of the edge, and the answer is [`closer_vertex`] of what it
/// says of the two.
pub fn get_closest_vertex<M: MapModel>(
    point: &MapMatchingPoint,
    edge_list_id: &EdgeListId,
    edge_id: &EdgeId,
    graph: &Graph,
    map_model: &M,
) -> (r: Result<(VertexId, Distance), MapMatchingError>)
    requires
        graph.wf(),
    ensures
        !graph.has_edge((*edge_list_id, *edge_id)) ==> r matches Err(
            MapMatchingError::InternalError(_),
        ),
        match r {
            Ok((vertex, _)) => graph.has_edge((*edge_list_id, *edge_id)) && (vertex.0
                == graph.ends()[edge_list_id.0 as int][edge_id.0 as int].0 || vertex.0
                == graph.ends()[edge_list_id.0 as int][edge_id.0 as int].1),
            Err(e) => e is InternalError,
        },
        closest_vertex_found(graph.ends(), map_model, *point, (*edge_list_id, *edge_id), r),
{
    let src_id: VertexId = match graph.src_vertex_id(edge_list_id, edge_id) {
        Ok(v) => v,
        Err(_) => {
            return Err(
                MapMatchingError::InternalError(
                    "failed to get source vertex id for edge".to_string(),
                ),
            );
        },
    };
    let dst_id: VertexId = match graph.dst_vertex_id(edge_list_id, edge_id) {
        Ok(v) => v,
        Err(_) => {
            return Err(
                MapMatchingError::InternalError(
                    "failed to get destination vertex id for edge".to_string(),
                ),
            );
        },
    };
    let ghost ends = graph.ends();
    let ghost edge = (*edge_list_id, *edge_id);
    let src_answer = map_model.distance_to_vertex(point, &src_id);
    assert(src_id == VertexId(source_of(ends, edge)));
    assert(vertex_measured(map_model, *point, src_id, src_answer));
    let src_dist: Distance = match src_answer {
        Ok(d) => d,
        Err(_) => {
            let r: Result<(VertexId, Distance), MapMatchingError> = Err(
                MapMatchingError::InternalError("failed to get source vertex for edge".to_string()),
            );
            assert(source_measured(ends, map_model, *point, edge, src_answer, r));
            return r;
        },
    };
    let dst_answer = map_model.distance_to_vertex(point, &dst_id);
    assert(dst_id == VertexId(destination_of(ends, edge)));
    assert(vertex_measured(map_model, *point, dst_id, dst_answer));
    let dst_dist: Distance = match dst_answer {
        Ok(d) => d,
        Err(_) => {
            let r: Result<(VertexId, Distance), MapMatchingError> = Err(
                MapMatchingError::InternalError(
                    "failed to get destination vertex for edge".to_string(),
                ),
            );
            assert(destination_measured(ends, map_model, *point, edge, src_dist, dst_answer, r));
            assert(source_measured(ends, map_model, *point, edge, src_answer, r));
            return r;
        },
    };
    let r: Result<(VertexId, Distance), MapMatchingError> = Ok(
        closer_vertex(src_id, src_dist, dst_id, dst_dist),
    );
    assert(destination_measured(ends, map_model, *point, edge, src_dist, dst_answer, r));
    assert(source_measured(ends, map_model, *point, edge, src_answer, r));
    r
}

/// The edges of a route, in order.
pub fn route_edges(route: &Vec<EdgeTraversal>) -> (edges: Vec<EdgeRef>)
    ensures
        edges@ == edges_of(route@),
{
    let mut edges: Vec<EdgeRef> = Vec::new();
    let mut i: usize = 0;
    while i < route.len()
        invariant
            i <= route.len(),
            edges@ == edges_of(route@).take(i as int),
        decreases route.len() - i,
    {
        edges.push((route[i].edge_list_id, route[i].edge_id));
        assert(edges@ =~= edges_of(route@).take(i + 1));
        i += 1;
    }
    assert(edges_of(route@).take(i as int) =~= edges_of(route@));
    edges
}

/// The cheapest path that a forward search finds from `start` to `end`, as
/// edges in the order of travel; no edges if there is no path.
///
/// The path is what [`path_of_search`] makes of the outcome of the
/// vertex-oriented search from `start` that terminates on `end`. A `start`
/// or an `end` that is not a vertex of the graph is refused with
/// `VertexLookup`. Whatever the models answer: a path with edges is a walk
/// in the graph from `start` to `end`; and the search tree is never the
/// cause of a failure, because a search that ends at `end` holds a label
/// there.
pub fn run_shortest_path<
    T: TraversalModel,
    K: CostModel,
    C: ConstraintModel,
    L: LabelModel,
    M: MapModel,
>(start: VertexId, end: VertexId, si: &SearchInstance<T, K, C, L, M>) -> (r: Result<
    Vec<EdgeRef>,
    MapMatchingError,
>)
    requires
        si.graph.wf(),
    ensures
        exists|outcome: Result<SearchResult, SearchError>|
            #![trigger path_found(outcome, end, r)]
            call_ensures(
                run_vertex_oriented::<T, K, C, L, M>,
                (start, Some(end), &Direction::Forward, true, si),
                outcome,
            ) && path_found(outcome, end, r),
        start.0 >= si.graph.vertices() ==> r == Err::<Vec<EdgeRef>, MapMatchingError>(
            MapMatchingError::SearchError(SearchError::VertexLookup(start)),
        ),
        start.0 < si.graph.vertices() && end.0 >= si.graph.vertices() ==> r == Err::<
            Vec<EdgeRef>,
            MapMatchingError,
        >(MapMatchingError::SearchError(SearchError::VertexLookup(end))),
        match r {
            Ok(path) => path@.len() == 0 || is_walk(si.graph.ends(), path@, start.0, end.0),
            Err(e) => e matches MapMatchingError::SearchError(cause)
                && !(cause is NoPathExistsBetweenVertices),
        },
{
    let forward = Direction::Forward;
    let outcome = run_vertex_oriented(start, Some(end), &forward, true, si);
    let ghost searched = outcome;
    let r = path_of_search(outcome, end);
    proof {
        assert(path_found(searched, end, r));
        match searched {
            Ok(result) => {
                let s = result.tree.entries();
                let path = r->Ok_0;
                let i = choose|i: int|
                    #![trigger cheapest_at(s, end, i)]
                    cheapest_at(s, end, i) && path@ == edges_along(
                        route_of(s, result.tree.orientation(), i),
                    );
                lemma_route_is_walk(s, si.graph.ends(), Direction::Forward, i);
            },
            Err(_) => {},
        }
    }
    r
}

/// The candidate edges for a point, nearest first.
///
/// The map model is asked for the `k` entries of the spatial index that
/// are nearest to the point. The candidates are the edges among the first
/// `k` of them, each with the distance that the map model gives for it; if
/// there is none among them, the map model is asked for the nearest entry
/// of the index, which must be an edge. The candidates are returned in the
/// order of their distances (see [`by_distance`]). Fails with
/// `InternalError` if the index cannot answer or is keyed by vertices.
pub fn find_candidates<M: MapModel>(point: &MapMatchingPoint, map_model: &M, k: usize) -> (r:
    Result<Vec<Candidate>, MapMatchingError>)
    ensures
        match r {
            Ok(candidates) => candidates@.len() > 0 && nearest_first(candidates@),
            Err(e) => e is InternalError,
        },
        candidates_found(map_model, *point, k, r),
{
    let nearest = map_model.nearest_graph_ids(point, k);
    assert(nearest_listed(map_model, *point, k, nearest));
    let mut candidates: Vec<Candidate> = Vec::new();
    let mut taken: usize = 0;
    let mut i: usize = 0;
    assert(nearest@.take(0) =~= Seq::<NearestSearchResult>::empty());
    while i < nearest.len() && taken < k
        invariant
            i <= nearest.len(),
            taken == i,
            taken <= k,
            measured_candidates(map_model, *point, nearest@.take(i as int), candidates@),
        decreases nearest.len() - i,
    {
        let ghost before = candidates@;
        proof {
            assert(nearest@.take(i + 1).drop_last() =~= nearest@.take(i as int));
            assert(nearest@.take(i + 1).last() == nearest@[i as int]);
        }
        match nearest[i] {
            NearestSearchResult::NearestEdge(list_id, eid) => {
                let distance = compute_distance_to_edge(point, &list_id, &eid, map_model);
                candidates.push((list_id, eid, distance));
                assert(candidates@.drop_last() =~= before);
                assert(edge_measured(map_model, *point, list_id, eid, distance));
            },
            NearestSearchResult::NearestVertex(_) => {},
        }
        taken += 1;
        i += 1;
    }
    assert(nearest@.take(i as int) =~= considered(nearest@, k));
    let ghost found = candidates@;
    if candidates.len() == 0 {
        let answer = map_model.nearest_graph_id(point);
        assert(nearest_answered(map_model, *point, answer));
        match answer {
            Err(_) => {
                let r: Result<Vec<Candidate>, MapMatchingError> = Err(
                    MapMatchingError::InternalError("spatial index query failed".to_string()),
                );
                assert(fallback_found(map_model, *point, r));
                assert(candidates_ranked(map_model, *point, k, nearest, found, r));
                return r;
            },
            Ok(NearestSearchResult::NearestEdge(list_id, eid)) => {
                let distance = compute_distance_to_edge(point, &list_id, &eid, map_model);
                candidates.push((list_id, eid, distance));
                assert(edge_measured(map_model, *point, list_id, eid, distance));
                proof {
                    let one = candidates@;
                    assert(one.drop_last() =~= Seq::<Candidate>::empty());
                    assert(by_distance(one.drop_last()) =~= Seq::<Candidate>::empty());
                    assert(by_distance(one) =~= seq![one[0]]);
                }
            },
            Ok(NearestSearchResult::NearestVertex(_)) => {
                let r: Result<Vec<Candidate>, MapMatchingError> = Err(
                    MapMatchingError::InternalError(
                        "vertex-oriented spatial index not supported for LCSS map matching".to_string(),
                    ),
                );
                assert(fallback_found(map_model, *point, r));
                assert(candidates_ranked(map_model, *point, k, nearest, found, r));
                return r;
            },
        }
    }
    proof {
        lemma_by_distance(candidates@);
    }
    let r: Result<Vec<Candidate>, MapMatchingError> = Ok(rank_candidates(candidates));
    proof {
        if found.len() == 0 {
            assert(fallback_found(map_model, *point, r));
        }
        assert(candidates_ranked(map_model, *point, k, nearest, found, r));
    }
    r
}

/// The first candidate, if the candidates could be found.
fn first_candidate(found: Result<Vec<Candidate>, MapMatchingError>) -> (r: Option<Candidate>)
    ensures
        r == first_of(found),
{
    match found {
        Ok(candidates) => {
            if candidates.len() > 0 {
                Some((candidates[0].0, candidates[0].1, candidates[0].2))
            } else {
                None
            }
        },
        Err(_) => None,
    }
}

/// A path for a trace: the cheapest path from the end point of the nearest
/// edge of its first point to the end point of the nearest edge of its last
/// point, each end point the one that is nearer to the point. If either
/// point has no candidate, the path is empty; an end point that cannot be
/// had counts as vertex 0.
///
/// In steps: the candidates of the first and of the last point are found
/// (see [`find_candidates`]); for the first candidate of each, the nearer
/// end point is found (see [`get_closest_vertex`]); and the path is what
/// [`run_shortest_path`] returns between the two end points. Whatever the
/// map and the models answer, the path is made of edges of the graph.
pub fn new_path_for_trace<
    T: TraversalModel,
    K: CostModel,
    C: ConstraintModel,
    L: LabelModel,
    M: MapModel,
>(trace: &MapMatchingTrace, si: &SearchInstance<T, K, C, L, M>) -> (r: Result<
    Vec<EdgeRef>,
    MapMatchingError,
>)
    requires
        si.graph.wf(),
        trace@.len() > 0,
    ensures
        exists|
            start: Result<Vec<Candidate>, MapMatchingError>,
            end: Result<Vec<Candidate>, MapMatchingError>,
        |
            #![trigger path_chosen(si, trace@[0], trace@[trace@.len() - 1], first_of(start), first_of(end), r)]
            candidates_found(&si.map_model, trace@[0], CANDIDATES, start) && candidates_found(
                &si.map_model,
                trace@[trace@.len() - 1],
                CANDIDATES,
                end,
            ) && path_chosen(
                si,
                trace@[0],
                trace@[trace@.len() - 1],
                first_of(start),
                first_of(end),
                r,
            ),
        match r {
            Ok(path) => path_in_graph(si.graph.ends(), path@),
            Err(e) => e matches MapMatchingError::SearchError(cause)
                && !(cause is NoPathExistsBetweenVertices),
        },
{
    let first: &MapMatchingPoint = &trace.points[0];
    let last: &MapMatchingPoint = &trace.points[trace.len() - 1];
    let start_found = find_candidates(first, &si.map_model, CANDIDATES);
    let ghost start_answer = start_found;
    let start_candidate = first_candidate(start_found);
    let end_found = find_candidates(last, &si.map_model, CANDIDATES);
    let ghost end_answer = end_found;
    let end_candidate = first_candidate(end_found);
    match (start_candidate, end_candidate) {
        (Some(start), Some(end)) => {
            let start_vertex = get_closest_vertex(
                first,
                &start.0,
                &start.1,
                &si.graph,
                &si.map_model,
            );
            let ghost start_vertex_answer = start_vertex;
            let start_v: VertexId = vertex_or_first(start_vertex);
            let end_vertex = get_closest_vertex(last, &end.0, &end.1, &si.graph, &si.map_model);
            let ghost end_vertex_answer = end_vertex;
            let end_v: VertexId = vertex_or_first(end_vertex);
            let r = run_shortest_path(start_v, end_v, si);
            proof {
                if r is Ok && r->Ok_0@.len() > 0 {
                    lemma_walk_in_graph(si.graph.ends(), r->Ok_0@, start_v.0, end_v.0);
                }
                assert(path_searched(si, start_v, end_v, r));
                assert(vertices_chosen(
                    si,
                    *first,
                    *last,
                    start,
                    end,
                    start_vertex_answer,
                    end_vertex_answer,
                    r,
                ));
                assert(path_chosen(
                    si,
                    *first,
                    *last,
                    first_of(start_answer),
                    first_of(end_answer),
                    r,
                ));
            }
            r
        },
        _ => {
            let r: Result<Vec<EdgeRef>, MapMatchingError> = Ok(Vec::new());
            assert(path_chosen(
                si,
                *first,
                *last,
                first_of(start_answer),
                first_of(end_answer),
                r,
            ));
            r
        },
    }
}

/// Whether every edge of the path is an edge of the graph.
pub open spec fn path_in_graph(ends: Ends, path: Seq<EdgeRef>) -> bool {
    forall|k: int| 0 <= k < path.len() ==> is_edge(ends, #[trigger] path[k])
}

/// A walk is made of edges of the graph.
pub proof fn lemma_walk_in_graph(ends: Ends, path: Seq<EdgeRef>, from: usize, to: usize)
    requires
        is_walk(ends, path, from, to),
    ensures
        path_in_graph(ends, path),
{
    assert forall|k: int| 0 <= k < path.len() implies is_edge(ends, #[trigger] path[k]) by {
        lemma_walk_edges(ends, path, from, to, k);
    }
}

/// Whether the groups hold only indices below `n`, and after the first of
/// each group only indices from 1 on.
pub open spec fn groups_within(groups: Seq<Seq<usize>>, n: nat) -> bool {
    forall|g: int, k: int|
        0 <= g < groups.len() && 0 <= k < groups[g].len() ==> (#[trigger] groups[g][k]) < n && (k
            >= 1 ==> groups[g][k] >= 1)
}

/// The scan keeps within the points that it has come to.
pub proof fn lemma_scan_within(gaps: Seq<Option<Distance>>, n: nat)
    requires
        n <= gaps.len(),
        gaps.len() < usize::MAX,
    ensures
        groups_within(scan(gaps, n).0, n + 1),
        forall|k: int|
            0 <= k < scan(gaps, n).1.len() ==> (#[trigger] scan(gaps, n).1[k]) < n + 1 && (k >= 1
                ==> scan(gaps, n).1[k] >= 1),
    decreases n,
{
    if n > 0 {
        lemma_scan_within(gaps, (n - 1) as nat);
        let (done, open) = scan(gaps, (n - 1) as nat);
        let (done2, open2) = scan(gaps, n);
        assert forall|g: int, k: int| 0 <= g < done2.len() && 0 <= k < done2[g].len() implies (
        #[trigger] done2[g][k]) < n + 1 && (k >= 1 ==> done2[g][k] >= 1) by {
            if g < done.len() {
                assert(done2[g] == done[g]);
                assert(done[g][k] < n);
            } else {
                assert(done2[g] == open);
                assert(open[k] < n);
            }
        }
        assert forall|k: int| 0 <= k < open2.len() implies (#[trigger] open2[k]) < n + 1 && (k
            >= 1 ==> open2[k] >= 1) by {
            if open2 != open {
                if open.len() > 0 && k < open.len() {
                    assert(open2[k] == open[k]);
                    assert(open[k] < n);
                }
            } else {
                assert(open[k] < n);
            }
        }
    }
}

/// The groups of stationary points of a trace of `gaps.len() + 1` points
/// keep within the trace.
pub proof fn lemma_groups_within(gaps: Seq<Option<Distance>>)
    requires
        gaps.len() < usize::MAX,
    ensures
        groups_within(stationary_groups(gaps), gaps.len() + 1),
{
    lemma_scan_within(gaps, gaps.len());
    let (done, open) = scan(gaps, gaps.len());
    let groups = stationary_groups(gaps);
    assert forall|g: int, k: int| 0 <= g < groups.len() && 0 <= k < groups[g].len() implies (
    #[trigger] groups[g][k]) < gaps.len() + 1 && (k >= 1 ==> groups[g][k] >= 1) by {
        if g < done.len() {
            assert(groups[g] == done[g]);
        } else {
            assert(groups[g] == open);
        }
    }
}

/// Finds the stationary points of a trace: runs of consecutive points
/// that the map takes to be less than the stationary limit apart.
///
/// The map model is asked for the distance from each point to the next, and
/// the groups are the stationary groups of its answers (see
/// [`stationary_groups`]). A trace of fewer than two points has none.
/// Whatever the map answers, the groups keep within the trace, and after
/// its first index no group holds the index 0.
pub fn find_stationary_points<M: MapModel>(trace: &MapMatchingTrace, map_model: &M) -> (groups:
    Vec<StationaryIndex>)
    ensures
        exists|gaps: Seq<Option<Distance>>|
            #![trigger stationary_groups(gaps)]
            measured_gaps(map_model, trace@, gaps) && group_views(groups@) == stationary_groups(
                gaps,
            ),
        trace@.len() <= 1 ==> groups@.len() == 0,
        groups_within(group_views(groups@), trace@.len()),
{
    let mut gaps: Vec<Option<Distance>> = Vec::new();
    let count: usize = trace.len();
    let mut i: usize = 1;
    while i < count
        invariant
            1 <= i,
            count == trace@.len(),
            gaps@.len() == i - 1,
            i == 1 || i <= count,
            forall|k: int| 0 <= k < gaps@.len() ==> gap_measured(map_model, trace@, k, gaps@[k]),
        decreases count - i,
    {
        let gap = map_model.distance_between(&trace.points[i - 1], &trace.points[i]);
        assert(gap_measured(map_model, trace@, i - 1, gap));
        gaps.push(gap);
        i += 1;
    }
    proof {
        lemma_groups_within(gaps@);
        if trace@.len() <= 1 {
            assert(gaps@.len() == 0);
            assert(stationary_groups(gaps@).len() == 0);
        }
        assert(measured_gaps(map_model, trace@, gaps@));
    }
    let groups = group_stationary(&gaps);
    assert(group_views(groups@).len() == groups@.len());
    groups
}

/// Whether `gap` is what the map model may answer when it is asked for the
/// distance from point `k` of the trace to the point after it.
pub open spec fn gap_measured<M: MapModel>(
    map_model: &M,
    points: Seq<MapMatchingPoint>,
    k: int,
    gap: Option<Distance>,
) -> bool {
    call_ensures(M::distance_between, (map_model, &points[k], &points[k + 1]), gap)
}

/// Whether `gaps` are answers of the map model to the question how far each
/// point of the trace is from the next: one gap for each point but the
/// last.
pub open spec fn measured_gaps<M: MapModel>(
    map_model: &M,
    points: Seq<MapMatchingPoint>,
    gaps: Seq<Option<Distance>>,
) -> bool {
    &&& gaps.len() == if points.len() == 0 {
        0
    } else {
        points.len() - 1
    }
    &&& forall|k: int| 0 <= k < gaps.len() ==> gap_measured(map_model, points, k, #[trigger] gaps[k])
}

/// The nearer of the two end points of an edge, with its distance: the
/// source unless the destination is strictly nearer.
pub open spec fn nearer_end(
    src: VertexId,
    src_distance: Distance,
    dst: VertexId,
    dst_distance: Distance,
) -> (VertexId, Distance) {
    if dst_distance.shorter_than(src_distance) {
        (dst, dst_distance)
    } else {
        (src, src_distance)
    }
}

/// Whether `nearest` is what the map model may answer when it is asked for
/// the `k` entries of the spatial index that are nearest to `point`.
pub open spec fn nearest_listed<M: MapModel>(
    map_model: &M,
    point: MapMatchingPoint,
    k: usize,
    nearest: Vec<NearestSearchResult>,
) -> bool {
    call_ensures(M::nearest_graph_ids, (map_model, &point, k), nearest)
}

/// Whether `answer` is what the map model may answer when it is asked for
/// the entry of the spatial index that is nearest to `point`.
pub open spec fn nearest_answered<M: MapModel>(
    map_model: &M,
    point: MapMatchingPoint,
    answer: Result<NearestSearchResult, MapError>,
) -> bool {
    call_ensures(M::nearest_graph_id, (map_model, &point), answer)
}

/// Whether `distance` is what the map model may answer when it is asked for
/// the distance from `point` to the edge.
pub open spec fn edge_measured<M: MapModel>(
    map_model: &M,
    point: MapMatchingPoint,
    edge_list_id: EdgeListId,
    edge_id: EdgeId,
    distance: Distance,
) -> bool {
    call_ensures(M::distance_to_edge, (map_model, &point, &edge_list_id, &edge_id), distance)
}

/// Whether `answer` is what the map model may answer when it is asked for
/// the distance from `point` to the vertex.
pub open spec fn vertex_measured<M: MapModel>(
    map_model: &M,
    point: MapMatchingPoint,
    vertex_id: VertexId,
    answer: Result<Distance, MapError>,
) -> bool {
    call_ensures(M::distance_to_vertex, (map_model, &point, &vertex_id), answer)
}

/// The entries of the spatial index that are looked at: the first `k`.
pub open spec fn considered(nearest: Seq<NearestSearchResult>, k: usize) -> Seq<
    NearestSearchResult,
> {
    if nearest.len() <= k {
        nearest
    } else {
        nearest.take(k as int)
    }
}

/// Whether `found` are the edges among `entries`, in order, each with a
/// distance that the map model may give for it.
pub open spec fn measured_candidates<M: MapModel>(
    map_model: &M,
    point: MapMatchingPoint,
    entries: Seq<NearestSearchResult>,
    found: Seq<Candidate>,
) -> bool
    decreases entries.len(),
{
    if entries.len() == 0 {
        found.len() == 0
    } else {
        match entries.last() {
            NearestSearchResult::NearestEdge(edge_list_id, edge_id) => {
                &&& found.len() > 0
                &&& found.last().0 == edge_list_id
                &&& found.last().1 == edge_id
                &&& edge_measured(map_model, point, edge_list_id, edge_id, found.last().2)
                &&& measured_candidates(map_model, point, entries.drop_last(), found.drop_last())
            },
            NearestSearchResult::NearestVertex(_) => measured_candidates(
                map_model,
                point,
                entries.drop_last(),
                found,
            ),
        }
    }
}

/// Whether `r` is what the search for candidates returns when the first
/// entries of the spatial index hold no edge: the one candidate that the
/// map model gives as the nearest entry, with its distance; a failure if
/// the map model cannot answer or answers with a vertex.
pub open spec fn fallback_found<M: MapModel>(
    map_model: &M,
    point: MapMatchingPoint,
    r: Result<Vec<Candidate>, MapMatchingError>,
) -> bool {
    exists|answer: Result<NearestSearchResult, MapError>|
        #![trigger nearest_answered(map_model, point, answer)]
        nearest_answered(map_model, point, answer) && match answer {
            Ok(NearestSearchResult::NearestEdge(edge_list_id, edge_id)) => r matches Ok(
                candidates,
            ) && candidates@.len() == 1 && candidates@[0].0 == edge_list_id && candidates@[0].1
                == edge_id && edge_measured(
                map_model,
                point,
                edge_list_id,
                edge_id,
                candidates@[0].2,
            ),
            _ => r matches Err(MapMatchingError::InternalError(_)),
        }
}

/// Whether `r` is what the search for the candidates of `point` returns,
/// given what the map model may answer: the edges among the first `k`
/// entries that it lists, with the distances that it gives, in the order of
/// their distances; or, if there is none, what [`fallback_found`] says.
pub open spec fn candidates_found<M: MapModel>(
    map_model: &M,
    point: MapMatchingPoint,
    k: usize,
    r: Result<Vec<Candidate>, MapMatchingError>,
) -> bool {
    exists|nearest: Vec<NearestSearchResult>, found: Seq<Candidate>|
        #![trigger candidates_ranked(map_model, point, k, nearest, found, r)]
        candidates_ranked(map_model, point, k, nearest, found, r)
}

/// Whether `r` is what the search for the candidates of `point` returns
/// when the map model lists `nearest` and `found` are the edges among the
/// first `k` of them, with the distances that the map model gives.
pub open spec fn candidates_ranked<M: MapModel>(
    map_model: &M,
    point: MapMatchingPoint,
    k: usize,
    nearest: Vec<NearestSearchResult>,
    found: Seq<Candidate>,
    r: Result<Vec<Candidate>, MapMatchingError>,
) -> bool {
    &&& nearest_listed(map_model, point, k, nearest)
    &&& measured_candidates(map_model, point, considered(nearest@, k), found)
    &&& if found.len() > 0 {
        r matches Ok(candidates) && candidates@ == by_distance(found)
    } else {
        fallback_found(map_model, point, r)
    }
}

/// The first candidate, if the candidates could be found.
pub open spec fn first_of(found: Result<Vec<Candidate>, MapMatchingError>) -> Option<Candidate> {
    match found {
        Ok(candidates) => if candidates@.len() > 0 {
            Some(candidates@[0])
        } else {
            None
        },
        Err(_) => None,
    }
}

/// Whether `r` is what the search for the nearer end point of `edge`
/// returns, given what the map model may answer: a failure if the graph
/// does not have the edge or the map model does not have the source or the
/// destination; else the nearer of the two by the distances that the map
/// model gives.
pub open spec fn closest_vertex_found<M: MapModel>(
    ends: Ends,
    map_model: &M,
    point: MapMatchingPoint,
    edge: EdgeRef,
    r: Result<(VertexId, Distance), MapMatchingError>,
) -> bool {
    if !is_edge(ends, edge) {
        r matches Err(MapMatchingError::InternalError(_))
    } else {
        exists|src_answer: Result<Distance, MapError>|
            #![trigger source_measured(ends, map_model, point, edge, src_answer, r)]
            source_measured(ends, map_model, point, edge, src_answer, r)
    }
}

/// Whether `r` is what the search for the nearer end point of `edge`
/// returns when the map model answers `src_answer` for its source.
pub open spec fn source_measured<M: MapModel>(
    ends: Ends,
    map_model: &M,
    point: MapMatchingPoint,
    edge: EdgeRef,
    src_answer: Result<Distance, MapError>,
    r: Result<(VertexId, Distance), MapMatchingError>,
) -> bool {
    &&& vertex_measured(map_model, point, VertexId(source_of(ends, edge)), src_answer)
    &&& match src_answer {
        Err(_) => r matches Err(MapMatchingError::InternalError(_)),
        Ok(src_distance) => exists|dst_answer: Result<Distance, MapError>|
            #![trigger destination_measured(ends, map_model, point, edge, src_distance, dst_answer, r)]
            destination_measured(ends, map_model, point, edge, src_distance, dst_answer, r),
    }
}

/// Whether `r` is what the search for the nearer end point of `edge`
/// returns when the source is at `src_distance` and the map model answers
/// `dst_answer` for the destination.
pub open spec fn destination_measured<M: MapModel>(
    ends: Ends,
    map_model: &M,
    point: MapMatchingPoint,
    edge: EdgeRef,
    src_distance: Distance,
    dst_answer: Result<Distance, MapError>,
    r: Result<(VertexId, Distance), MapMatchingError>,
) -> bool {
    &&& vertex_measured(map_model, point, VertexId(destination_of(ends, edge)), dst_answer)
    &&& match dst_answer {
        Err(_) => r matches Err(MapMatchingError::InternalError(_)),
        Ok(dst_distance) => r == Ok::<(VertexId, Distance), MapMatchingError>(
            nearer_end(
                VertexId(source_of(ends, edge)),
                src_distance,
                VertexId(destination_of(ends, edge)),
                dst_distance,
            ),
        ),
    }
}

/// The end point that was found, or vertex 0 if none could be had.
pub open spec fn found_vertex(found: Result<(VertexId, Distance), MapMatchingError>) -> VertexId {
    match found {
        Ok((vertex, _)) => vertex,
        Err(_) => VertexId(0),
    }
}

/// Computes [`found_vertex`].
fn vertex_or_first(found: Result<(VertexId, Distance), MapMatchingError>) -> (v: VertexId)
    ensures
        v == found_vertex(found),
{
    match found {
        Ok((vertex, _)) => vertex,
        Err(_) => VertexId(0),
    }
}

/// Whether `r` is what a path search from `start` to `end` may return.
pub open spec fn path_searched<
    T: TraversalModel,
    K: CostModel,
    C: ConstraintModel,
    L: LabelModel,
    M: MapModel,
>(
    si: &SearchInstance<T, K, C, L, M>,
    start: VertexId,
    end: VertexId,
    r: Result<Vec<EdgeRef>, MapMatchingError>,
) -> bool {
    call_ensures(run_shortest_path::<T, K, C, L, M>, (start, end, si), r)
}

/// Whether `r` is the path between the end points that were found for the
/// candidates `start` and `end`.
pub open spec fn vertices_chosen<
    T: TraversalModel,
    K: CostModel,
    C: ConstraintModel,
    L: LabelModel,
    M: MapModel,
>(
    si: &SearchInstance<T, K, C, L, M>,
    first: MapMatchingPoint,
    last: MapMatchingPoint,
    start: Candidate,
    end: Candidate,
    start_vertex: Result<(VertexId, Distance), MapMatchingError>,
    end_vertex: Result<(VertexId, Distance), MapMatchingError>,
    r: Result<Vec<EdgeRef>, MapMatchingError>,
) -> bool {
    &&& closest_vertex_found(
        si.graph.ends(),
        &si.map_model,
        first,
        (start.0, start.1),
        start_vertex,
    )
    &&& closest_vertex_found(si.graph.ends(), &si.map_model, last, (end.0, end.1), end_vertex)
    &&& path_searched(si, found_vertex(start_vertex), found_vertex(end_vertex), r)
}

/// Whether `r` is the path that is chosen for a trace from `first` to
/// `last` whose first candidates are `start` and `end`: no edges if either
/// is missing; else what a path search may return between the nearer end
/// points of the two candidate edges, where an end point that cannot be had
/// counts as vertex 0.
pub open spec fn path_chosen<
    T: TraversalModel,
    K: CostModel,
    C: ConstraintModel,
    L: LabelModel,
    M: MapModel,
>(
    si: &SearchInstance<T, K, C, L, M>,
    first: MapMatchingPoint,
    last: MapMatchingPoint,
    start: Option<Candidate>,
    end: Option<Candidate>,
    r: Result<Vec<EdgeRef>, MapMatchingError>,
) -> bool {
    match (start, end) {
        (Some(s), Some(e)) => exists|
            start_vertex: Result<(VertexId, Distance), MapMatchingError>,
            end_vertex: Result<(VertexId, Distance), MapMatchingError>,
        |
            #![trigger vertices_chosen(si, first, last, s, e, start_vertex, end_vertex, r)]
            vertices_chosen(si, first, last, s, e, start_vertex, end_vertex, r),
        _ => r matches Ok(path) && path@.len() == 0,
    }
}

/// Whether `r` is what a path search makes of the outcome of a search that
/// was to end at `end`: the edges of the route to the cheapest label that
/// the tree holds at `end`, the oldest of several; `NoPathTo` if the tree
/// holds no label there; no edges if the search found that no path exists;
/// the failure of the search otherwise.
pub open spec fn path_found(
    outcome: Result<SearchResult, SearchError>,
    end: VertexId,
    r: Result<Vec<EdgeRef>, MapMatchingError>,
) -> bool {
    match outcome {
        Ok(result) => if labels_at(result.tree.entries(), end).len() == 0 {
            r == Err::<Vec<EdgeRef>, MapMatchingError>(
                MapMatchingError::SearchTreeError(SearchTreeError::NoPathTo(end)),
            )
        } else {
            r matches Ok(path) && exists|i: int|
                #![trigger cheapest_at(result.tree.entries(), end, i)]
                cheapest_at(result.tree.entries(), end, i) && path@ == edges_along(
                    route_of(result.tree.entries(), result.tree.orientation(), i),
                )
        },
        Err(SearchError::NoPathExistsBetweenVertices(_, _, _)) => r matches Ok(path)
            && path@.len() == 0,
        Err(e) => r == Err::<Vec<EdgeRef>, MapMatchingError>(MapMatchingError::SearchError(e)),
    }
}

/// Makes a path of the outcome of a search that was to end at `end`: the
/// edges of the route that backtracking from `end` gives; no edges if the
/// search found that no path exists; the failure of the search otherwise.
pub fn path_of_search(outcome: Result<SearchResult, SearchError>, end: VertexId) -> (r: Result<
    Vec<EdgeRef>,
    MapMatchingError,
>)
    requires
        outcome matches Ok(result) ==> result.tree.wf(),
    ensures
        path_found(outcome, end, r),
{
    match outcome {
        Ok(result) => match result.tree.backtrack(end) {
            Ok(route) => {
                let path = route_edges(&route);
                proof {
                    let s = result.tree.entries();
                    let i = choose|i: int|
                        #![trigger cheapest_at(s, end, i)]
                        cheapest_at(s, end, i) && traversal_views(route@) == route_of(
                            s,
                            result.tree.orientation(),
                            i,
                        );
                    lemma_labels_at_member(s, end, i);
                    assert(path@ =~= edges_along(traversal_views(route@)));
                }
                Ok(path)
            },
            Err(e) => Err(MapMatchingError::SearchTreeError(e)),
        },
        Err(SearchError::NoPathExistsBetweenVertices(_, _, _)) => Ok(Vec::new()),
        Err(e) => Err(MapMatchingError::SearchError(e)),
    }
}

} // verus!
