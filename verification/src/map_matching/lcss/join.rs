//! Joining segments into one.

use vstd::prelude::*;
use crate::graph::{destination_of, is_edge, source_of, Ends};
use crate::label::LabelModel;
use crate::map_matching::lcss::lcss_map_matching::LcssMapMatching;
use crate::map_matching::lcss::lcss_ops::{lemma_walk_in_graph, path_in_graph, run_shortest_path};
use crate::map_matching::lcss::scoring::matches_on_path;
use crate::map_matching::lcss::trajectory_segment::{
    concat_traces, scored_and_matched, segment_views, TrajectorySegment, TrajectorySegmentView,
};
use crate::map_matching::map_matching_error::MapMatchingError;
use crate::map_matching::map_matching_trace::{MapMatchingPoint, MapMatchingTrace};
use crate::map_matching::map_model::MapModel;
use crate::network::{EdgeRef, VertexId};
use crate::search::models::{ConstraintModel, CostModel, TraversalModel};
use crate::search::search_instance::SearchInstance;

verus! {

/// The path without the edges that repeat the edge before them.
pub open spec fn dedup_consecutive(path: Seq<EdgeRef>) -> Seq<EdgeRef>
    decreases path.len(),
{
    if path.len() == 0 {
        Seq::empty()
    } else {
        let before = dedup_consecutive(path.drop_last());
        if before.len() > 0 && before.last() == path.last() {
            before
        } else {
            before.push(path.last())
        }
    }
}

/// Whether the paths of all segments are made of edges of the graph.
pub open spec fn paths_in_graph(ends: Ends, segments: Seq<TrajectorySegmentView>) -> bool {
    forall|k: int| 0 <= k < segments.len() ==> path_in_graph(ends, (#[trigger] segments[k]).path)
}

/// A path without its repeated edges has no edge that the path does not
/// have.
pub proof fn lemma_dedup_in_graph(ends: Ends, path: Seq<EdgeRef>)
    requires
        path_in_graph(ends, path),
    ensures
        path_in_graph(ends, dedup_consecutive(path)),
    decreases path.len(),
{
    if path.len() > 0 {
        assert forall|k: int| 0 <= k < path.drop_last().len() implies is_edge(
            ends,
            #[trigger] path.drop_last()[k],
        ) by {
            assert(path.drop_last()[k] == path[k]);
        }
        lemma_dedup_in_graph(ends, path.drop_last());
        let before = dedup_consecutive(path.drop_last());
        let now = dedup_consecutive(path);
        assert forall|k: int| 0 <= k < now.len() implies is_edge(ends, #[trigger] now[k]) by {
            if k < before.len() {
                assert(now[k] == before[k]);
            } else {
                assert(now[k] == path[path.len() - 1]);
            }
        }
    }
}

/// Adds the points of `more` to `points`.
fn append_points(points: &mut Vec<MapMatchingPoint>, more: &Vec<MapMatchingPoint>)
    ensures
        final(points)@ == old(points)@ + more@,
{
    let mut i: usize = 0;
    assert(more@.take(0) =~= Seq::<MapMatchingPoint>::empty());
    assert(points@ =~= old(points)@ + more@.take(0));
    while i < more.len()
        invariant
            i <= more.len(),
            points@ == old(points)@ + more@.take(i as int),
        decreases more.len() - i,
    {
        points.push(more[i]);
        assert(points@ =~= old(points)@ + more@.take(i + 1));
        i += 1;
    }
    assert(more@.take(i as int) =~= more@);
}

/// Adds the edges of `more` to `path`.
fn append_path(path: &mut Vec<EdgeRef>, more: &Vec<EdgeRef>)
    ensures
        final(path)@ == old(path)@ + more@,
{
    let mut i: usize = 0;
    assert(more@.take(0) =~= Seq::<EdgeRef>::empty());
    assert(path@ =~= old(path)@ + more@.take(0));
    while i < more.len()
        invariant
            i <= more.len(),
            path@ == old(path)@ + more@.take(i as int),
        decreases more.len() - i,
    {
        let edge: EdgeRef = (more[i].0, more[i].1);
        path.push(edge);
        assert(path@ =~= old(path)@ + more@.take(i + 1));
        i += 1;
    }
    assert(more@.take(i as int) =~= more@);
}

/// The path without the edges that repeat the edge before them.
pub fn dedup_path(path: &Vec<EdgeRef>) -> (r: Vec<EdgeRef>)
    ensures
        r@ == dedup_consecutive(path@),
{
    let mut r: Vec<EdgeRef> = Vec::new();
    let mut i: usize = 0;
    assert(path@.take(0) =~= Seq::<EdgeRef>::empty());
    while i < path.len()
        invariant
            i <= path.len(),
            r@ == dedup_consecutive(path@.take(i as int)),
        decreases path.len() - i,
    {
        proof {
            assert(path@.take(i + 1).drop_last() =~= path@.take(i as int));
            assert(path@.take(i + 1).last() == path@[i as int]);
        }
        let edge: EdgeRef = (path[i].0, path[i].1);
        let count: usize = r.len();
        let repeated: bool = count > 0 && r[count - 1].0.0 == edge.0.0 && r[count - 1].1.0
            == edge.1.0;
        if !repeated {
            r.push(edge);
        }
        i += 1;
    }
    assert(path@.take(i as int) =~= path@);
    r
}

/// Whether no edge of the path repeats the edge before it.
pub open spec fn no_repeats(path: Seq<EdgeRef>) -> bool {
    forall|k: int| 0 < k < path.len() ==> path[k - 1] != #[trigger] path[k]
}

/// A path without its repeated edges has no edge that repeats the edge
/// before it.
pub proof fn lemma_dedup_no_repeats(path: Seq<EdgeRef>)
    ensures
        no_repeats(dedup_consecutive(path)),
    decreases path.len(),
{
    if path.len() > 0 {
        lemma_dedup_no_repeats(path.drop_last());
        let before = dedup_consecutive(path.drop_last());
        let now = dedup_consecutive(path);
        assert forall|k: int| 0 < k < now.len() implies now[k - 1] != #[trigger] now[k] by {
            if k < before.len() {
                assert(now[k] == before[k]);
                assert(now[k - 1] == before[k - 1]);
            }
        }
    }
}

/// Whether the path `next` can follow the path `prev` as it is: one of
/// them is empty, or `next` starts with the edge that `prev` ends in, or it
/// starts at the vertex at which `prev` ends.
pub open spec fn seam_closed(ends: Ends, prev: Seq<EdgeRef>, next: Seq<EdgeRef>) -> bool {
    ||| prev.len() == 0
    ||| next.len() == 0
    ||| prev.last() == next[0]
    ||| (is_edge(ends, prev.last()) && is_edge(ends, next[0]) && destination_of(ends, prev.last())
        == source_of(ends, next[0]))
}

/// Whether the two paths cannot be joined: they meet in different edges,
/// one of which is not an edge of the graph.
pub open spec fn seam_broken(ends: Ends, prev: Seq<EdgeRef>, next: Seq<EdgeRef>) -> bool {
    &&& prev.len() > 0
    &&& next.len() > 0
    &&& prev.last() != next[0]
    &&& (!is_edge(ends, prev.last()) || !is_edge(ends, next[0]))
}

/// Whether every path of the first `upto` segments can follow the path
/// before it as it is.
pub open spec fn seams_closed(ends: Ends, segments: Seq<TrajectorySegmentView>, upto: int) -> bool {
    forall|k: int|
        1 <= k < upto ==> seam_closed(ends, segments[k - 1].path, (#[trigger] segments[k]).path)
}

/// The paths of the first `upto` segments, one after the other.
pub open spec fn concat_paths(segments: Seq<TrajectorySegmentView>, upto: nat) -> Seq<EdgeRef>
    decreases upto,
{
    if upto == 0 {
        Seq::empty()
    } else {
        concat_paths(segments, (upto - 1) as nat) + segments[upto - 1].path
    }
}

/// The paths of the first `upto` segments, one after the other, each
/// behind the edges that fill the gap before it.
pub open spec fn joined_with(
    segments: Seq<TrajectorySegmentView>,
    gaps: Seq<Seq<EdgeRef>>,
    upto: nat,
) -> Seq<EdgeRef>
    decreases upto,
{
    if upto == 0 {
        Seq::empty()
    } else {
        joined_with(segments, gaps, (upto - 1) as nat) + gaps[upto - 1] + segments[upto - 1].path
    }
}

/// The joined paths depend on the gaps before them only.
pub proof fn lemma_joined_with_prefix(
    segments: Seq<TrajectorySegmentView>,
    gaps: Seq<Seq<EdgeRef>>,
    more: Seq<Seq<EdgeRef>>,
    upto: nat,
)
    requires
        upto <= gaps.len() <= more.len(),
        forall|k: int| 0 <= k < gaps.len() ==> gaps[k] == more[k],
    ensures
        joined_with(segments, gaps, upto) == joined_with(segments, more, upto),
    decreases upto,
{
    if upto > 0 {
        lemma_joined_with_prefix(segments, gaps, more, (upto - 1) as nat);
    }
}

/// Whether `outcome` is what the search for a path from the end of `prev`
/// to the start of `next` may return.
pub open spec fn gap_searched<
    T: TraversalModel,
    K: CostModel,
    C: ConstraintModel,
    L: LabelModel,
    M: MapModel,
>(
    si: &SearchInstance<T, K, C, L, M>,
    prev: Seq<EdgeRef>,
    next: Seq<EdgeRef>,
    outcome: Result<Vec<EdgeRef>, MapMatchingError>,
) -> bool {
    call_ensures(
        run_shortest_path::<T, K, C, L, M>,
        (
            VertexId(destination_of(si.graph.ends(), prev.last())),
            VertexId(source_of(si.graph.ends(), next[0])),
            si,
        ),
        outcome,
    )
}

/// Whether `gap` holds the edges to put between the paths `prev` and
/// `next`: none where `next` can follow as it is; else the path that was
/// found from the end of `prev` to the start of `next`.
pub open spec fn gap_filled<
    T: TraversalModel,
    K: CostModel,
    C: ConstraintModel,
    L: LabelModel,
    M: MapModel,
>(
    si: &SearchInstance<T, K, C, L, M>,
    prev: Seq<EdgeRef>,
    next: Seq<EdgeRef>,
    gap: Seq<EdgeRef>,
) -> bool {
    if seam_closed(si.graph.ends(), prev, next) {
        gap.len() == 0
    } else {
        !seam_broken(si.graph.ends(), prev, next) && exists|found: Vec<EdgeRef>|
            #![trigger gap_searched(si, prev, next, Ok::<Vec<EdgeRef>, MapMatchingError>(found))]
            gap_searched(si, prev, next, Ok::<Vec<EdgeRef>, MapMatchingError>(found)) && found@
                == gap
    }
}

/// Whether `gaps[k]` holds the edges to put before the path of segment
/// `k`, for each of the first `upto` segments.
pub open spec fn gaps_filled<
    T: TraversalModel,
    K: CostModel,
    C: ConstraintModel,
    L: LabelModel,
    M: MapModel,
>(
    si: &SearchInstance<T, K, C, L, M>,
    segments: Seq<TrajectorySegmentView>,
    gaps: Seq<Seq<EdgeRef>>,
    upto: int,
) -> bool {
    &&& gaps.len() == upto
    &&& upto > 0 ==> gaps[0].len() == 0
    &&& forall|k: int|
        1 <= k < upto ==> gap_filled(si, segments[k - 1].path, segments[k].path, #[trigger] gaps[k])
}

/// Whether the paths `prev` and `next` could not be joined, with the
/// failure `e`: one of the edges in which they meet is not an edge of the
/// graph, or the search for a path between them failed.
pub open spec fn seam_failed<
    T: TraversalModel,
    K: CostModel,
    C: ConstraintModel,
    L: LabelModel,
    M: MapModel,
>(
    si: &SearchInstance<T, K, C, L, M>,
    prev: Seq<EdgeRef>,
    next: Seq<EdgeRef>,
    e: MapMatchingError,
) -> bool {
    if seam_broken(si.graph.ends(), prev, next) {
        e is InternalError
    } else {
        !seam_closed(si.graph.ends(), prev, next) && gap_searched(
            si,
            prev,
            next,
            Err::<Vec<EdgeRef>, MapMatchingError>(e),
        )
    }
}

/// Whether joining failed at segment `k`: the segments before it were
/// joined with the edges of `gaps` between their paths, and it could not be
/// joined to the segment before it.
pub open spec fn join_failed_at<
    T: TraversalModel,
    K: CostModel,
    C: ConstraintModel,
    L: LabelModel,
    M: MapModel,
>(
    si: &SearchInstance<T, K, C, L, M>,
    segments: Seq<TrajectorySegmentView>,
    k: int,
    gaps: Seq<Seq<EdgeRef>>,
    e: MapMatchingError,
) -> bool {
    &&& 1 <= k < segments.len()
    &&& gaps_filled(si, segments, gaps, k)
    &&& seam_failed(si, segments[k - 1].path, segments[k].path, e)
}

/// Whether `e` is the failure of joining the segments: there is none to
/// join; or the first two that could not be joined failed with it; or all
/// were joined, but they hold no point.
pub open spec fn join_failed<
    T: TraversalModel,
    K: CostModel,
    C: ConstraintModel,
    L: LabelModel,
    M: MapModel,
>(si: &SearchInstance<T, K, C, L, M>, segments: Seq<TrajectorySegmentView>, e: MapMatchingError) -> bool {
    ||| segments.len() == 0 && e is InternalError
    ||| exists|k: int, gaps: Seq<Seq<EdgeRef>>| #[trigger] join_failed_at(si, segments, k, gaps, e)
    ||| segments.len() > 0 && concat_traces(segments).len() == 0 && e
        == MapMatchingError::EmptyTrace && exists|gaps: Seq<Seq<EdgeRef>>|
        #[trigger] gaps_filled(si, segments, gaps, segments.len() as int)
}

/// The segment of a trace and a path before it is scored.
pub open spec fn unscored(trace: Seq<MapMatchingPoint>, path: Seq<EdgeRef>) -> TrajectorySegmentView {
    TrajectorySegmentView {
        trace,
        path,
        matches: Seq::empty(),
        score: 0,
        cutting_points: Seq::empty(),
    }
}

/// Whether `joined` is the segments joined with the edges of `gaps`
/// between their paths: its trace is their traces one after the other, its
/// path their paths and the gaps without repeated edges, and it is scored
/// and matched by what the map model answers.
pub open spec fn joined_from<
    T: TraversalModel,
    K: CostModel,
    C: ConstraintModel,
    L: LabelModel,
    M: MapModel,
>(
    si: &SearchInstance<T, K, C, L, M>,
    lcss: LcssMapMatching,
    segments: Seq<TrajectorySegmentView>,
    gaps: Seq<Seq<EdgeRef>>,
    joined: TrajectorySegmentView,
) -> bool {
    &&& gaps_filled(si, segments, gaps, segments.len() as int)
    &&& scored_and_matched(
        &si.map_model,
        unscored(
            concat_traces(segments),
            dedup_consecutive(joined_with(segments, gaps, segments.len())),
        ),
        lcss,
        joined,
    )
}

/// Joins segments into one.
///
/// The traces are put one after the other, and so are the paths. Where the
/// path of one segment does not end in the edge that the path of the next
/// starts with, and that edge does not start where the other ends, the
/// cheapest path between the two vertices fills the gap (see
/// [`run_shortest_path`]). Of edges that repeat in the joined path only the
/// first is kept. The joined segment is then scored and matched anew.
///
/// Joining no segments is refused with `InternalError`, and so are two
/// paths that meet in an edge that the graph does not have; segments
/// without a point are refused with `EmptyTrace`; a search that fails is
/// the failure of the join. Segments that hold a point and whose paths can
/// follow each other as they are (see [`seam_closed`]) are always joined.
/// Joining a single segment succeeds exactly if its trace is not empty, and
/// gives its trace and its path without repeated edges.
pub fn join_segments<
    T: TraversalModel,
    K: CostModel,
    C: ConstraintModel,
    L: LabelModel,
    M: MapModel,
>(lcss: &LcssMapMatching, segments: Vec<TrajectorySegment>, si: &SearchInstance<T, K, C, L, M>) -> (r:
    Result<TrajectorySegment, MapMatchingError>)
    requires
        si.graph.wf(),
    ensures
        segments@.len() == 0 ==> r matches Err(MapMatchingError::InternalError(_)),
        r matches Ok(joined) ==> {
            &&& joined@.trace == concat_traces(segment_views(segments@))
            &&& joined@.trace.len() > 0
            &&& joined@.matches.len() == joined@.trace.len()
            &&& joined@.score <= 1_000_000
            &&& matches_on_path(joined@.matches, joined@.path)
            &&& no_repeats(joined@.path)
            &&& paths_in_graph(si.graph.ends(), segment_views(segments@)) ==> path_in_graph(
                si.graph.ends(),
                joined@.path,
            )
            &&& exists|gaps: Seq<Seq<EdgeRef>>|
                #![trigger joined_from(si, *lcss, segment_views(segments@), gaps, joined@)]
                joined_from(si, *lcss, segment_views(segments@), gaps, joined@)
        },
        r matches Err(e) ==> join_failed(si, segment_views(segments@), e) && (e is InternalError
            || (e is EmptyTrace && concat_traces(segment_views(segments@)).len() == 0) || (
        e matches MapMatchingError::SearchError(cause) && !(cause is NoPathExistsBetweenVertices))),
        segments@.len() > 0 && concat_traces(segment_views(segments@)).len() > 0 && seams_closed(
            si.graph.ends(),
            segment_views(segments@),
            segments@.len() as int,
        ) ==> (r matches Ok(joined) && joined@.path == dedup_consecutive(
            concat_paths(segment_views(segments@), segments@.len() as nat),
        )),
        segments@.len() == 1 ==> {
            &&& r is Ok <==> segments@[0]@.trace.len() > 0
            &&& r matches Ok(joined) ==> joined@.path == dedup_consecutive(segments@[0]@.path)
        },
{
    let count: usize = segments.len();
    if count == 0 {
        return Err(MapMatchingError::InternalError("empty segments to join".to_string()));
    }
    let ghost views = segment_views(segments@);
    let ghost ends = si.graph.ends();
    let ghost mut gaps: Seq<Seq<EdgeRef>> = Seq::empty();
    let mut total_points: Vec<MapMatchingPoint> = Vec::new();
    let mut total_path: Vec<EdgeRef> = Vec::new();
    let mut i: usize = 0;
    assert(views.take(0) =~= Seq::<TrajectorySegmentView>::empty());
    while i < count
        invariant
            i <= count,
            count == segments@.len(),
            si.graph.wf(),
            ends == si.graph.ends(),
            views == segment_views(segments@),
            total_points@ == concat_traces(views.take(i as int)),
            i == 0 ==> total_path@.len() == 0,
            i == 1 ==> total_path@ == views[0].path,
            paths_in_graph(ends, views) ==> path_in_graph(ends, total_path@),
            gaps_filled(si, views, gaps, i as int),
            total_path@ == joined_with(views, gaps, i as nat),
            seams_closed(ends, views, i as int) ==> total_path@ == concat_paths(views, i as nat),
        decreases count - i,
    {
        proof {
            assert(views.take(i + 1).drop_last() =~= views.take(i as int));
            assert(views.take(i + 1).last() == segments@[i as int]@);
        }
        let ghost joined_before = total_path@;
        let ghost gaps_before = gaps;
        let ghost mut gap: Seq<EdgeRef> = Seq::empty();
        append_points(&mut total_points, &segments[i].trace.points);
        if i > 0 {
            let prev_path: &Vec<EdgeRef> = &segments[i - 1].path;
            let curr_path: &Vec<EdgeRef> = &segments[i].path;
            assert(prev_path@ == views[i - 1].path);
            assert(curr_path@ == views[i as int].path);
            if prev_path.len() > 0 && curr_path.len() > 0 {
                let prev_end: EdgeRef = prev_path[prev_path.len() - 1];
                let curr_start: EdgeRef = curr_path[0];
                if prev_end.0.0 != curr_start.0.0 || prev_end.1.0 != curr_start.1.0 {
                    let prev_dst_v: VertexId = match si.graph.dst_vertex_id(&prev_end.0, &prev_end.1) {
                        Ok(v) => v,
                        Err(_) => {
                            let e = MapMatchingError::InternalError(
                                "edge of a path is not in the graph".to_string(),
                            );
                            assert(join_failed_at(si, views, i as int, gaps, e));
                            return Err(e);
                        },
                    };
                    let curr_src_v: VertexId = match si.graph.src_vertex_id(
                        &curr_start.0,
                        &curr_start.1,
                    ) {
                        Ok(v) => v,
                        Err(_) => {
                            let e = MapMatchingError::InternalError(
                                "edge of a path is not in the graph".to_string(),
                            );
                            assert(join_failed_at(si, views, i as int, gaps, e));
                            return Err(e);
                        },
                    };
                    if prev_dst_v.0 != curr_src_v.0 {
                        let outcome = run_shortest_path(prev_dst_v, curr_src_v, si);
                        let ghost searched = outcome;
                        assert(prev_dst_v == VertexId(destination_of(ends, prev_path@.last())));
                        assert(curr_src_v == VertexId(source_of(ends, curr_path@[0])));
                        assert(gap_searched(si, prev_path@, curr_path@, searched));
                        let gap_path = match outcome {
                            Ok(path) => path,
                            Err(e) => {
                                assert(join_failed_at(si, views, i as int, gaps, e));
                                return Err(e);
                            },
                        };
                        proof {
                            if gap_path@.len() > 0 {
                                lemma_walk_in_graph(
                                    si.graph.ends(),
                                    gap_path@,
                                    prev_dst_v.0,
                                    curr_src_v.0,
                                );
                            }
                            gap = gap_path@;
                        }
                        append_path(&mut total_path, &gap_path);
                    }
                }
            }
            assert(gap_filled(si, views[i - 1].path, views[i as int].path, gap));
        }
        append_path(&mut total_path, &segments[i].path);
        proof {
            if i == 0 {
                assert(total_path@ =~= views[0].path);
            }
            if paths_in_graph(si.graph.ends(), views) {
                assert(path_in_graph(si.graph.ends(), views[i as int].path));
            }
            gaps = gaps.push(gap);
            lemma_joined_with_prefix(views, gaps_before, gaps, i as nat);
            assert(total_path@ =~= joined_before + gap + views[i as int].path);
            assert forall|k: int| 1 <= k < i + 1 implies gap_filled(
                si,
                views[k - 1].path,
                views[k].path,
                #[trigger] gaps[k],
            ) by {
                if k < i {
                    assert(gaps[k] == gaps_before[k]);
                }
            }
            if seams_closed(ends, views, i + 1) {
                assert(seams_closed(ends, views, i as int));
                if i > 0 {
                    assert(seam_closed(ends, views[i - 1].path, views[i as int].path));
                    assert(gap.len() == 0);
                }
                assert(total_path@ =~= concat_paths(views, i as nat) + views[i as int].path);
            }
        }
        i += 1;
    }
    assert(views.take(i as int) =~= views);
    let joined_path = dedup_path(&total_path);
    proof {
        if paths_in_graph(si.graph.ends(), views) {
            lemma_dedup_in_graph(si.graph.ends(), total_path@);
        }
        lemma_dedup_no_repeats(total_path@);
    }
    let mut joined = TrajectorySegment::new(MapMatchingTrace::new(total_points), joined_path);
    let ghost before = joined@;
    proof {
        if count == 1 {
            assert(views.drop_last() =~= Seq::<TrajectorySegmentView>::empty());
            assert(views.last() == views[0]);
            assert(concat_traces(views.drop_last()) =~= Seq::<MapMatchingPoint>::empty());
            assert(concat_traces(views) =~= views[0].trace);
        }
        assert(before == unscored(
            concat_traces(views),
            dedup_consecutive(joined_with(views, gaps, count as nat)),
        ));
    }
    match joined.score_and_match(lcss, &si.map_model) {
        Ok(()) => {
            assert(joined_from(si, *lcss, views, gaps, joined@));
            Ok(joined)
        },
        Err(e) => {
            assert(gaps_filled(si, views, gaps, views.len() as int));
            Err(e)
        },
    }
}

} // verus!
