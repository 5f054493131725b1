//! What matching a trace does, step by step, with the answers of the map
//! and of the searches.
//!
//! The trace is put into segments. A segment that scores below the cutoff
//! is split, and its parts take its place if they score better when they
//! are joined again. The relations of this module say which segments follow
//! from which, and which result from which segments.

use vstd::prelude::*;
use crate::constraint::SpatialIndexType;
use crate::label::LabelModel;
use crate::map_matching::distance::Distance;
use crate::map_matching::lcss::cutting_points::cutting_points_of;
use crate::map_matching::lcss::join::{join_segments, unscored};
use crate::map_matching::lcss::lcss_map_matching::{index_asked, LcssMapMatching, ROUNDS};
use crate::map_matching::lcss::lcss_ops::measured_gaps;
use crate::map_matching::lcss::stationary::{kept_points, reexpand, skip_set, stationary_groups};
use crate::map_matching::lcss::trajectory_segment::{
    path_sought, scored_and_matched, segment_views, TrajectorySegment, TrajectorySegmentView,
};
use crate::map_matching::map_matching_error::MapMatchingError;
use crate::map_matching::map_matching_result::MapMatchingResult;
use crate::map_matching::map_matching_trace::{MapMatchingPoint, MapMatchingTrace};
use crate::map_matching::map_model::MapModel;
use crate::network::EdgeRef;
use crate::search::models::{ConstraintModel, CostModel, TraversalModel};
use crate::search::search_instance::SearchInstance;

verus! {

/// The segment with other cutting points.
pub open spec fn with_cuts(segment: TrajectorySegmentView, cuts: Seq<usize>) -> TrajectorySegmentView {
    TrajectorySegmentView {
        trace: segment.trace,
        path: segment.path,
        matches: segment.matches,
        score: segment.score,
        cutting_points: cuts,
    }
}

/// The segment `scored`, with the cutting points that are chosen for it.
pub open spec fn prepared(scored: TrajectorySegmentView, lcss: LcssMapMatching) -> TrajectorySegmentView {
    with_cuts(scored, cutting_points_of(scored, lcss))
}

/// Whether a segment is replaced by its parts: it scores below the cutoff,
/// it was split in more than one part, and the parts joined again score
/// strictly better than the segment.
pub open spec fn accepts(score: u64, cutoff: u64, parts: nat, joined_score: u64) -> bool {
    score < cutoff && parts > 1 && joined_score > score
}

/// Whether `split` is what splitting `segment` may give.
pub open spec fn split_answered<
    T: TraversalModel,
    K: CostModel,
    C: ConstraintModel,
    L: LabelModel,
    M: MapModel,
>(
    si: &SearchInstance<T, K, C, L, M>,
    segment: TrajectorySegment,
    split: Result<Vec<TrajectorySegment>, MapMatchingError>,
) -> bool {
    call_ensures(TrajectorySegment::split_segment::<T, K, C, L, M>, (&segment, si), split)
}

/// Whether `joined` is what joining `segments` may give.
pub open spec fn join_answered<
    T: TraversalModel,
    K: CostModel,
    C: ConstraintModel,
    L: LabelModel,
    M: MapModel,
>(
    si: &SearchInstance<T, K, C, L, M>,
    lcss: LcssMapMatching,
    segments: Vec<TrajectorySegment>,
    joined: Result<TrajectorySegment, MapMatchingError>,
) -> bool {
    call_ensures(join_segments::<T, K, C, L, M>, (&lcss, segments, si), joined)
}

/// Refining a segment, from where it was split in more than one part: the
/// parts are joined, and they take the place of the segment if the join
/// scores strictly better. A failure of the join is the failure of the
/// step.
pub open spec fn joined_then<
    T: TraversalModel,
    K: CostModel,
    C: ConstraintModel,
    L: LabelModel,
    M: MapModel,
>(
    si: &SearchInstance<T, K, C, L, M>,
    lcss: LcssMapMatching,
    scored: TrajectorySegmentView,
    split: Seq<TrajectorySegmentView>,
    copies: Vec<TrajectorySegment>,
    joined: Result<TrajectorySegment, MapMatchingError>,
    parts: Seq<TrajectorySegmentView>,
    changed: bool,
    failure: Option<MapMatchingError>,
) -> bool {
    &&& segment_views(copies@) == split
    &&& join_answered(si, lcss, copies, joined)
    &&& match joined {
        Ok(whole) => failure is None && if accepts(
            scored.score,
            lcss.similarity_cutoff,
            split.len(),
            whole.score,
        ) {
            parts == split && changed
        } else {
            parts == seq![scored] && !changed
        },
        Err(e) => failure == Some(e),
    }
}

/// Refining a segment that scores below the cutoff: it is split. If that
/// gives more than one part, the parts are tried (see [`joined_then`]);
/// else the segment stays. A failure of the split is the failure of the
/// step.
pub open spec fn split_then<
    T: TraversalModel,
    K: CostModel,
    C: ConstraintModel,
    L: LabelModel,
    M: MapModel,
>(
    si: &SearchInstance<T, K, C, L, M>,
    lcss: LcssMapMatching,
    scored: TrajectorySegmentView,
    segment: TrajectorySegment,
    split: Result<Vec<TrajectorySegment>, MapMatchingError>,
    parts: Seq<TrajectorySegmentView>,
    changed: bool,
    failure: Option<MapMatchingError>,
) -> bool {
    &&& segment@ == scored
    &&& split_answered(si, segment, split)
    &&& match split {
        Ok(_) => if split->Ok_0@.len() > 1 {
            exists|copies: Vec<TrajectorySegment>, joined: Result<TrajectorySegment, MapMatchingError>|
                #![trigger joined_then(si, lcss, scored, segment_views(split->Ok_0@), copies, joined, parts, changed, failure)]
                joined_then(
                    si,
                    lcss,
                    scored,
                    segment_views(split->Ok_0@),
                    copies,
                    joined,
                    parts,
                    changed,
                    failure,
                )
        } else {
            parts == seq![scored] && !changed && failure is None
        },
        Err(e) => failure == Some(e),
    }
}

/// Refining a segment, from where it was scored and matched anew: with the
/// cutting points that are chosen for it, it stays if it scores at least
/// the cutoff, and is split otherwise (see [`split_then`]).
pub open spec fn scored_then<
    T: TraversalModel,
    K: CostModel,
    C: ConstraintModel,
    L: LabelModel,
    M: MapModel,
>(
    si: &SearchInstance<T, K, C, L, M>,
    lcss: LcssMapMatching,
    before: TrajectorySegmentView,
    scored: TrajectorySegmentView,
    parts: Seq<TrajectorySegmentView>,
    changed: bool,
    failure: Option<MapMatchingError>,
) -> bool {
    &&& scored_and_matched(&si.map_model, before, lcss, scored)
    &&& if scored.score < lcss.similarity_cutoff {
        exists|segment: TrajectorySegment, split: Result<Vec<TrajectorySegment>, MapMatchingError>|
            #![trigger split_then(si, lcss, prepared(scored, lcss), segment, split, parts, changed, failure)]
            split_then(si, lcss, prepared(scored, lcss), segment, split, parts, changed, failure)
    } else {
        parts == seq![prepared(scored, lcss)] && !changed && failure is None
    }
}

/// Whether refining the segment `before` gives `parts`, which are other
/// segments than `before` if `changed`, or fails with `failure`: the
/// segment is scored and matched anew, and then treated as [`scored_then`]
/// says.
pub open spec fn refined<
    T: TraversalModel,
    K: CostModel,
    C: ConstraintModel,
    L: LabelModel,
    M: MapModel,
>(
    si: &SearchInstance<T, K, C, L, M>,
    lcss: LcssMapMatching,
    before: TrajectorySegmentView,
    parts: Seq<TrajectorySegmentView>,
    changed: bool,
    failure: Option<MapMatchingError>,
) -> bool {
    exists|scored: TrajectorySegmentView|
        #![trigger scored_then(si, lcss, before, scored, parts, changed, failure)]
        scored_then(si, lcss, before, scored, parts, changed, failure)
}

/// Whether `next` and `changed` are `before` and `was_changed` with the
/// parts of one more segment.
pub open spec fn parts_added(
    before: Seq<TrajectorySegmentView>,
    was_changed: bool,
    parts: Seq<TrajectorySegmentView>,
    part_changed: bool,
    next: Seq<TrajectorySegmentView>,
    changed: bool,
) -> bool {
    next == before + parts && changed == (was_changed || part_changed)
}

/// Whether refining the first `k` segments of `scheme`, one after the
/// other and without a failure, gives the segments `next`, which are
/// others than those of `scheme` if `changed`.
pub open spec fn round_upto<
    T: TraversalModel,
    K: CostModel,
    C: ConstraintModel,
    L: LabelModel,
    M: MapModel,
>(
    si: &SearchInstance<T, K, C, L, M>,
    lcss: LcssMapMatching,
    scheme: Seq<TrajectorySegmentView>,
    k: nat,
    next: Seq<TrajectorySegmentView>,
    changed: bool,
) -> bool
    decreases k,
{
    if k == 0 {
        next.len() == 0 && !changed
    } else {
        exists|
            before: Seq<TrajectorySegmentView>,
            was_changed: bool,
            parts: Seq<TrajectorySegmentView>,
            part_changed: bool,
        |
            #![trigger parts_added(before, was_changed, parts, part_changed, next, changed)]
            parts_added(before, was_changed, parts, part_changed, next, changed) && round_upto(
                si,
                lcss,
                scheme,
                (k - 1) as nat,
                before,
                was_changed,
            ) && refined(
                si,
                lcss,
                scheme[k - 1],
                parts,
                part_changed,
                None::<MapMatchingError>,
            )
    }
}

/// Whether refining segment `k` of `scheme` fails with `e`, after the
/// segments before it were refined.
pub open spec fn round_fails<
    T: TraversalModel,
    K: CostModel,
    C: ConstraintModel,
    L: LabelModel,
    M: MapModel,
>(
    si: &SearchInstance<T, K, C, L, M>,
    lcss: LcssMapMatching,
    scheme: Seq<TrajectorySegmentView>,
    k: int,
    before: Seq<TrajectorySegmentView>,
    was_changed: bool,
    e: MapMatchingError,
) -> bool {
    &&& 0 <= k < scheme.len()
    &&& round_upto(si, lcss, scheme, k as nat, before, was_changed)
    &&& exists|parts: Seq<TrajectorySegmentView>, part_changed: bool|
        #![trigger refined(si, lcss, scheme[k], parts, part_changed, Some(e))]
        refined(si, lcss, scheme[k], parts, part_changed, Some(e))
}

/// Whether `n` rounds, each of which refines every segment and changes
/// some, lead from the segments `start` to the segments `scheme`.
pub open spec fn rounds_upto<
    T: TraversalModel,
    K: CostModel,
    C: ConstraintModel,
    L: LabelModel,
    M: MapModel,
>(
    si: &SearchInstance<T, K, C, L, M>,
    lcss: LcssMapMatching,
    start: Seq<TrajectorySegmentView>,
    n: nat,
    scheme: Seq<TrajectorySegmentView>,
) -> bool
    decreases n,
{
    if n == 0 {
        scheme == start
    } else {
        exists|before: Seq<TrajectorySegmentView>|
            #![trigger round_upto(si, lcss, before, before.len(), scheme, true)]
            rounds_upto(si, lcss, start, (n - 1) as nat, before) && round_upto(
                si,
                lcss,
                before,
                before.len(),
                scheme,
                true,
            )
    }
}

/// Whether the rounds end with the segments `scheme` after `n` rounds: the
/// rounds are used up, or one more round changes none of the segments.
pub open spec fn rounds_end<
    T: TraversalModel,
    K: CostModel,
    C: ConstraintModel,
    L: LabelModel,
    M: MapModel,
>(
    si: &SearchInstance<T, K, C, L, M>,
    lcss: LcssMapMatching,
    start: Seq<TrajectorySegmentView>,
    n: nat,
    scheme: Seq<TrajectorySegmentView>,
) -> bool {
    &&& n <= ROUNDS
    &&& rounds_upto(si, lcss, start, n, scheme)
    &&& n == ROUNDS || exists|next: Seq<TrajectorySegmentView>|
        #![trigger round_upto(si, lcss, scheme, scheme.len(), next, false)]
        round_upto(si, lcss, scheme, scheme.len(), next, false)
}

/// Whether the rounds fail with `e`: after `n` rounds that led to the
/// segments `scheme`, while there is a round left, refining segment `k`
/// fails with it.
pub open spec fn rounds_fail<
    T: TraversalModel,
    K: CostModel,
    C: ConstraintModel,
    L: LabelModel,
    M: MapModel,
>(
    si: &SearchInstance<T, K, C, L, M>,
    lcss: LcssMapMatching,
    start: Seq<TrajectorySegmentView>,
    n: nat,
    scheme: Seq<TrajectorySegmentView>,
    k: int,
    before: Seq<TrajectorySegmentView>,
    was_changed: bool,
    e: MapMatchingError,
) -> bool {
    &&& n < ROUNDS
    &&& rounds_upto(si, lcss, start, n, scheme)
    &&& round_fails(si, lcss, scheme, k, before, was_changed, e)
}

/// The trace without its stationary points, which are told by the
/// distances `gaps` between consecutive points.
pub open spec fn moving_points(trace: Seq<MapMatchingPoint>, gaps: Seq<Option<Distance>>) -> Seq<
    MapMatchingPoint,
> {
    kept_points(trace, skip_set(stationary_groups(gaps)), trace.len())
}

/// The end of matching a trace: the segments `scheme`, with which the
/// rounds ended, are joined; a failure of the join is the failure of the
/// match; else the result has the path of the join and its matches, where
/// each stationary point takes the match of the point before it.
pub open spec fn finished<
    T: TraversalModel,
    K: CostModel,
    C: ConstraintModel,
    L: LabelModel,
    M: MapModel,
>(
    si: &SearchInstance<T, K, C, L, M>,
    lcss: LcssMapMatching,
    trace: Seq<MapMatchingPoint>,
    gaps: Seq<Option<Distance>>,
    start: Seq<TrajectorySegmentView>,
    n: nat,
    scheme: Vec<TrajectorySegment>,
    joined: Result<TrajectorySegment, MapMatchingError>,
    r: Result<MapMatchingResult, MapMatchingError>,
) -> bool {
    &&& rounds_end(si, lcss, start, n, segment_views(scheme@))
    &&& join_answered(si, lcss, scheme, joined)
    &&& match joined {
        Ok(whole) => r matches Ok(result) && result.point_matches@ == reexpand(
            whole@.matches,
            skip_set(stationary_groups(gaps)),
            trace.len(),
        ) && result.matched_path@ == whole@.path,
        Err(e) => r == Err::<MapMatchingResult, MapMatchingError>(e),
    }
}

/// Whether `r` is the result of matching a trace from the segments `start`
/// on: the rounds fail, and the match with them; or they end, and the
/// match ends as [`finished`] says.
pub open spec fn refined_and_joined<
    T: TraversalModel,
    K: CostModel,
    C: ConstraintModel,
    L: LabelModel,
    M: MapModel,
>(
    si: &SearchInstance<T, K, C, L, M>,
    lcss: LcssMapMatching,
    trace: Seq<MapMatchingPoint>,
    gaps: Seq<Option<Distance>>,
    start: Seq<TrajectorySegmentView>,
    r: Result<MapMatchingResult, MapMatchingError>,
) -> bool {
    ||| exists|
        n: nat,
        scheme: Seq<TrajectorySegmentView>,
        k: int,
        before: Seq<TrajectorySegmentView>,
        was_changed: bool,
        e: MapMatchingError,
    |
        #![trigger rounds_fail(si, lcss, start, n, scheme, k, before, was_changed, e)]
        rounds_fail(si, lcss, start, n, scheme, k, before, was_changed, e) && r == Err::<
            MapMatchingResult,
            MapMatchingError,
        >(e)
    ||| exists|
        n: nat,
        scheme: Vec<TrajectorySegment>,
        joined: Result<TrajectorySegment, MapMatchingError>,
    |
        #![trigger finished(si, lcss, trace, gaps, start, n, scheme, joined, r)]
        finished(si, lcss, trace, gaps, start, n, scheme, joined, r)
}

/// Matching a trace, from where the path for its moving points was found:
/// the segment of these points and the path is scored and matched, gets
/// its cutting points and is split; a failure of the split is the failure
/// of the match; else the match goes on from the parts (see
/// [`refined_and_joined`]).
pub open spec fn first_split<
    T: TraversalModel,
    K: CostModel,
    C: ConstraintModel,
    L: LabelModel,
    M: MapModel,
>(
    si: &SearchInstance<T, K, C, L, M>,
    lcss: LcssMapMatching,
    trace: Seq<MapMatchingPoint>,
    gaps: Seq<Option<Distance>>,
    path: Seq<EdgeRef>,
    scored: TrajectorySegmentView,
    segment: TrajectorySegment,
    split: Result<Vec<TrajectorySegment>, MapMatchingError>,
    r: Result<MapMatchingResult, MapMatchingError>,
) -> bool {
    &&& scored_and_matched(&si.map_model, unscored(moving_points(trace, gaps), path), lcss, scored)
    &&& segment@ == prepared(scored, lcss)
    &&& split_answered(si, segment, split)
    &&& match split {
        Ok(_) => refined_and_joined(si, lcss, trace, gaps, segment_views(split->Ok_0@), r),
        Err(e) => r == Err::<MapMatchingResult, MapMatchingError>(e),
    }
}

/// Matching a trace that is not empty, from the answer of the map model on
/// its spatial index: an index that is keyed by vertices is refused with
/// `InternalError`. Else the stationary points are told by the distances
/// `gaps`, a path is sought for the other points, and the match goes on as
/// [`first_split`] says; a failure of the search is the failure of the
/// match.
pub open spec fn begun<
    T: TraversalModel,
    K: CostModel,
    C: ConstraintModel,
    L: LabelModel,
    M: MapModel,
>(
    si: &SearchInstance<T, K, C, L, M>,
    lcss: LcssMapMatching,
    trace: Seq<MapMatchingPoint>,
    index: SpatialIndexType,
    gaps: Seq<Option<Distance>>,
    moving: MapMatchingTrace,
    sought: Result<Vec<EdgeRef>, MapMatchingError>,
    r: Result<MapMatchingResult, MapMatchingError>,
) -> bool {
    &&& index_asked(&si.map_model, index)
    &&& match index {
        SpatialIndexType::VertexOriented => r matches Err(MapMatchingError::InternalError(_)),
        SpatialIndexType::EdgeOriented => {
            &&& measured_gaps(&si.map_model, trace, gaps)
            &&& path_sought(si, moving, moving_points(trace, gaps), sought)
            &&& match sought {
                Ok(_) => exists|
                    scored: TrajectorySegmentView,
                    segment: TrajectorySegment,
                    split: Result<Vec<TrajectorySegment>, MapMatchingError>,
                |
                    #![trigger first_split(si, lcss, trace, gaps, sought->Ok_0@, scored, segment, split, r)]
                    first_split(si, lcss, trace, gaps, sought->Ok_0@, scored, segment, split, r),
                Err(e) => r == Err::<MapMatchingResult, MapMatchingError>(e),
            }
        },
    }
}

/// Whether `r` is the result of matching the trace, step by step: an empty
/// trace is refused with `EmptyTrace`; any other is matched as [`begun`]
/// says.
pub open spec fn matched_stepwise<
    T: TraversalModel,
    K: CostModel,
    C: ConstraintModel,
    L: LabelModel,
    M: MapModel,
>(
    si: &SearchInstance<T, K, C, L, M>,
    lcss: LcssMapMatching,
    trace: Seq<MapMatchingPoint>,
    r: Result<MapMatchingResult, MapMatchingError>,
) -> bool {
    if trace.len() == 0 {
        r == Err::<MapMatchingResult, MapMatchingError>(MapMatchingError::EmptyTrace)
    } else {
        exists|
            index: SpatialIndexType,
            gaps: Seq<Option<Distance>>,
            moving: MapMatchingTrace,
            sought: Result<Vec<EdgeRef>, MapMatchingError>,
        |
            #![trigger begun(si, lcss, trace, index, gaps, moving, sought, r)]
            begun(si, lcss, trace, index, gaps, moving, sought, r)
    }
}

/// One more segment that is refined without a failure.
pub proof fn lemma_round_once<
    T: TraversalModel,
    K: CostModel,
    C: ConstraintModel,
    L: LabelModel,
    M: MapModel,
>(
    si: &SearchInstance<T, K, C, L, M>,
    lcss: LcssMapMatching,
    scheme: Seq<TrajectorySegmentView>,
    k: nat,
    before: Seq<TrajectorySegmentView>,
    was_changed: bool,
    parts: Seq<TrajectorySegmentView>,
    part_changed: bool,
)
    requires
        round_upto(si, lcss, scheme, k, before, was_changed),
        refined(si, lcss, scheme[k as int], parts, part_changed, None::<MapMatchingError>),
    ensures
        round_upto(si, lcss, scheme, k + 1, before + parts, was_changed || part_changed),
{
    assert(parts_added(
        before,
        was_changed,
        parts,
        part_changed,
        before + parts,
        was_changed || part_changed,
    ));
    assert(round_upto(si, lcss, scheme, ((k + 1) - 1) as nat, before, was_changed));
}

/// One more round.
pub proof fn lemma_rounds_once<
    T: TraversalModel,
    K: CostModel,
    C: ConstraintModel,
    L: LabelModel,
    M: MapModel,
>(
    si: &SearchInstance<T, K, C, L, M>,
    lcss: LcssMapMatching,
    start: Seq<TrajectorySegmentView>,
    n: nat,
    before: Seq<TrajectorySegmentView>,
    scheme: Seq<TrajectorySegmentView>,
)
    requires
        rounds_upto(si, lcss, start, n, before),
        round_upto(si, lcss, before, before.len(), scheme, true),
    ensures
        rounds_upto(si, lcss, start, n + 1, scheme),
{
    assert(rounds_upto(si, lcss, start, ((n + 1) - 1) as nat, before));
}

/// Whether matching a trace that is not empty has come to its first split:
/// the spatial index is keyed by edges, the stationary points are told by
/// `gaps`, the path `sought` was found for the other points, and their
/// segment was scored, matched and split in `split`.
pub open spec fn match_begun<
    T: TraversalModel,
    K: CostModel,
    C: ConstraintModel,
    L: LabelModel,
    M: MapModel,
>(
    si: &SearchInstance<T, K, C, L, M>,
    lcss: LcssMapMatching,
    trace: Seq<MapMatchingPoint>,
    index: SpatialIndexType,
    gaps: Seq<Option<Distance>>,
    moving: MapMatchingTrace,
    sought: Result<Vec<EdgeRef>, MapMatchingError>,
    scored: TrajectorySegmentView,
    segment: TrajectorySegment,
    split: Result<Vec<TrajectorySegment>, MapMatchingError>,
) -> bool {
    &&& trace.len() > 0
    &&& index_asked(&si.map_model, index)
    &&& index is EdgeOriented
    &&& measured_gaps(&si.map_model, trace, gaps)
    &&& path_sought(si, moving, moving_points(trace, gaps), sought)
    &&& sought is Ok
    &&& scored_and_matched(
        &si.map_model,
        unscored(moving_points(trace, gaps), sought->Ok_0@),
        lcss,
        scored,
    )
    &&& segment@ == prepared(scored, lcss)
    &&& split_answered(si, segment, split)
    &&& split is Ok
}

/// A match that has come to its first split and goes on from there as
/// [`refined_and_joined`] says is a match step by step.
pub proof fn lemma_match_begun<
    T: TraversalModel,
    K: CostModel,
    C: ConstraintModel,
    L: LabelModel,
    M: MapModel,
>(
    si: &SearchInstance<T, K, C, L, M>,
    lcss: LcssMapMatching,
    trace: Seq<MapMatchingPoint>,
    index: SpatialIndexType,
    gaps: Seq<Option<Distance>>,
    moving: MapMatchingTrace,
    sought: Result<Vec<EdgeRef>, MapMatchingError>,
    scored: TrajectorySegmentView,
    segment: TrajectorySegment,
    split: Result<Vec<TrajectorySegment>, MapMatchingError>,
    r: Result<MapMatchingResult, MapMatchingError>,
)
    requires
        match_begun(si, lcss, trace, index, gaps, moving, sought, scored, segment, split),
        refined_and_joined(si, lcss, trace, gaps, segment_views(split->Ok_0@), r),
    ensures
        matched_stepwise(si, lcss, trace, r),
{
    assert(first_split(si, lcss, trace, gaps, sought->Ok_0@, scored, segment, split, r));
    assert(begun(si, lcss, trace, index, gaps, moving, sought, r));
}

} // verus!
