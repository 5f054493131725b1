//! A stretch of a trace with the path matched to it.

use vstd::prelude::*;
use crate::label::LabelModel;
use crate::map_matching::distance::Distance;
use crate::map_matching::lcss::cutting_points::{
    all_unmatched, cut_candidates, cuts_in_order, cutting_points_of, near_matches, thin_out,
    worst_match,
};
use crate::map_matching::lcss::join::paths_in_graph;
use crate::map_matching::lcss::lcss_map_matching::LcssMapMatching;
use crate::map_matching::lcss::lcss_ops::{
    compute_distance_to_edge, edge_measured, new_path_for_trace, path_in_graph,
};
use crate::map_matching::lcss::scoring::{
    first_nearest, is_nearest_match, lcss_weight, least, lemma_lcss_bound, lemma_score_bound,
    match_with, matched_on, matches_on_path, no_match, penalize, penalized, raw_score,
    similarity_of, table_shape, table_view,
};
use crate::map_matching::map_matching_error::MapMatchingError;
use crate::map_matching::map_matching_result::PointMatch;
use crate::map_matching::map_matching_trace::{MapMatchingPoint, MapMatchingTrace};
use crate::map_matching::map_model::MapModel;
use crate::network::{EdgeId, EdgeListId, EdgeRef};
use crate::search::models::{ConstraintModel, CostModel, TraversalModel};
use crate::search::search_instance::SearchInstance;

verus! {

/// A segment of a trajectory: the trace points, the path matched to them,
/// the match of each point, the score of the match in parts per million,
/// and the points at which the segment may be split.
#[derive(Debug)]
pub struct TrajectorySegment {
    pub trace: MapMatchingTrace,
    pub path: Vec<EdgeRef>,
    pub matches: Vec<PointMatch>,
    pub score: u64,
    pub cutting_points: Vec<usize>,
}

/// The mathematical content of a [`TrajectorySegment`].
pub struct TrajectorySegmentView {
    pub trace: Seq<MapMatchingPoint>,
    pub path: Seq<EdgeRef>,
    pub matches: Seq<PointMatch>,
    pub score: u64,
    pub cutting_points: Seq<usize>,
}

impl View for TrajectorySegment {
    type V = TrajectorySegmentView;

    open spec fn view(&self) -> TrajectorySegmentView {
        TrajectorySegmentView {
            trace: self.trace@,
            path: self.path@,
            matches: self.matches@,
            score: self.score,
            cutting_points: self.cutting_points@,
        }
    }
}

impl Clone for TrajectorySegment {
    fn clone(&self) -> (r: Self)
        ensures
            r@ == self@,
    {
        let path = copy_path(&self.path);
        let matches = self.matches.clone();
        let cutting_points = self.cutting_points.clone();
        assert(path@ =~= self.path@);
        assert(matches@ =~= self.matches@);
        assert(cutting_points@ =~= self.cutting_points@);
        TrajectorySegment {
            trace: self.trace.clone(),
            path,
            matches,
            score: self.score,
            cutting_points,
        }
    }
}

/// The views of a sequence of segments.
pub open spec fn segment_views(segments: Seq<TrajectorySegment>) -> Seq<TrajectorySegmentView> {
    segments.map_values(|s: TrajectorySegment| s@)
}

/// The points of the traces of the segments, segment after segment.
pub open spec fn concat_traces(segments: Seq<TrajectorySegmentView>) -> Seq<MapMatchingPoint>
    decreases segments.len(),
{
    if segments.len() == 0 {
        Seq::empty()
    } else {
        concat_traces(segments.drop_last()) + segments.last().trace
    }
}

/// The traces of two rows of segments, one after the other, are the traces
/// of the two rows in one.
pub proof fn lemma_concat_traces(a: Seq<TrajectorySegmentView>, b: Seq<TrajectorySegmentView>)
    ensures
        concat_traces(a + b) == concat_traces(a) + concat_traces(b),
    decreases b.len(),
{
    if b.len() == 0 {
        assert(a + b =~= a);
        assert(concat_traces(a) + concat_traces(b) =~= concat_traces(a));
    } else {
        lemma_concat_traces(a, b.drop_last());
        assert((a + b).drop_last() =~= a + b.drop_last());
        assert((a + b).last() == b.last());
        assert(concat_traces(a + b) =~= concat_traces(a) + concat_traces(b));
    }
}

impl TrajectorySegment {
    /// A segment of the given trace and path, without matches and cutting
    /// points and with a score of zero.
    pub fn new(trace: MapMatchingTrace, path: Vec<EdgeRef>) -> (segment: Self)
        ensures
            segment@ == (TrajectorySegmentView {
                trace: trace@,
                path: path@,
                matches: Seq::empty(),
                score: 0,
                cutting_points: Seq::empty(),
            }),
            segment.trace == trace,
            segment.path == path,
    {
        TrajectorySegment {
            trace,
            path,
            matches: Vec::new(),
            score: 0,
            cutting_points: Vec::new(),
        }
    }

    /// Scores the path against the trace and matches each point of the
    /// trace to its nearest edge of the path, by the distances that the map
    /// model gives from each point to each edge; see
    /// [`TrajectorySegment::score_and_match_distances`].
    ///
    /// The map model is asked for the distance from each point of the
    /// trace to each edge of the path, and the segment is scored and matched
    /// by the table of its answers (see [`scored_by`]). Whatever the map
    /// answers: an empty trace is refused with `EmptyTrace`; otherwise every
    /// point gets a match, and the score is at most one whole.
    pub fn score_and_match<M: MapModel>(&mut self, lcss: &LcssMapMatching, map_model: &M) -> (r:
        Result<(), MapMatchingError>)
        ensures
            final(self)@.trace == old(self)@.trace,
            final(self)@.path == old(self)@.path,
            final(self)@.cutting_points == old(self)@.cutting_points,
            old(self)@.trace.len() > 0 ==> scored_and_matched(
                map_model,
                old(self)@,
                *lcss,
                final(self)@,
            ),
            old(self)@.trace.len() == 0 ==> r == Err::<(), MapMatchingError>(
                MapMatchingError::EmptyTrace,
            ) && final(self)@ == old(self)@,
            old(self)@.trace.len() > 0 ==> r is Ok && final(self)@.matches.len()
                == old(self)@.trace.len() && final(self)@.score <= 1_000_000,
            r is Ok ==> matches_on_path(final(self)@.matches, final(self)@.path),
            old(self)@.trace.len() > 0 && old(self)@.path.len() == 0 ==> final(self)@.score == 0
                && forall|i: int|
                0 <= i < final(self)@.matches.len() ==> #[trigger] final(self)@.matches[i]
                    == no_match(),
    {
        let m: usize = self.trace.len();
        let n: usize = self.path.len();
        let mut distances: Vec<Vec<Distance>> = Vec::new();
        let mut j: usize = 0;
        while j < n
            invariant
                j <= n,
                n == self.path@.len(),
                m == self.trace@.len(),
                self@ == old(self)@,
                distances@.len() == j,
                forall|k: int| 0 <= k < j ==> (#[trigger] distances@[k])@.len() == m,
                forall|k: int| 0 <= k < j ==> #[trigger] row_measured(
                    map_model,
                    self@.trace,
                    self@.path[k],
                    distances@[k]@,
                    m as nat,
                ),
            decreases n - j,
        {
            let edge: EdgeRef = self.path[j];
            let mut row: Vec<Distance> = Vec::new();
            let mut i: usize = 0;
            while i < m
                invariant
                    i <= m,
                    m == self.trace@.len(),
                    self@ == old(self)@,
                    row@.len() == i,
                    row_measured(map_model, self@.trace, edge, row@, i as nat),
                decreases m - i,
            {
                let distance = compute_distance_to_edge(
                    &self.trace.points[i],
                    &edge.0,
                    &edge.1,
                    map_model,
                );
                assert(edge_measured(map_model, self@.trace[i as int], edge.0, edge.1, distance));
                row.push(distance);
                i += 1;
            }
            distances.push(row);
            j += 1;
        }
        let ghost before = self@;
        proof {
            let table = table_view(&distances);
            assert forall|k: int| 0 <= k < n implies (#[trigger] table[k]).len() == m
                && row_measured(map_model, before.trace, before.path[k], table[k], m as nat) by {
                assert(table[k] == distances@[k]@);
                assert(row_measured(map_model, before.trace, before.path[k], distances@[k]@, m as nat));
            }
            assert(measured_table(map_model, before.trace, before.path, table));
        }
        let r = self.score_and_match_distances(lcss, &distances);
        proof {
            if m > 0 {
                assert(scored_with(map_model, before, *lcss, table_view(&distances), self@));
            }
        }
        r
    }

    /// Splits the segment at its cutting points.
    ///
    /// A trace of fewer than two points, or without cutting points, gives
    /// the segment itself. Otherwise the trace is cut into the stretches
    /// between consecutive cutting points and from the last one to the end
    /// (see [`stretches`]); each stretch that is not empty becomes a new
    /// segment, without matches and with a score of zero, whose path is
    /// what [`new_path_for_trace`] returns for the stretch. The first
    /// search that fails is the failure of the split.
    ///
    /// Whatever the searches answer, the traces of the new segments, one
    /// after the other, are the trace of this segment.
    pub fn split_segment<
        T: TraversalModel,
        K: CostModel,
        C: ConstraintModel,
        L: LabelModel,
        M: MapModel,
    >(&self, si: &SearchInstance<T, K, C, L, M>) -> (r: Result<
        Vec<TrajectorySegment>,
        MapMatchingError,
    >)
        requires
            si.graph.wf(),
            cuts_in_order(self@.cutting_points, self@.trace.len()),
        ensures
            (self@.trace.len() < 2 || self@.cutting_points.len() == 0) ==> (r matches Ok(segments)
                && segments@.len() == 1 && segments@[0]@ == self@),
            self@.trace.len() >= 2 && self@.cutting_points.len() > 0 ==> split_made(si, self@, r),
            match r {
                Ok(segments) => concat_traces(segment_views(segments@)) == self@.trace
                    && segments@.len() > 0 && segments@.len() <= self@.cutting_points.len() + 1
                    && (self@.trace.len() >= 2 && self@.cutting_points.len() > 0 ==> parts_new(
                    segment_views(segments@),
                )) && (path_in_graph(si.graph.ends(), self@.path) ==> paths_in_graph(
                    si.graph.ends(),
                    segment_views(segments@),
                )),
                Err(e) => e matches MapMatchingError::SearchError(cause)
                    && !(cause is NoPathExistsBetweenVertices),
            },
    {
        let n: usize = self.trace.len();
        let mut result: Vec<TrajectorySegment> = Vec::new();
        if n < 2 || self.cutting_points.len() == 0 {
            result.push(self.clone());
            proof {
                let views = segment_views(result@);
                assert(views.drop_last() =~= Seq::<TrajectorySegmentView>::empty());
                assert(views.last() == self@);
                assert(concat_traces(views.drop_last()) =~= Seq::<MapMatchingPoint>::empty());
                assert(concat_traces(views) =~= self@.trace);
            }
            return Ok(result);
        }
        let ghost trace = self@.trace;
        let ghost cuts = self@.cutting_points;
        let mut last_idx: usize = 0;
        let mut c: usize = 0;
        assert(self@.trace.take(0) =~= Seq::<MapMatchingPoint>::empty());
        assert(segment_views(result@) =~= Seq::<TrajectorySegmentView>::empty());
        while c < self.cutting_points.len()
            invariant
                c <= self.cutting_points.len(),
                si.graph.wf(),
                trace == self@.trace,
                cuts == self@.cutting_points,
                n == trace.len(),
                n >= 2,
                cuts.len() > 0,
                cuts_in_order(cuts, n as nat),
                last_idx <= n,
                stretches_made(si, trace, cuts, c as int, last_idx as int, result@),
            decreases self.cutting_points.len() - c,
        {
            let cp: usize = self.cutting_points[c];
            proof {
                if c > 0 {
                    assert(cuts[c - 1] <= cuts[c as int]);
                }
                assert(cuts[c as int] <= n);
            }
            match self.add_stretch(si, &mut result, c, last_idx, cp) {
                Ok(()) => {},
                Err(e) => {
                    return Err(e);
                },
            }
            last_idx = cp;
            c += 1;
        }
        match self.add_stretch(si, &mut result, c, last_idx, n) {
            Ok(()) => {},
            Err(e) => {
                return Err(e);
            },
        }
        assert(trace.take(n as int) =~= trace);
        Ok(result)
    }

    /// Adds the segment for the stretch with the number `c`, which holds
    /// the points from `from` up to `to`, to the segments that were made
    /// for the stretches before it; an empty stretch adds nothing.
    fn add_stretch<
        T: TraversalModel,
        K: CostModel,
        C: ConstraintModel,
        L: LabelModel,
        M: MapModel,
    >(
        &self,
        si: &SearchInstance<T, K, C, L, M>,
        result: &mut Vec<TrajectorySegment>,
        c: usize,
        from: usize,
        to: usize,
    ) -> (r: Result<(), MapMatchingError>)
        requires
            si.graph.wf(),
            c <= self@.cutting_points.len(),
            from <= to <= self@.trace.len(),
            to == stretch_end(self@.cutting_points, c as int, self@.trace.len() as int),
            stretches_made(si, self@.trace, self@.cutting_points, c as int, from as int, old(result)@),
        ensures
            match r {
                Ok(()) => stretches_made(
                    si,
                    self@.trace,
                    self@.cutting_points,
                    c + 1,
                    to as int,
                    final(result)@,
                ),
                Err(e) => {
                    &&& exists|sought: MapMatchingTrace|
                        #![trigger split_failed_at(si, self@.trace, self@.cutting_points, c as int, old(result)@, sought, e)]
                        split_failed_at(
                            si,
                            self@.trace,
                            self@.cutting_points,
                            c as int,
                            old(result)@,
                            sought,
                            e,
                        )
                    &&& e matches MapMatchingError::SearchError(cause)
                        && !(cause is NoPathExistsBetweenVertices)
                },
            },
    {
        let ghost trace = self@.trace;
        let ghost cuts = self@.cutting_points;
        let ghost parts = stretches_before(trace, cuts, c as nat);
        let ghost made = result@;
        if from < to {
            let sub_points = slice_points(&self.trace.points, from, to);
            let sub_trace = MapMatchingTrace::new(sub_points);
            let outcome = new_path_for_trace(&sub_trace, si);
            let ghost sought = outcome;
            assert(path_sought(si, sub_trace, stretch_at(trace, cuts, c as int), sought));
            let path = match outcome {
                Ok(path) => path,
                Err(e) => {
                    assert(split_failed_at(si, trace, cuts, c as int, made, sub_trace, e));
                    return Err(e);
                },
            };
            let ghost before = segment_views(result@);
            let segment = TrajectorySegment::new(sub_trace, path);
            assert(part_made(si, stretch_at(trace, cuts, c as int), segment));
            result.push(segment);
            proof {
                let now = segment_views(result@);
                assert(now.drop_last() =~= before);
                assert(trace.take(from as int) + trace.subrange(from as int, to as int)
                    =~= trace.take(to as int));
                assert forall|k: int| 0 <= k < now.len() implies path_in_graph(
                    si.graph.ends(),
                    (#[trigger] now[k]).path,
                ) && part_new(now[k]) by {
                    if k < before.len() {
                        assert(now[k] == before[k]);
                    }
                }
                let grown = stretches_before(trace, cuts, (c + 1) as nat);
                assert(grown == parts.push(stretch_at(trace, cuts, c as int)));
                assert forall|k: int| 0 <= k < grown.len() implies part_at(si, grown, result@, k) by {
                    if k < parts.len() {
                        assert(part_at(si, parts, made, k));
                        assert(result@[k] == made[k]);
                    }
                }
            }
        } else {
            proof {
                assert(stretches_before(trace, cuts, (c + 1) as nat) == parts);
                assert forall|k: int| 0 <= k < parts.len() implies part_at(si, parts, result@, k) by {
                    assert(part_at(si, parts, made, k));
                }
            }
        }
        Ok(())
    }

    /// Chooses the points at which the segment may be split.
    ///
    /// If there is no path, or no point is matched, the middle of the trace
    /// is the one candidate. Otherwise the candidates are the worst finite
    /// match and every match whose distance is within the cutting threshold
    /// of epsilon. Runs of consecutive candidates are reduced to their middle
    /// (see [`compress`]); what is left is kept once, in ascending order,
    /// without the first two and the last two points of the trace.
    pub fn compute_cutting_points(&mut self, lcss: &LcssMapMatching)
        ensures
            final(self)@.cutting_points == cutting_points_of(old(self)@, *lcss),
            final(self)@.trace == old(self)@.trace,
            final(self)@.path == old(self)@.path,
            final(self)@.matches == old(self)@.matches,
            final(self)@.score == old(self)@.score,
    {
        let mut cutting_points: Vec<usize> = Vec::new();
        let count: usize = self.matches.len();
        let mut unmatched: bool = true;
        let mut worst: Option<usize> = None;
        let mut near: Vec<usize> = Vec::new();
        let mut i: usize = 0;
        while i < count
            invariant
                i <= count,
                count == self.matches.len(),
                unmatched == all_unmatched(self.matches@.take(i as int)),
                match worst {
                    Some(k) => k < i && worst_match(self.matches@, i as nat) == Some(k as int),
                    None => worst_match(self.matches@, i as nat) is None,
                },
                near@ == near_matches(
                    self.matches@,
                    lcss.distance_epsilon,
                    lcss.cutting_threshold,
                    i as nat,
                ),
            decreases count - i,
        {
            let d: Distance = self.matches[i].distance_to_edge;
            proof {
                let before = self.matches@.take(i as int);
                let now = self.matches@.take(i + 1);
                assert(now[i as int] == self.matches@[i as int]);
                if all_unmatched(now) {
                    assert forall|k: int| 0 <= k < before.len() implies (
                    #[trigger] before[k]).distance_to_edge is Infinite by {
                        assert(now[k] == before[k]);
                    }
                }
                if all_unmatched(before) && d is Infinite {
                    assert forall|k: int| 0 <= k < now.len() implies (
                    #[trigger] now[k]).distance_to_edge is Infinite by {
                        if k < i {
                            assert(now[k] == before[k]);
                        }
                    }
                }
            }
            match d {
                Distance::Infinite => {},
                Distance::Millimeters(mm) => {
                    unmatched = false;
                    let replace: bool = match worst {
                        Some(k) => !d.is_shorter_than(&self.matches[k].distance_to_edge),
                        None => true,
                    };
                    if replace {
                        worst = Some(i);
                    }
                    let gap: u64 = if mm >= lcss.distance_epsilon {
                        mm - lcss.distance_epsilon
                    } else {
                        lcss.distance_epsilon - mm
                    };
                    if gap < lcss.cutting_threshold {
                        near.push(i);
                    }
                },
            }
            i += 1;
        }
        assert(self.matches@.take(i as int) =~= self.matches@);
        if self.path.len() == 0 || unmatched {
            cutting_points.push(self.trace.len() / 2);
            assert(cutting_points@ =~= cut_candidates(self@, *lcss));
        } else {
            match worst {
                Some(k) => {
                    cutting_points.push(k);
                },
                None => {},
            }
            let ghost head = cutting_points@;
            let mut k: usize = 0;
            while k < near.len()
                invariant
                    k <= near.len(),
                    cutting_points@ == head + near@.take(k as int),
                decreases near.len() - k,
            {
                cutting_points.push(near[k]);
                assert(head + near@.take(k + 1) =~= (head + near@.take(k as int)).push(
                    near@[k as int],
                ));
                k += 1;
            }
            assert(near@.take(k as int) =~= near@);
            assert(cutting_points@ =~= cut_candidates(self@, *lcss));
        }
        self.cutting_points = thin_out(cutting_points, self.trace.len());
    }

    /// Scores the path against the trace and matches each point of the
    /// trace to its nearest edge of the path, given the distance from each
    /// point to each edge.
    ///
    /// An empty trace is refused with `EmptyTrace`. With an empty path the
    /// score is zero and no point is matched. Otherwise each point is
    /// matched to the first of its nearest edges, a distance beyond the
    /// threshold counting as infinite, and the score is the LCSS score with
    /// the penalty for badly covered end points.
    pub fn score_and_match_distances(
        &mut self,
        lcss: &LcssMapMatching,
        distances: &Vec<Vec<Distance>>,
    ) -> (r: Result<(), MapMatchingError>)
        requires
            table_shape(table_view(distances), old(self)@.trace.len(), old(self)@.path.len()),
        ensures
            final(self)@.trace == old(self)@.trace,
            final(self)@.path == old(self)@.path,
            final(self)@.cutting_points == old(self)@.cutting_points,
            r is Ok ==> final(self)@.score <= 1_000_000,
            r is Ok ==> matches_on_path(final(self)@.matches, final(self)@.path),
            old(self)@.trace.len() == 0 ==> r == Err::<(), MapMatchingError>(
                MapMatchingError::EmptyTrace,
            ) && final(self)@ == old(self)@,
            old(self)@.trace.len() > 0 ==> r is Ok && final(self)@.matches.len() == old(self)@.trace.len(),
            old(self)@.trace.len() > 0 ==> scored_by(
                old(self)@,
                *lcss,
                table_view(distances),
                final(self)@,
            ),
            old(self)@.trace.len() > 0 && old(self)@.path.len() == 0 ==> final(self)@.score == 0
                && forall|i: int|
                0 <= i < final(self)@.matches.len() ==> #[trigger] final(self)@.matches[i]
                    == no_match(),
            old(self)@.trace.len() > 0 && old(self)@.path.len() > 0 ==> {
                &&& forall|i: int|
                    0 <= i < final(self)@.matches.len() ==> #[trigger] is_nearest_match(
                        final(self)@.matches[i],
                        old(self)@.path,
                        table_view(distances),
                        i,
                        lcss.distance_threshold,
                    )
                &&& final(self)@.score == penalized(
                    raw_score(
                        table_view(distances),
                        lcss.distance_epsilon,
                        old(self)@.trace.len(),
                        old(self)@.path.len(),
                    ),
                    final(self)@.matches[0].distance_to_edge,
                    final(self)@.matches[final(self)@.matches.len() - 1].distance_to_edge,
                    lcss.distance_epsilon,
                )
            },
    {
        let m: usize = self.trace.len();
        let n: usize = self.path.len();
        if m == 0 {
            return Err(MapMatchingError::EmptyTrace);
        }
        if n == 0 {
            self.score = 0;
            let mut unmatched: Vec<PointMatch> = Vec::new();
            let mut i: usize = 0;
            while i < m
                invariant
                    i <= m,
                    unmatched.len() == i,
                    forall|k: int| 0 <= k < i ==> #[trigger] unmatched[k] == no_match(),
                decreases m - i,
            {
                unmatched.push(PointMatch::new(EdgeListId(0), EdgeId(0), Distance::Infinite));
                i += 1;
            }
            self.matches = unmatched;
            return Ok(());
        }
        let ghost table = table_view(distances);
        let ghost path = self.path@;
        let epsilon: u64 = lcss.distance_epsilon;
        let threshold: u64 = lcss.distance_threshold;
        let mut prev: Vec<u128> = Vec::new();
        prev.push(0);
        let mut j: usize = 0;
        while j < n
            invariant
                j <= n,
                prev.len() == j + 1,
                forall|k: int| 0 <= k <= j ==> #[trigger] prev[k] == 0,
            decreases n - j,
        {
            prev.push(0);
            j += 1;
        }
        let _width: usize = prev.len();
        assert(_width == n + 1);
        let mut point_matches: Vec<PointMatch> = Vec::new();
        let ghost mut chosen: Seq<int> = Seq::empty();
        let mut i: usize = 0;
        while i < m
            invariant
                i <= m,
                n < usize::MAX,
                n > 0,
                n == self.path.len(),
                m == self.trace@.len(),
                path == self.path@,
                self@.trace == old(self)@.trace,
                self@.path == old(self)@.path,
                self@.cutting_points == old(self)@.cutting_points,
                table == table_view(distances),
                table_shape(table, m as nat, n as nat),
                epsilon == lcss.distance_epsilon,
                threshold == lcss.distance_threshold,
                prev.len() == n + 1,
                forall|k: int|
                    0 <= k <= n ==> #[trigger] prev[k] == lcss_weight(
                        table,
                        epsilon,
                        i as nat,
                        k as nat,
                    ),
                point_matches.len() == i,
                chosen.len() == i,
                forall|p: int|
                    0 <= p < i ==> first_nearest(table, p, #[trigger] chosen[p])
                        && point_matches[p] == match_with(path, table, p, chosen[p], threshold),
            decreases m - i,
        {
            let mut cur: Vec<u128> = Vec::new();
            cur.push(0);
            let mut min_dist: Distance = Distance::Infinite;
            let mut nearest: usize = 0;
            let mut j: usize = 0;
            while j < n
                invariant
                    j <= n,
                    i < m,
                    n < usize::MAX,
                    n > 0,
                    n == self.path.len(),
                    table == table_view(distances),
                    table_shape(table, m as nat, n as nat),
                    prev.len() == n + 1,
                    forall|k: int|
                        0 <= k <= n ==> #[trigger] prev[k] == lcss_weight(
                            table,
                            epsilon,
                            i as nat,
                            k as nat,
                        ),
                    cur.len() == j + 1,
                    forall|k: int|
                        0 <= k <= j ==> #[trigger] cur[k] == lcss_weight(
                            table,
                            epsilon,
                            (i + 1) as nat,
                            k as nat,
                        ),
                    nearest < n,
                    min_dist is Infinite ==> nearest == 0,
                    !(min_dist is Infinite) ==> nearest < j && min_dist
                        == table[nearest as int][i as int],
                    forall|k: int|
                        0 <= k < j ==> !(#[trigger] table[k])[i as int].shorter_than(min_dist),
                    forall|k: int|
                        0 <= k < nearest ==> min_dist.shorter_than(
                            (#[trigger] table[k])[i as int],
                        ),
                decreases n - j,
            {
                assert(table[j as int] == distances[j as int]@);
                let dt: Distance = distances[j][i];
                assert(dt == table[j as int][i as int]);
                if dt.is_shorter_than(&min_dist) {
                    min_dist = dt;
                    nearest = j;
                }
                let point_similarity: u128 = similarity_of(dt, epsilon);
                proof {
                    lemma_lcss_bound(table, epsilon, i as nat, j as nat);
                    let k = least(i as nat, j as nat) as int;
                    assert(k * 1_000_000 <= 0xffff_ffff_ffff_ffff * 1_000_000) by (nonlinear_arith)
                        requires
                            k <= 0xffff_ffff_ffff_ffff,
                    ;
                }
                let diagonal: u128 = prev[j] + point_similarity;
                let left: u128 = cur[j];
                let up: u128 = prev[j + 1];
                let best: u128 = if diagonal >= left && diagonal >= up {
                    diagonal
                } else if left >= up {
                    left
                } else {
                    up
                };
                cur.push(best);
                j += 1;
            }
            proof {
                if min_dist is Infinite {
                    assert(!table[0][i as int].shorter_than(min_dist));
                    assert(table[0][i as int] is Infinite);
                }
                assert(first_nearest(table, i as int, nearest as int));
            }
            let matched: Distance = if min_dist.is_longer_than(threshold) {
                Distance::Infinite
            } else {
                min_dist
            };
            let edge: EdgeRef = self.path[nearest];
            point_matches.push(PointMatch::new(edge.0, edge.1, matched));
            proof {
                chosen = chosen.push(nearest as int);
                assert(point_matches[i as int] == match_with(
                    path,
                    table,
                    i as int,
                    nearest as int,
                    threshold,
                ));
            }
            prev = cur;
            i += 1;
        }
        let shorter: usize = if m <= n {
            m
        } else {
            n
        };
        proof {
            lemma_score_bound(
                table,
                epsilon,
                m as nat,
                n as nat,
                point_matches[0].distance_to_edge,
                point_matches[m - 1].distance_to_edge,
            );
        }
        let raw: u64 = (prev[n] / (shorter as u128)) as u64;
        let first: Distance = point_matches[0].distance_to_edge;
        let last: Distance = point_matches[m - 1].distance_to_edge;
        self.score = penalize(raw, first, last, epsilon);
        self.matches = point_matches;
        proof {
            assert forall|p: int| 0 <= p < self@.matches.len() implies #[trigger] is_nearest_match(
                self@.matches[p],
                old(self)@.path,
                table_view(distances),
                p,
                lcss.distance_threshold,
            ) by {
                assert(first_nearest(table, p, chosen[p]));
            }
            assert forall|p: int| 0 <= p < self@.matches.len() implies matched_on(
                #[trigger] self@.matches[p],
                self@.path,
            ) by {
                assert(first_nearest(table, p, chosen[p]));
                assert((self@.matches[p].edge_list_id, self@.matches[p].edge_id)
                    == self@.path[chosen[p]]);
            }
        }
        Ok(())
    }
}

/// Where the stretch with the number `c` begins: at the cutting point
/// before the one with that number, the first stretch at the first point.
pub open spec fn stretch_start(cuts: Seq<usize>, c: int) -> int {
    if c <= 0 {
        0
    } else {
        cuts[c - 1] as int
    }
}

/// Where the stretch with the number `c` ends: before the cutting point
/// with that number, the stretch behind the last cutting point at the end
/// of the trace of `n` points.
pub open spec fn stretch_end(cuts: Seq<usize>, c: int, n: int) -> int {
    if c < cuts.len() {
        cuts[c] as int
    } else {
        n
    }
}

/// The points of the stretch with the number `c`.
pub open spec fn stretch_at(trace: Seq<MapMatchingPoint>, cuts: Seq<usize>, c: int) -> Seq<
    MapMatchingPoint,
> {
    trace.subrange(stretch_start(cuts, c), stretch_end(cuts, c, trace.len() as int))
}

/// The first `c` stretches of the trace, without those that are empty.
pub open spec fn stretches_before(trace: Seq<MapMatchingPoint>, cuts: Seq<usize>, c: nat) -> Seq<
    Seq<MapMatchingPoint>,
>
    decreases c,
{
    if c == 0 {
        Seq::empty()
    } else {
        let before = stretches_before(trace, cuts, (c - 1) as nat);
        if stretch_start(cuts, c - 1) < stretch_end(cuts, c - 1, trace.len() as int) {
            before.push(stretch_at(trace, cuts, c - 1))
        } else {
            before
        }
    }
}

/// The stretches into which the cutting points cut the trace: from each
/// cutting point up to the next, the first from the first point and the
/// last to the end, without those that are empty.
pub open spec fn stretches(trace: Seq<MapMatchingPoint>, cuts: Seq<usize>) -> Seq<
    Seq<MapMatchingPoint>,
> {
    stretches_before(trace, cuts, cuts.len() + 1)
}

/// Whether `outcome` is what the search for a path for `trace`, which
/// holds `points`, may return.
pub open spec fn path_sought<
    T: TraversalModel,
    K: CostModel,
    C: ConstraintModel,
    L: LabelModel,
    M: MapModel,
>(
    si: &SearchInstance<T, K, C, L, M>,
    trace: MapMatchingTrace,
    points: Seq<MapMatchingPoint>,
    outcome: Result<Vec<EdgeRef>, MapMatchingError>,
) -> bool {
    trace@ == points && call_ensures(new_path_for_trace::<T, K, C, L, M>, (&trace, si), outcome)
}

/// Whether the segment is new: it has points, but no matches and no
/// cutting points, and its score is zero.
pub open spec fn part_new(part: TrajectorySegmentView) -> bool {
    &&& part.trace.len() > 0
    &&& part.matches.len() == 0
    &&& part.cutting_points.len() == 0
    &&& part.score == 0
}

/// Whether all the segments are new.
pub open spec fn parts_new(parts: Seq<TrajectorySegmentView>) -> bool {
    forall|k: int| 0 <= k < parts.len() ==> part_new(#[trigger] parts[k])
}

/// Whether `part` is the new segment for `points`: its path is what the
/// search for a path for its trace returned.
pub open spec fn part_made<
    T: TraversalModel,
    K: CostModel,
    C: ConstraintModel,
    L: LabelModel,
    M: MapModel,
>(si: &SearchInstance<T, K, C, L, M>, points: Seq<MapMatchingPoint>, part: TrajectorySegment) -> bool {
    &&& part_new(part@)
    &&& path_sought(si, part.trace, points, Ok::<Vec<EdgeRef>, MapMatchingError>(part.path))
}

/// Whether segment `k` is the new segment for stretch `k`.
pub open spec fn part_at<
    T: TraversalModel,
    K: CostModel,
    C: ConstraintModel,
    L: LabelModel,
    M: MapModel,
>(
    si: &SearchInstance<T, K, C, L, M>,
    parts: Seq<Seq<MapMatchingPoint>>,
    segments: Seq<TrajectorySegment>,
    k: int,
) -> bool {
    0 <= k < segments.len() && part_made(si, parts[k], segments[k])
}

/// Whether the segments are the new segments for the stretches, one for
/// each.
pub open spec fn parts_made<
    T: TraversalModel,
    K: CostModel,
    C: ConstraintModel,
    L: LabelModel,
    M: MapModel,
>(
    si: &SearchInstance<T, K, C, L, M>,
    parts: Seq<Seq<MapMatchingPoint>>,
    segments: Seq<TrajectorySegment>,
) -> bool {
    &&& segments.len() == parts.len()
    &&& forall|k: int| 0 <= k < parts.len() ==> #[trigger] part_at(si, parts, segments, k)
}

/// Whether `segments` are the segments for the stretches before the one
/// with the number `c`, which begins at `from`: their traces, one after the
/// other, are the trace up to there, they are new, and their paths are made
/// of edges of the graph and are what was found for them.
pub open spec fn stretches_made<
    T: TraversalModel,
    K: CostModel,
    C: ConstraintModel,
    L: LabelModel,
    M: MapModel,
>(
    si: &SearchInstance<T, K, C, L, M>,
    trace: Seq<MapMatchingPoint>,
    cuts: Seq<usize>,
    c: int,
    from: int,
    segments: Seq<TrajectorySegment>,
) -> bool {
    &&& 0 <= c <= cuts.len() + 1
    &&& 0 <= from <= trace.len()
    &&& c <= cuts.len() ==> from == stretch_start(cuts, c)
    &&& concat_traces(segment_views(segments)) == trace.take(from)
    &&& from > 0 ==> segments.len() > 0
    &&& segments.len() <= c
    &&& paths_in_graph(si.graph.ends(), segment_views(segments))
    &&& parts_new(segment_views(segments))
    &&& parts_made(si, stretches_before(trace, cuts, c as nat), segments)
}

/// Whether `e` is the failure of the search for a path for stretch `c`,
/// which is not empty and is held by `sought`, after the segments `done`
/// were made for the stretches before it.
pub open spec fn split_failed_at<
    T: TraversalModel,
    K: CostModel,
    C: ConstraintModel,
    L: LabelModel,
    M: MapModel,
>(
    si: &SearchInstance<T, K, C, L, M>,
    trace: Seq<MapMatchingPoint>,
    cuts: Seq<usize>,
    c: int,
    done: Seq<TrajectorySegment>,
    sought: MapMatchingTrace,
    e: MapMatchingError,
) -> bool {
    &&& 0 <= c <= cuts.len()
    &&& parts_made(si, stretches_before(trace, cuts, c as nat), done)
    &&& stretch_start(cuts, c) < stretch_end(cuts, c, trace.len() as int)
    &&& path_sought(
        si,
        sought,
        stretch_at(trace, cuts, c),
        Err::<Vec<EdgeRef>, MapMatchingError>(e),
    )
}

/// Whether `r` is what splitting `segment` gives: new segments for its
/// stretches, each with the path that was found for it; or the failure of
/// the first search for the path of a stretch that fails.
pub open spec fn split_made<
    T: TraversalModel,
    K: CostModel,
    C: ConstraintModel,
    L: LabelModel,
    M: MapModel,
>(
    si: &SearchInstance<T, K, C, L, M>,
    segment: TrajectorySegmentView,
    r: Result<Vec<TrajectorySegment>, MapMatchingError>,
) -> bool {
    match r {
        Ok(segments) => parts_made(
            si,
            stretches(segment.trace, segment.cutting_points),
            segments@,
        ),
        Err(e) => exists|c: int, done: Seq<TrajectorySegment>, sought: MapMatchingTrace|
            #![trigger split_failed_at(si, segment.trace, segment.cutting_points, c, done, sought, e)]
            split_failed_at(si, segment.trace, segment.cutting_points, c, done, sought, e),
    }
}

/// Whether `after` is the segment `before`, which has a trace, scored and
/// matched by the distances of `table`: trace, path and cutting points are
/// kept and every point gets a match. Without a path the score is zero and
/// no point is matched. With a path each point is matched to the first of
/// its nearest edges, a distance beyond the threshold counting as infinite,
/// and the score is the LCSS score with the penalty for badly covered end
/// points.
pub open spec fn scored_by(
    before: TrajectorySegmentView,
    lcss: LcssMapMatching,
    table: Seq<Seq<Distance>>,
    after: TrajectorySegmentView,
) -> bool {
    &&& after.trace == before.trace
    &&& after.path == before.path
    &&& after.cutting_points == before.cutting_points
    &&& after.matches.len() == before.trace.len()
    &&& if before.path.len() == 0 {
        &&& after.score == 0
        &&& forall|i: int| 0 <= i < after.matches.len() ==> #[trigger] after.matches[i] == no_match()
    } else {
        &&& forall|i: int|
            0 <= i < after.matches.len() ==> #[trigger] is_nearest_match(
                after.matches[i],
                before.path,
                table,
                i,
                lcss.distance_threshold,
            )
        &&& after.score == penalized(
            raw_score(table, lcss.distance_epsilon, before.trace.len(), before.path.len()),
            after.matches[0].distance_to_edge,
            after.matches[after.matches.len() - 1].distance_to_edge,
            lcss.distance_epsilon,
        )
    }
}

/// Whether `row` holds, for each of the first `upto` points of the trace, a
/// distance that the map model may give from that point to `edge`.
pub open spec fn row_measured<M: MapModel>(
    map_model: &M,
    trace: Seq<MapMatchingPoint>,
    edge: EdgeRef,
    row: Seq<Distance>,
    upto: nat,
) -> bool {
    &&& upto <= row.len()
    &&& upto <= trace.len()
    &&& forall|i: int|
        0 <= i < upto ==> edge_measured(map_model, trace[i], edge.0, edge.1, #[trigger] row[i])
}

/// Whether `table` holds at `[j][i]` a distance that the map model may give
/// from point `i` of the trace to edge `j` of the path.
pub open spec fn measured_table<M: MapModel>(
    map_model: &M,
    trace: Seq<MapMatchingPoint>,
    path: Seq<EdgeRef>,
    table: Seq<Seq<Distance>>,
) -> bool {
    &&& table_shape(table, trace.len(), path.len())
    &&& forall|j: int|
        0 <= j < path.len() ==> row_measured(
            map_model,
            trace,
            path[j],
            #[trigger] table[j],
            trace.len(),
        )
}

/// Whether `after` is `before` scored and matched by `table`, a table of
/// distances that the map model may give.
pub open spec fn scored_with<M: MapModel>(
    map_model: &M,
    before: TrajectorySegmentView,
    lcss: LcssMapMatching,
    table: Seq<Seq<Distance>>,
    after: TrajectorySegmentView,
) -> bool {
    measured_table(map_model, before.trace, before.path, table) && scored_by(
        before,
        lcss,
        table,
        after,
    )
}

/// Whether `after` is `before` scored and matched by the distances that
/// the map model may give from each point of the trace to each edge of the
/// path.
pub open spec fn scored_and_matched<M: MapModel>(
    map_model: &M,
    before: TrajectorySegmentView,
    lcss: LcssMapMatching,
    after: TrajectorySegmentView,
) -> bool {
    exists|table: Seq<Seq<Distance>>|
        #![trigger scored_with(map_model, before, lcss, table, after)]
        scored_with(map_model, before, lcss, table, after)
}

/// The points of a trace from position `from` up to position `to`.
pub fn slice_points(points: &Vec<MapMatchingPoint>, from: usize, to: usize) -> (slice: Vec<
    MapMatchingPoint,
>)
    requires
        from <= to <= points@.len(),
    ensures
        slice@ == points@.subrange(from as int, to as int),
{
    let mut slice: Vec<MapMatchingPoint> = Vec::new();
    let mut i: usize = from;
    while i < to
        invariant
            from <= i <= to,
            to <= points@.len(),
            slice@ == points@.subrange(from as int, i as int),
        decreases to - i,
    {
        slice.push(points[i]);
        assert(slice@ =~= points@.subrange(from as int, i + 1));
        i += 1;
    }
    slice
}

/// Copies of the segments.
pub fn clone_segments(segments: &Vec<TrajectorySegment>) -> (copies: Vec<TrajectorySegment>)
    ensures
        segment_views(copies@) == segment_views(segments@),
{
    let mut copies: Vec<TrajectorySegment> = Vec::new();
    let mut i: usize = 0;
    while i < segments.len()
        invariant
            i <= segments.len(),
            copies@.len() == i,
            segment_views(copies@) == segment_views(segments@).take(i as int),
        decreases segments.len() - i,
    {
        let ghost before = segment_views(copies@);
        let copy = segments[i].clone();
        assert(copy@ == segments@[i as int]@);
        copies.push(copy);
        proof {
            let now = segment_views(copies@);
            let want = segment_views(segments@).take(i + 1);
            assert(now.len() == want.len());
            assert forall|k: int| 0 <= k < now.len() implies now[k] == want[k] by {
                if k < i {
                    assert(now[k] == before[k]);
                    assert(before[k] == segment_views(segments@).take(i as int)[k]);
                }
            }
            assert(now =~= want);
        }
        i += 1;
    }
    assert(segment_views(segments@).take(i as int) =~= segment_views(segments@));
    copies
}

/// A copy of a path.
pub fn copy_path(path: &Vec<EdgeRef>) -> (copy: Vec<EdgeRef>)
    ensures
        copy@ == path@,
{
    let mut copy: Vec<EdgeRef> = Vec::new();
    let mut i: usize = 0;
    while i < path.len()
        invariant
            i <= path.len(),
            copy@ == path@.take(i as int),
        decreases path.len() - i,
    {
        let edge: EdgeRef = (path[i].0, path[i].1);
        copy.push(edge);
        assert(copy@ =~= path@.take(i + 1));
        i += 1;
    }
    assert(path@.take(i as int) =~= path@);
    copy
}

} // verus!
