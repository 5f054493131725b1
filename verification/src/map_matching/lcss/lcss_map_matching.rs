//! Parameters of the LCSS matcher.

use vstd::prelude::*;
use vstd::string::StringExecFns;
use crate::constraint::SpatialIndexType;
use crate::label::LabelModel;
use crate::map_matching::lcss::cutting_points::lemma_cutting_points_in_order;
use crate::map_matching::distance::Distance;
use crate::map_matching::lcss::join::{join_segments, no_repeats, paths_in_graph, unscored};
use crate::network::EdgeRef;
use crate::map_matching::lcss::lcss_ops::{
    find_stationary_points, measured_gaps, new_path_for_trace, path_in_graph,
};
use crate::map_matching::lcss::refinement::{
    begun, finished, first_split, join_answered, joined_then, lemma_match_begun, lemma_round_once,
    lemma_rounds_once, match_begun, matched_stepwise, moving_points, prepared, refined,
    refined_and_joined, round_fails, round_upto, rounds_end, rounds_fail, rounds_upto,
    scored_then, split_answered, split_then,
};
use crate::map_matching::lcss::scoring::{matched_on, matches_on_path, no_match};
use crate::map_matching::lcss::stationary::{
    add_matches_for_stationary_points, collect_skips, count_kept, group_views, kept_points,
    lemma_counts_add_up, lemma_kept_points_len, lemma_reexpand_len, lemma_reexpand_members,
    lemma_skipped_is_len, reduce_trace, reexpand, skip_set, stationary_groups,
};
use crate::map_matching::lcss::trajectory_segment::{
    clone_segments, concat_traces, lemma_concat_traces, path_sought, segment_views,
    TrajectorySegment, TrajectorySegmentView,
};
use crate::map_matching::map_matching_error::MapMatchingError;
use crate::map_matching::map_matching_result::MapMatchingResult;
use crate::map_matching::map_matching_trace::{MapMatchingPoint, MapMatchingTrace};
use crate::map_matching::map_model::MapModel;
use crate::search::models::{ConstraintModel, CostModel, TraversalModel};
use crate::search::search_instance::SearchInstance;

verus! {

/// The parts that make one whole: similarities and scores are counted in
/// parts per million.
pub const WHOLE: u64 = 1_000_000;

/// A unit in which a configuration states its distances.
#[derive(Clone, Copy, Debug, PartialEq, Eq, Structural, Hash)]
pub enum DistanceUnit {
    Meters,
    Kilometers,
    Miles,
    Feet,
    Inches,
}

/// The unit that a name stands for.
pub open spec fn unit_named(name: Seq<char>) -> Option<DistanceUnit> {
    if name == "meters"@ {
        Some(DistanceUnit::Meters)
    } else if name == "kilometers"@ {
        Some(DistanceUnit::Kilometers)
    } else if name == "miles"@ {
        Some(DistanceUnit::Miles)
    } else if name == "feet"@ {
        Some(DistanceUnit::Feet)
    } else if name == "inches"@ {
        Some(DistanceUnit::Inches)
    } else {
        None
    }
}

impl DistanceUnit {
    /// Tenths of a millimeter in one unit.
    pub open spec fn tenths(self) -> nat {
        match self {
            DistanceUnit::Meters => 10_000,
            DistanceUnit::Kilometers => 10_000_000,
            DistanceUnit::Miles => 16_093_440,
            DistanceUnit::Feet => 3_048,
            DistanceUnit::Inches => 254,
        }
    }

    /// `value` units in whole millimeters, rounded down, and held at the
    /// greatest representable length where it exceeds it.
    pub open spec fn millimeters(self, value: u64) -> u64 {
        let exact = value * self.tenths() / 10;
        if exact <= u64::MAX {
            exact as u64
        } else {
            u64::MAX
        }
    }

    /// The unit called `name`: one of `meters`, `kilometers`, `miles`,
    /// `feet`, `inches`.
    pub fn from_name(name: &String) -> (unit: Option<DistanceUnit>)
        ensures
            unit == unit_named(name@),
    {
        if *name == "meters".to_string() {
            Some(DistanceUnit::Meters)
        } else if *name == "kilometers".to_string() {
            Some(DistanceUnit::Kilometers)
        } else if *name == "miles".to_string() {
            Some(DistanceUnit::Miles)
        } else if *name == "feet".to_string() {
            Some(DistanceUnit::Feet)
        } else if *name == "inches".to_string() {
            Some(DistanceUnit::Inches)
        } else {
            None
        }
    }

    /// Converts `value` units to millimeters.
    pub fn to_millimeters(&self, value: u64) -> (mm: u64)
        ensures
            mm == self.millimeters(value),
    {
        let tenths: u128 = match self {
            DistanceUnit::Meters => 10_000,
            DistanceUnit::Kilometers => 10_000_000,
            DistanceUnit::Miles => 16_093_440,
            DistanceUnit::Feet => 3_048,
            DistanceUnit::Inches => 254,
        };
        assert(value as u128 * tenths <= u128::MAX) by (nonlinear_arith)
            requires
                value <= u64::MAX,
                tenths <= 16_093_440,
        ;
        let exact: u128 = (value as u128) * tenths / 10;
        if exact <= u64::MAX as u128 {
            exact as u64
        } else {
            u64::MAX
        }
    }
}

/// The configuration of the LCSS matcher as a user writes it: distances in
/// whole units of `distance_unit`, the similarity cutoff in parts per
/// million.
#[derive(Debug)]
pub struct LcssConfig {
    pub distance_unit: String,
    pub distance_epsilon: u64,
    pub similarity_cutoff: u64,
    pub cutting_threshold: u64,
    pub random_cuts: usize,
    pub distance_threshold: u64,
}

impl LcssConfig {
    /// The default unit: meters.
    pub fn default_distance_unit() -> (unit: String)
        ensures
            unit@ == "meters"@,
    {
        "meters".to_string()
    }

    /// The default distance epsilon: 50 units.
    pub fn default_distance_epsilon() -> (v: u64)
        ensures
            v == 50,
    {
        50
    }

    /// The default similarity cutoff: nine tenths.
    pub fn default_similarity_cutoff() -> (v: u64)
        ensures
            v == 900_000,
    {
        900_000
    }

    /// The default cutting threshold: 10 units.
    pub fn default_cutting_threshold() -> (v: u64)
        ensures
            v == 10,
    {
        10
    }

    /// The default number of random cuts: none.
    pub fn default_random_cuts() -> (v: usize)
        ensures
            v == 0,
    {
        0
    }

    /// The default distance threshold: 10000 units.
    pub fn default_distance_threshold() -> (v: u64)
        ensures
            v == 10_000,
    {
        10_000
    }
}

impl Default for LcssConfig {
    fn default() -> (config: LcssConfig)
        ensures
            config.distance_unit@ == "meters"@,
            config.distance_epsilon == 50,
            config.similarity_cutoff == 900_000,
            config.cutting_threshold == 10,
            config.random_cuts == 0,
            config.distance_threshold == 10_000,
    {
        LcssConfig {
            distance_unit: LcssConfig::default_distance_unit(),
            distance_epsilon: LcssConfig::default_distance_epsilon(),
            similarity_cutoff: LcssConfig::default_similarity_cutoff(),
            cutting_threshold: LcssConfig::default_cutting_threshold(),
            random_cuts: LcssConfig::default_random_cuts(),
            distance_threshold: LcssConfig::default_distance_threshold(),
        }
    }
}

/// A map matcher that scores a path against a trace by their longest common
/// subsequence, where a point and an edge count as common in the measure in
/// which they are closer than `distance_epsilon`.
///
/// Distances are in millimeters, the cutoff in parts per million.
#[derive(Clone, Copy, Debug)]
pub struct LcssMapMatching {
    /// The distance below which a point and an edge are similar.
    pub distance_epsilon: u64,
    /// The score from which on a segment is not split further.
    pub similarity_cutoff: u64,
    /// How close to `distance_epsilon` a match must be to become a cutting
    /// point.
    pub cutting_threshold: u64,
    /// Reserved: the number of random cuts to add in each round.
    pub random_cuts: usize,
    /// The distance above which a point counts as unmatched.
    pub distance_threshold: u64,
}

impl LcssMapMatching {
    /// The matcher that `config` describes, with its distances converted to
    /// millimeters. Fails with `InternalError` exactly when the name of the
    /// unit is not known.
    pub fn from_config(config: LcssConfig) -> (r: Result<Self, MapMatchingError>)
        ensures
            match unit_named(config.distance_unit@) {
                Some(unit) => r matches Ok(lcss) && lcss.distance_epsilon == unit.millimeters(
                    config.distance_epsilon,
                ) && lcss.similarity_cutoff == config.similarity_cutoff && lcss.cutting_threshold
                    == unit.millimeters(config.cutting_threshold) && lcss.random_cuts
                    == config.random_cuts && lcss.distance_threshold == unit.millimeters(
                    config.distance_threshold,
                ),
                None => r matches Err(MapMatchingError::InternalError(message)) && message@
                    == "Invalid distance unit: "@ + config.distance_unit@,
            },
    {
        match DistanceUnit::from_name(&config.distance_unit) {
            Some(unit) => Ok(
                LcssMapMatching {
                    distance_epsilon: unit.to_millimeters(config.distance_epsilon),
                    similarity_cutoff: config.similarity_cutoff,
                    cutting_threshold: unit.to_millimeters(config.cutting_threshold),
                    random_cuts: config.random_cuts,
                    distance_threshold: unit.to_millimeters(config.distance_threshold),
                },
            ),
            None => Err(invalid_unit(&config.distance_unit)),
        }
    }

    /// Matches a trace to the road network.
    ///
    /// An empty trace is refused with `EmptyTrace`, a map whose spatial
    /// index is keyed by vertices with `InternalError`. Stationary points
    /// are set aside. The rest of the trace gets an initial path and is
    /// scored and cut into segments; for up to ten rounds each segment that
    /// scores below the cutoff is split if its parts, joined again, score
    /// strictly better. The segments are joined, scored and matched, and
    /// each stationary point takes the match of the point before it.
    ///
    /// Step by step, the match is what [`matched_stepwise`] says.
    /// Whatever the map and the models answer: a result holds one match for
    /// each point of the trace; it is the join of segments whose traces, one
    /// after the other, are the trace without its stationary points, with
    /// the matches of the stationary points put back (see [`matched`]); and
    /// `EmptyTrace` is the failure of the empty trace only.
    pub fn match_trace<
        T: TraversalModel,
        K: CostModel,
        C: ConstraintModel,
        L: LabelModel,
        M: MapModel,
    >(&self, trace: &MapMatchingTrace, si: &SearchInstance<T, K, C, L, M>) -> (r: Result<
        MapMatchingResult,
        MapMatchingError,
    >)
        requires
            si.graph.wf(),
        ensures
            trace@.len() == 0 ==> r == Err::<MapMatchingResult, MapMatchingError>(
                MapMatchingError::EmptyTrace,
            ),
            r matches Err(MapMatchingError::EmptyTrace) ==> trace@.len() == 0,
            r matches Err(e) ==> e is EmptyTrace || e is InternalError || (
            e matches MapMatchingError::SearchError(cause) && !(cause is NoPathExistsBetweenVertices)),
            trace@.len() > 0 ==> exists|index: SpatialIndexType|
                #![trigger index_asked(&si.map_model, index)]
                index_asked(&si.map_model, index) && (index is VertexOriented ==> r matches Err(
                    MapMatchingError::InternalError(_),
                )),
            r matches Ok(result) ==> matched(si, *self, trace@, result),
            matched_stepwise(si, *self, trace@, r),
    {
        if trace.is_empty() {
            return Err(MapMatchingError::EmptyTrace);
        }
        let index = si.map_model.spatial_index_type();
        assert(index_asked(&si.map_model, index));
        match check_spatial_index(index) {
            Ok(()) => {},
            Err(e) => {
                let r = Err::<MapMatchingResult, MapMatchingError>(e);
                assert(begun(
                    si,
                    *self,
                    trace@,
                    index,
                    Seq::<Option<Distance>>::empty(),
                    *trace,
                    Err::<Vec<EdgeRef>, MapMatchingError>(MapMatchingError::EmptyTrace),
                    r,
                ));
                return r;
            },
        }
        let count: usize = trace.len();
        let stationary_indices = find_stationary_points(trace, &si.map_model);
        let ghost gaps = choose|gaps: Seq<Option<Distance>>|
            #![trigger stationary_groups(gaps)]
            measured_gaps(&si.map_model, trace@, gaps) && group_views(stationary_indices@)
                == stationary_groups(gaps);
        let skip_indices = collect_skips(&stationary_indices);
        let ghost skip = skip_indices@;
        let sub_trace = reduce_trace(trace, &skip_indices);
        let ghost sub = sub_trace@;
        proof {
            let groups = group_views(stationary_indices@);
            assert forall|x: usize| skip.contains(x) implies 1 <= x < count by {
                let (g, k) = choose|g: int, k: int|
                    0 <= g < groups.len() && 1 <= k < groups[g].len() && #[trigger] groups[g][k]
                        == x;
                assert(groups[g][k] < count && groups[g][k] >= 1);
            }
            lemma_kept_points_len(trace@, skip, count as nat);
            lemma_skipped_is_len(skip, count as nat);
            lemma_counts_add_up(skip, count as nat);
            assert(!skip.contains(0usize));
            assert(count_kept(skip, 0) == 0);
            assert(count_kept(skip, 1) == 1);
            lemma_kept_grows(skip, 1, count as nat);
        }
        assert(sub == moving_points(trace@, gaps));
        let ghost moving = sub_trace;
        let sought = new_path_for_trace(&sub_trace, si);
        let ghost path_answer = sought;
        assert(path_sought(si, moving, sub, path_answer));
        let initial_path = match sought {
            Ok(path) => path,
            Err(e) => {
                let r = Err::<MapMatchingResult, MapMatchingError>(e);
                assert(begun(si, *self, trace@, index, gaps, moving, path_answer, r));
                return r;
            },
        };
        let ghost first_path = initial_path@;
        let mut initial_segment = TrajectorySegment::new(sub_trace, initial_path);
        assert(initial_segment@ == unscored(sub, first_path));
        match initial_segment.score_and_match(self, &si.map_model) {
            Ok(()) => {},
            Err(e) => {
                return Err(e);
            },
        }
        let ghost scored = initial_segment@;
        initial_segment.compute_cutting_points(self);
        proof {
            lemma_cutting_points_in_order(scored, *self);
            assert(initial_segment@ == prepared(scored, *self));
        }
        let split = initial_segment.split_segment(si);
        let ghost split_answer = split;
        assert(split_answered(si, initial_segment, split_answer));
        let mut scheme: Vec<TrajectorySegment> = match split {
            Ok(scheme) => scheme,
            Err(e) => {
                let r = Err::<MapMatchingResult, MapMatchingError>(e);
                proof {
                    assert(first_split(
                        si,
                        *self,
                        trace@,
                        gaps,
                        path_answer->Ok_0@,
                        scored,
                        initial_segment,
                        split_answer,
                        r,
                    ));
                    assert(begun(si, *self, trace@, index, gaps, moving, path_answer, r));
                }
                return r;
            },
        };
        let ghost start = segment_views(scheme@);
        proof {
            assert(start == segment_views(split_answer->Ok_0@));
            if initial_segment@.trace.len() < 2 || initial_segment@.cutting_points.len() == 0 {
                assert(start[0] == initial_segment@);
            }
            assert(traces_hold_points(start));
        }
        let mut round: usize = 0;
        let mut settled: bool = false;
        while round < ROUNDS && !settled
            invariant
                round <= ROUNDS,
                si.graph.wf(),
                trace@.len() > 0,
                concat_traces(segment_views(scheme@)) == sub,
                paths_in_graph(si.graph.ends(), segment_views(scheme@)),
                traces_hold_points(segment_views(scheme@)),
                match_begun(
                    si,
                    *self,
                    trace@,
                    index,
                    gaps,
                    moving,
                    path_answer,
                    scored,
                    initial_segment,
                    split_answer,
                ),
                start == segment_views(split_answer->Ok_0@),
                rounds_upto(si, *self, start, round as nat, segment_views(scheme@)),
                settled ==> exists|next: Seq<TrajectorySegmentView>|
                    #![trigger round_upto(si, *self, segment_views(scheme@), segment_views(scheme@).len(), next, false)]
                    round_upto(
                        si,
                        *self,
                        segment_views(scheme@),
                        segment_views(scheme@).len(),
                        next,
                        false,
                    ),
            decreases ROUNDS - round, (if settled { 0int } else { 1int }),
        {
            let mut next_scheme: Vec<TrajectorySegment> = Vec::new();
            let mut changed: bool = false;
            let mut k: usize = 0;
            let ghost views = segment_views(scheme@);
            assert(views.take(0) =~= Seq::<TrajectorySegmentView>::empty());
            assert(segment_views(next_scheme@) =~= Seq::<TrajectorySegmentView>::empty());
            while k < scheme.len()
                invariant
                    k <= scheme.len(),
                    round < ROUNDS,
                    si.graph.wf(),
                    trace@.len() > 0,
                    views == segment_views(scheme@),
                    paths_in_graph(si.graph.ends(), views),
                    paths_in_graph(si.graph.ends(), segment_views(next_scheme@)),
                    traces_hold_points(views),
                    traces_hold_points(segment_views(next_scheme@)),
                    concat_traces(segment_views(next_scheme@)) == concat_traces(views.take(k as int)),
                    match_begun(
                        si,
                        *self,
                        trace@,
                        index,
                        gaps,
                        moving,
                        path_answer,
                        scored,
                        initial_segment,
                        split_answer,
                    ),
                    start == segment_views(split_answer->Ok_0@),
                    rounds_upto(si, *self, start, round as nat, views),
                    round_upto(si, *self, views, k as nat, segment_views(next_scheme@), changed),
                decreases scheme.len() - k,
            {
                let ghost done = segment_views(next_scheme@);
                let ghost was_changed = changed;
                assert(scheme@[k as int]@ == views[k as int]);
                assert(path_in_graph(si.graph.ends(), views[k as int].path));
                assert(views[k as int].trace.len() > 0);
                proof {
                    assert(views.take(k + 1).drop_last() =~= views.take(k as int));
                    assert(views.take(k + 1).last() == views[k as int]);
                }
                match self.refine_segment(&scheme[k], si) {
                    Ok((parts, part_changed)) => {
                        append_segments(&mut next_scheme, &parts);
                        changed = changed || part_changed;
                        proof {
                            let added = segment_views(parts@);
                            lemma_concat_traces(done, added);
                            let now = segment_views(next_scheme@);
                            assert forall|j: int| 0 <= j < now.len() implies path_in_graph(
                                si.graph.ends(),
                                (#[trigger] now[j]).path,
                            ) && now[j].trace.len() > 0 by {
                                if j < done.len() {
                                    assert(now[j] == done[j]);
                                } else {
                                    assert(now[j] == added[j - done.len()]);
                                }
                            }
                            lemma_round_once(
                                si,
                                *self,
                                views,
                                k as nat,
                                done,
                                was_changed,
                                added,
                                part_changed,
                            );
                        }
                    },
                    Err(e) => {
                        let r = Err::<MapMatchingResult, MapMatchingError>(e);
                        proof {
                            assert(round_fails(si, *self, views, k as int, done, was_changed, e));
                            assert(rounds_fail(
                                si,
                                *self,
                                start,
                                round as nat,
                                views,
                                k as int,
                                done,
                                was_changed,
                                e,
                            ));
                            assert(refined_and_joined(si, *self, trace@, gaps, start, r));
                            lemma_match_begun(
                                si,
                                *self,
                                trace@,
                                index,
                                gaps,
                                moving,
                                path_answer,
                                scored,
                                initial_segment,
                                split_answer,
                                r,
                            );
                        }
                        return r;
                    },
                }
                k += 1;
            }
            assert(views.take(k as int) =~= views);
            if !changed {
                settled = true;
            } else {
                proof {
                    lemma_rounds_once(
                        si,
                        *self,
                        start,
                        round as nat,
                        views,
                        segment_views(next_scheme@),
                    );
                }
                scheme = next_scheme;
                round += 1;
            }
        }
        let ghost final_scheme = scheme;
        let ghost rounds = round as nat;
        assert(rounds_end(si, *self, start, rounds, segment_views(final_scheme@)));
        let joined = join_segments(self, scheme, si);
        let ghost join_outcome = joined;
        assert(join_answered(si, *self, final_scheme, join_outcome));
        let final_segment = match joined {
            Ok(joined) => joined,
            Err(e) => {
                let r = Err::<MapMatchingResult, MapMatchingError>(e);
                proof {
                    assert(finished(
                        si,
                        *self,
                        trace@,
                        gaps,
                        start,
                        rounds,
                        final_scheme,
                        join_outcome,
                        r,
                    ));
                    assert(refined_and_joined(si, *self, trace@, gaps, start, r));
                    lemma_match_begun(
                        si,
                        *self,
                        trace@,
                        index,
                        gaps,
                        moving,
                        path_answer,
                        scored,
                        initial_segment,
                        split_answer,
                        r,
                    );
                }
                return r;
            },
        };
        let ghost joined_segment = final_segment;
        assert(segments_joined(si, *self, final_scheme, joined_segment));
        proof {
            lemma_reexpand_len(final_segment@.matches, skip, count as nat);
            lemma_reexpand_members(final_segment@.matches, skip, count as nat);
            let expanded = reexpand(final_segment@.matches, skip, count as nat);
            assert forall|i: int| 0 <= i < expanded.len() implies if final_segment@.path.len()
                == 0 {
                #[trigger] expanded[i] == no_match()
            } else {
                matched_on(expanded[i], final_segment@.path)
            } by {
                let w = choose|w: int|
                    0 <= w < final_segment@.matches.len() && final_segment@.matches[w]
                        == expanded[i];
                assert(final_segment@.matches[w] == expanded[i]);
            }
        }
        let final_matches = add_matches_for_stationary_points(
            final_segment.matches,
            stationary_indices,
        );
        let result = MapMatchingResult::new(final_matches, final_segment.path);
        let r = Ok::<MapMatchingResult, MapMatchingError>(result);
        proof {
            assert(matched_from(si, *self, trace@, gaps, final_scheme, joined_segment, result));
            assert(matched(si, *self, trace@, result));
            assert(finished(si, *self, trace@, gaps, start, rounds, final_scheme, join_outcome, r));
            assert(refined_and_joined(si, *self, trace@, gaps, start, r));
            lemma_match_begun(
                si,
                *self,
                trace@,
                index,
                gaps,
                moving,
                path_answer,
                scored,
                initial_segment,
                split_answer,
                r,
            );
        }
        r
    }

    /// Refines a segment: it is scored and matched anew and gets its cutting
    /// points. If it scores below the cutoff, it is split; if that gives
    /// more than one part, the parts are joined again, and they take the
    /// place of the segment if the join scores strictly better than the
    /// segment (see [`accept_split`]).
    ///
    /// Returns the segments that take the place of `segment`, and whether
    /// they are others than the segment itself. See [`refined`].
    pub fn refine_segment<
        T: TraversalModel,
        K: CostModel,
        C: ConstraintModel,
        L: LabelModel,
        M: MapModel,
    >(&self, segment: &TrajectorySegment, si: &SearchInstance<T, K, C, L, M>) -> (r: Result<
        (Vec<TrajectorySegment>, bool),
        MapMatchingError,
    >)
        requires
            si.graph.wf(),
            segment@.trace.len() > 0,
            path_in_graph(si.graph.ends(), segment@.path),
        ensures
            match r {
                Ok((parts, changed)) => {
                    &&& refined(
                        si,
                        *self,
                        segment@,
                        segment_views(parts@),
                        changed,
                        None::<MapMatchingError>,
                    )
                    &&& concat_traces(segment_views(parts@)) == segment@.trace
                    &&& paths_in_graph(si.graph.ends(), segment_views(parts@))
                    &&& traces_hold_points(segment_views(parts@))
                },
                Err(e) => {
                    &&& refined(
                        si,
                        *self,
                        segment@,
                        Seq::<TrajectorySegmentView>::empty(),
                        false,
                        Some(e),
                    )
                    &&& e is InternalError || (e matches MapMatchingError::SearchError(cause)
                        && !(cause is NoPathExistsBetweenVertices))
                },
            },
    {
        let ghost before = segment@;
        let ghost none = Seq::<TrajectorySegmentView>::empty();
        let mut scored = segment.clone();
        match scored.score_and_match(self, &si.map_model) {
            Ok(()) => {},
            Err(e) => {
                return Err(e);
            },
        }
        let ghost plain = scored@;
        scored.compute_cutting_points(self);
        proof {
            lemma_cutting_points_in_order(plain, *self);
            assert(scored@ == prepared(plain, *self));
        }
        let ghost kept = scored@;
        if scored.score < self.similarity_cutoff {
            let split = scored.split_segment(si);
            let ghost split_answer = split;
            assert(split_answered(si, scored, split_answer));
            let new_split = match split {
                Ok(new_split) => new_split,
                Err(e) => {
                    proof {
                        let failure = Some(e);
                        assert(split_then(
                            si,
                            *self,
                            prepared(plain, *self),
                            scored,
                            split_answer,
                            none,
                            false,
                            failure,
                        ));
                        assert(scored_then(si, *self, before, plain, none, false, failure));
                    }
                    return Err(e);
                },
            };
            let ghost split_views = segment_views(new_split@);
            assert(split_views == segment_views(split_answer->Ok_0@));
            if new_split.len() > 1 {
                let copies = clone_segments(&new_split);
                let ghost copied = copies;
                let joined = join_segments(self, copies, si);
                let ghost join_answer = joined;
                assert(join_answered(si, *self, copied, join_answer));
                let whole = match joined {
                    Ok(whole) => whole,
                    Err(e) => {
                        proof {
                            let failure = Some(e);
                            assert(joined_then(
                                si,
                                *self,
                                prepared(plain, *self),
                                segment_views(split_answer->Ok_0@),
                                copied,
                                join_answer,
                                none,
                                false,
                                failure,
                            ));
                            assert(split_then(
                                si,
                                *self,
                                prepared(plain, *self),
                                scored,
                                split_answer,
                                none,
                                false,
                                failure,
                            ));
                            assert(scored_then(si, *self, before, plain, none, false, failure));
                        }
                        return Err(e);
                    },
                };
                if accept_split(
                    scored.score,
                    self.similarity_cutoff,
                    new_split.len(),
                    whole.score,
                ) {
                    proof {
                        let failure = None::<MapMatchingError>;
                        assert(joined_then(
                            si,
                            *self,
                            prepared(plain, *self),
                            segment_views(split_answer->Ok_0@),
                            copied,
                            join_answer,
                            split_views,
                            true,
                            failure,
                        ));
                        assert(split_then(
                            si,
                            *self,
                            prepared(plain, *self),
                            scored,
                            split_answer,
                            split_views,
                            true,
                            failure,
                        ));
                        assert(scored_then(si, *self, before, plain, split_views, true, failure));
                    }
                    return Ok((new_split, true));
                }
                proof {
                    let failure = None::<MapMatchingError>;
                    assert(joined_then(
                        si,
                        *self,
                        prepared(plain, *self),
                        segment_views(split_answer->Ok_0@),
                        copied,
                        join_answer,
                        seq![kept],
                        false,
                        failure,
                    ));
                    assert(split_then(
                        si,
                        *self,
                        prepared(plain, *self),
                        scored,
                        split_answer,
                        seq![kept],
                        false,
                        failure,
                    ));
                }
            } else {
                assert(split_then(
                    si,
                    *self,
                    prepared(plain, *self),
                    scored,
                    split_answer,
                    seq![kept],
                    false,
                    None::<MapMatchingError>,
                ));
            }
        }
        assert(scored_then(si, *self, before, plain, seq![kept], false, None::<MapMatchingError>));
        let mut parts: Vec<TrajectorySegment> = Vec::new();
        parts.push(scored);
        proof {
            let views = segment_views(parts@);
            assert(views =~= seq![kept]);
            assert(views.drop_last() =~= Seq::<TrajectorySegmentView>::empty());
            assert(concat_traces(views.drop_last()) =~= Seq::<MapMatchingPoint>::empty());
            assert(concat_traces(views) =~= kept.trace);
        }
        Ok((parts, false))
    }

    /// The name of the algorithm.
    pub fn name(&self) -> (name: &'static str)
        ensures
            name@ == "lcss_map_matching"@,
    {
        "lcss_map_matching"
    }
}

/// Whether `result` is a match of the trace: it holds one match for each
/// point, each with an edge of its path; the path is made of edges of the
/// graph and repeats no edge; and the result goes by some segments as
/// [`matched_from`] says.
pub open spec fn matched<
    T: TraversalModel,
    K: CostModel,
    C: ConstraintModel,
    L: LabelModel,
    M: MapModel,
>(
    si: &SearchInstance<T, K, C, L, M>,
    lcss: LcssMapMatching,
    trace: Seq<MapMatchingPoint>,
    result: MapMatchingResult,
) -> bool {
    &&& result.point_matches@.len() == trace.len()
    &&& path_in_graph(si.graph.ends(), result.matched_path@)
    &&& matches_on_path(result.point_matches@, result.matched_path@)
    &&& no_repeats(result.matched_path@)
    &&& exists|gaps: Seq<Option<Distance>>, scheme: Vec<TrajectorySegment>, joined: TrajectorySegment|
        #![trigger matched_from(si, lcss, trace, gaps, scheme, joined, result)]
        matched_from(si, lcss, trace, gaps, scheme, joined, result)
}

/// The greatest number of rounds in which segments are split.
pub const ROUNDS: usize = 10;

/// Whether a segment is replaced by its parts: it scores below the cutoff,
/// it was split in more than one part, and the parts joined again score
/// strictly better than the segment.
pub fn accept_split(score: u64, cutoff: u64, parts: usize, joined_score: u64) -> (b: bool)
    ensures
        b == (score < cutoff && parts > 1 && joined_score > score),
{
    score < cutoff && parts > 1 && joined_score > score
}

/// Whether `index` is what the map model may answer when it is asked how
/// its spatial index is keyed.
pub open spec fn index_asked<M: MapModel>(map_model: &M, index: SpatialIndexType) -> bool {
    call_ensures(M::spatial_index_type, (map_model,), index)
}

/// Whether the trace of every segment holds a point.
pub open spec fn traces_hold_points(segments: Seq<TrajectorySegmentView>) -> bool {
    forall|k: int| 0 <= k < segments.len() ==> (#[trigger] segments[k]).trace.len() > 0
}

/// Whether `joined` is what joining the segments of `scheme` may give.
pub open spec fn segments_joined<
    T: TraversalModel,
    K: CostModel,
    C: ConstraintModel,
    L: LabelModel,
    M: MapModel,
>(
    si: &SearchInstance<T, K, C, L, M>,
    lcss: LcssMapMatching,
    scheme: Vec<TrajectorySegment>,
    joined: TrajectorySegment,
) -> bool {
    call_ensures(
        join_segments::<T, K, C, L, M>,
        (&lcss, scheme, si),
        Ok::<TrajectorySegment, MapMatchingError>(joined),
    )
}

/// Whether `result` is a match of the trace that goes by the segments of
/// `scheme`: `gaps` are the distances that the map model gives between
/// consecutive points, by which the stationary points are told; the traces
/// of the segments, one after the other, are the trace without its
/// stationary points; `joined` is the segments joined; the path of the
/// result is its path, and the matches of the result are its matches, where
/// each stationary point takes the match of the point before it.
pub open spec fn matched_from<
    T: TraversalModel,
    K: CostModel,
    C: ConstraintModel,
    L: LabelModel,
    M: MapModel,
>(
    si: &SearchInstance<T, K, C, L, M>,
    lcss: LcssMapMatching,
    trace: Seq<MapMatchingPoint>,
    gaps: Seq<Option<Distance>>,
    scheme: Vec<TrajectorySegment>,
    joined: TrajectorySegment,
    result: MapMatchingResult,
) -> bool {
    let skip = skip_set(stationary_groups(gaps));
    &&& measured_gaps(&si.map_model, trace, gaps)
    &&& concat_traces(segment_views(scheme@)) == kept_points(trace, skip, trace.len())
    &&& traces_hold_points(segment_views(scheme@))
    &&& segments_joined(si, lcss, scheme, joined)
    &&& result.point_matches@ == reexpand(joined@.matches, skip, trace.len())
    &&& result.matched_path@ == joined@.path
}

/// The matcher needs a spatial index that is keyed by edges.
pub fn check_spatial_index(index: SpatialIndexType) -> (r: Result<(), MapMatchingError>)
    ensures
        match index {
            SpatialIndexType::EdgeOriented => r is Ok,
            SpatialIndexType::VertexOriented => r matches Err(MapMatchingError::InternalError(_)),
        },
{
    match index {
        SpatialIndexType::EdgeOriented => Ok(()),
        SpatialIndexType::VertexOriented => Err(
            MapMatchingError::InternalError(
                "LCSS map matching requires an edge-oriented spatial index.".to_string(),
            ),
        ),
    }
}

/// Adds copies of `more` to `segments`.
fn append_segments(segments: &mut Vec<TrajectorySegment>, more: &Vec<TrajectorySegment>)
    ensures
        segment_views(final(segments)@) == segment_views(old(segments)@) + segment_views(more@),
{
    let ghost start = segment_views(segments@);
    let mut i: usize = 0;
    assert(segment_views(more@).take(0) =~= Seq::<TrajectorySegmentView>::empty());
    assert(start + segment_views(more@).take(0) =~= start);
    while i < more.len()
        invariant
            i <= more.len(),
            start == segment_views(old(segments)@),
            segments@.len() == start.len() + i,
            segment_views(segments@) == start + segment_views(more@).take(i as int),
        decreases more.len() - i,
    {
        let ghost before = segment_views(segments@);
        let copy = more[i].clone();
        assert(copy@ == more@[i as int]@);
        segments.push(copy);
        proof {
            let now = segment_views(segments@);
            let want = start + segment_views(more@).take(i + 1);
            assert(now.len() == want.len());
            assert forall|k: int| 0 <= k < now.len() implies now[k] == want[k] by {
                if k < start.len() + i {
                    assert(now[k] == before[k]);
                    assert(before[k] == (start + segment_views(more@).take(i as int))[k]);
                }
            }
            assert(now =~= want);
        }
        i += 1;
    }
    assert(segment_views(more@).take(i as int) =~= segment_views(more@));
}

/// From one index on, the number of kept points does not fall.
proof fn lemma_kept_grows(skip: Set<usize>, i: nat, n: nat)
    requires
        i <= n,
    ensures
        count_kept(skip, i) <= count_kept(skip, n),
    decreases n - i,
{
    if i < n {
        lemma_kept_grows(skip, i, (n - 1) as nat);
    }
}

/// The error for a unit name that is not known.
fn invalid_unit(name: &String) -> (e: MapMatchingError)
    ensures
        e matches MapMatchingError::InternalError(message) && message@
            == "Invalid distance unit: "@ + name@,
{
    let message = "Invalid distance unit: ".to_string().concat(name.as_str());
    MapMatchingError::InternalError(message)
}

} // verus!
