//! The points at which a segment may be split.

use vstd::prelude::*;
use itertools::Itertools;
use vstd::relations::total_ordering;
use crate::map_matching::distance::Distance;
use crate::map_matching::lcss::compress::{at_most, compress, compressed, sort_ascending, sorted};
use crate::map_matching::lcss::lcss_map_matching::LcssMapMatching;
use crate::map_matching::lcss::trajectory_segment::TrajectorySegmentView;
use crate::map_matching::map_matching_result::PointMatch;

verus! {

/// Whether no point is matched: every distance is infinite.
pub open spec fn all_unmatched(matches: Seq<PointMatch>) -> bool {
    forall|i: int| 0 <= i < matches.len() ==> (#[trigger] matches[i]).distance_to_edge is Infinite
}

/// Among the first `n` matches, the position of the worst one that is
/// finite: none is farther, and of several as far it is the last.
pub open spec fn worst_match(matches: Seq<PointMatch>, n: nat) -> Option<int>
    decreases n,
{
    if n == 0 {
        None
    } else {
        let before = worst_match(matches, (n - 1) as nat);
        let d = matches[n - 1].distance_to_edge;
        if d is Infinite {
            before
        } else {
            match before {
                Some(k) => if d.shorter_than(matches[k].distance_to_edge) {
                    before
                } else {
                    Some(n - 1)
                },
                None => Some(n - 1),
            }
        }
    }
}

/// Whether a distance is finite and differs from `epsilon` by less than
/// `threshold`.
pub open spec fn near_epsilon(d: Distance, epsilon: u64, threshold: u64) -> bool {
    d matches Distance::Millimeters(mm) && (if mm >= epsilon {
        mm - epsilon
    } else {
        epsilon - mm
    }) < threshold
}

/// The positions among the first `n` matches whose distance is near
/// `epsilon`, in ascending order.
pub open spec fn near_matches(
    matches: Seq<PointMatch>,
    epsilon: u64,
    threshold: u64,
    n: nat,
) -> Seq<usize>
    decreases n,
{
    if n == 0 {
        Seq::empty()
    } else {
        let before = near_matches(matches, epsilon, threshold, (n - 1) as nat);
        if near_epsilon(matches[n - 1].distance_to_edge, epsilon, threshold) {
            before.push((n - 1) as usize)
        } else {
            before
        }
    }
}

/// The candidates for cutting points, before they are thinned out: the
/// middle of the trace if there is no path or no point is matched; else the
/// worst finite match and every match near `epsilon`.
pub open spec fn cut_candidates(segment: TrajectorySegmentView, lcss: LcssMapMatching) -> Seq<
    usize,
> {
    if segment.path.len() == 0 || all_unmatched(segment.matches) {
        seq![(segment.trace.len() / 2) as usize]
    } else {
        let worst = match worst_match(segment.matches, segment.matches.len()) {
            Some(k) => seq![k as usize],
            None => Seq::empty(),
        };
        worst + near_matches(
            segment.matches,
            lcss.distance_epsilon,
            lcss.cutting_threshold,
            segment.matches.len(),
        )
    }
}

/// The items of `s` without those that occurred before.
pub open spec fn first_occurrences(s: Seq<usize>) -> Seq<usize>
    decreases s.len(),
{
    if s.len() == 0 {
        Seq::empty()
    } else if s.drop_last().contains(s.last()) {
        first_occurrences(s.drop_last())
    } else {
        first_occurrences(s.drop_last()).push(s.last())
    }
}

/// Whether a trace of `n` points may be split at `index`: not at its first
/// two points nor at its last two.
pub open spec fn splittable(n: nat) -> spec_fn(usize) -> bool {
    |index: usize| index > 1 && index + 2 < n
}

/// What is left of the candidates: one for each run of consecutive indices,
/// each kept once and only where a trace of `n` points may be split, in
/// ascending order.
pub open spec fn thinned(candidates: Seq<usize>, n: nat) -> Seq<usize> {
    sorted(first_occurrences(compressed(candidates)).filter(splittable(n)))
}

/// Thins the candidates out; see [`thinned`].
pub fn thin_out(candidates: Vec<usize>, n: usize) -> (r: Vec<usize>)
    ensures
        r@ == thinned(candidates@, n as nat),
{
    let compressed_points = compress(candidates);
    let kept = keep_splittable(&unique(compressed_points), n);
    sort_ascending(kept)
}

/// The cutting points of a segment: its candidates, thinned to one for each
/// run of consecutive indices, each kept once and only where the trace may
/// be split, in ascending order.
pub open spec fn cutting_points_of(segment: TrajectorySegmentView, lcss: LcssMapMatching) -> Seq<
    usize,
> {
    thinned(cut_candidates(segment, lcss), segment.trace.len())
}

/// Whether the cutting points are in ascending order and none lies behind
/// the end of a trace of `n` points.
pub open spec fn cuts_in_order(cuts: Seq<usize>, n: nat) -> bool {
    &&& forall|i: int, j: int| 0 <= i <= j < cuts.len() ==> cuts[i] <= cuts[j]
    &&& forall|i: int| 0 <= i < cuts.len() ==> cuts[i] <= n
}

/// The cutting points of a segment are in order and within its trace.
pub proof fn lemma_cutting_points_in_order(segment: TrajectorySegmentView, lcss: LcssMapMatching)
    ensures
        cuts_in_order(cutting_points_of(segment, lcss), segment.trace.len()),
{
    let n = segment.trace.len();
    let kept = first_occurrences(compressed(cut_candidates(segment, lcss))).filter(splittable(n));
    let cuts = cutting_points_of(segment, lcss);
    assert(total_ordering(at_most()));
    kept.lemma_sort_by_ensures(at_most());
    assert forall|i: int, j: int| 0 <= i <= j < cuts.len() implies cuts[i] <= cuts[j] by {
        if i < j {
            assert(at_most()(cuts[i], cuts[j]));
        }
    }
    assert forall|i: int| 0 <= i < cuts.len() implies cuts[i] <= n by {
        assert(cuts.contains(cuts[i]));
        if !kept.contains(cuts[i]) {
            assert(!cuts.contains(cuts[i]));
        }
        let w = choose|w: int| 0 <= w < kept.len() && kept[w] == cuts[i];
        first_occurrences(compressed(cut_candidates(segment, lcss))).lemma_filter_pred(
            splittable(n),
            w,
        );
    }
}

/// The items of `v` without those that occurred before: `Itertools::unique`
/// of the itertools crate, collected. That adaptor yields each item the
/// first time it comes and skips it from then on, in the order of the input.
#[verifier::external_body]
fn unique(v: Vec<usize>) -> (r: Vec<usize>)
    ensures
        r@ == first_occurrences(v@),
{
    v.into_iter().unique().collect()
}

/// The items of `v` at which a trace of `n` points may be split.
fn keep_splittable(v: &Vec<usize>, n: usize) -> (r: Vec<usize>)
    ensures
        r@ == v@.filter(splittable(n as nat)),
{
    let mut r: Vec<usize> = Vec::new();
    let mut i: usize = 0;
    assert(v@.take(0) =~= Seq::<usize>::empty());
    while i < v.len()
        invariant
            i <= v.len(),
            r@ == v@.take(i as int).filter(splittable(n as nat)),
        decreases v.len() - i,
    {
        let index: usize = v[i];
        proof {
            v@.take(i as int).lemma_filter_push(index, splittable(n as nat));
            assert(v@.take(i + 1) =~= v@.take(i as int).push(index));
        }
        if index > 1 && n >= 2 && index < n - 2 {
            r.push(index);
        }
        i += 1;
    }
    assert(v@.take(i as int) =~= v@);
    r
}

} // verus!
