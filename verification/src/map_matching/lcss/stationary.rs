//! Stationary points: consecutive points of a trace so close to each other
//! that only the first of them is matched, and the others take its match.

use vstd::prelude::*;
use std::collections::HashSet;
use vstd::std_specs::hash::group_hash_axioms;
use crate::map_matching::distance::Distance;
use crate::map_matching::map_matching_result::PointMatch;
use crate::map_matching::map_matching_trace::{MapMatchingPoint, MapMatchingTrace};

verus! {

/// Below this distance, in millimeters, two consecutive points count as one
/// place.
pub const STATIONARY_LIMIT: u64 = 1;

/// The indices of a group of consecutive points that stand at one place.
#[derive(Debug)]
pub struct StationaryIndex {
    pub i_index: Vec<usize>,
}

impl View for StationaryIndex {
    type V = Seq<usize>;

    open spec fn view(&self) -> Seq<usize> {
        self.i_index@
    }
}

/// The views of a sequence of groups.
pub open spec fn group_views(groups: Seq<StationaryIndex>) -> Seq<Seq<usize>> {
    groups.map_values(|g: StationaryIndex| g@)
}

/// One step of the scan for stationary points: `gap` is the distance from
/// point `i - 1` to point `i`, `done` the groups that are closed and `open`
/// the group that is still growing. A gap below the limit puts `i` into
/// the open group, together with `i - 1` if the group was empty; another
/// gap that was measured closes the open group; a gap that could not be
/// measured changes nothing.
pub open spec fn scan_step(
    done: Seq<Seq<usize>>,
    open: Seq<usize>,
    gap: Option<Distance>,
    i: usize,
) -> (Seq<Seq<usize>>, Seq<usize>) {
    match gap {
        Some(d) => if d.shorter_than(Distance::Millimeters(STATIONARY_LIMIT)) {
            if open.len() == 0 {
                (done, seq![(i - 1) as usize, i])
            } else {
                (done, open.push(i))
            }
        } else if open.len() > 0 {
            (done.push(open), Seq::empty())
        } else {
            (done, open)
        },
        None => (done, open),
    }
}

/// The scan over the first `n` gaps, where `gaps[k]` is the distance from
/// point `k` to point `k + 1`.
pub open spec fn scan(gaps: Seq<Option<Distance>>, n: nat) -> (Seq<Seq<usize>>, Seq<usize>)
    decreases n,
{
    if n == 0 {
        (Seq::empty(), Seq::empty())
    } else {
        let (done, open) = scan(gaps, (n - 1) as nat);
        scan_step(done, open, gaps[n - 1], n as usize)
    }
}

/// The groups of stationary points of a trace with the given gaps between
/// its consecutive points.
pub open spec fn stationary_groups(gaps: Seq<Option<Distance>>) -> Seq<Seq<usize>> {
    let (done, open) = scan(gaps, gaps.len());
    if open.len() > 0 {
        done.push(open)
    } else {
        done
    }
}

/// The indices that are skipped: all but the first of each group.
pub open spec fn skip_set(groups: Seq<Seq<usize>>) -> Set<usize> {
    Set::new(
        |x: usize|
            exists|g: int, k: int|
                0 <= g < groups.len() && 1 <= k < groups[g].len() && #[trigger] groups[g][k] == x,
    )
}

/// The number of indices below `i` that are not skipped.
pub open spec fn count_kept(skip: Set<usize>, i: nat) -> nat
    decreases i,
{
    if i == 0 {
        0
    } else {
        count_kept(skip, (i - 1) as nat) + if skip.contains((i - 1) as usize) {
            0nat
        } else {
            1nat
        }
    }
}

/// The number of indices below `i` that are skipped.
pub open spec fn count_skipped(skip: Set<usize>, i: nat) -> nat
    decreases i,
{
    if i == 0 {
        0
    } else {
        count_skipped(skip, (i - 1) as nat) + if skip.contains((i - 1) as usize) {
            1nat
        } else {
            0nat
        }
    }
}

/// The first `n` points of a trace without those that are skipped.
pub open spec fn kept_points(points: Seq<MapMatchingPoint>, skip: Set<usize>, n: nat) -> Seq<
    MapMatchingPoint,
>
    decreases n,
{
    if n == 0 {
        Seq::empty()
    } else if skip.contains((n - 1) as usize) {
        kept_points(points, skip, (n - 1) as nat)
    } else {
        kept_points(points, skip, (n - 1) as nat).push(points[n - 1])
    }
}

/// The matches of the first `n` points of the full trace, from the matches
/// of the points that were kept: a kept point takes the next match, as long
/// as there is one; a skipped point takes the match of the point before
/// it, if there is a point before it.
pub open spec fn reexpand(matches: Seq<PointMatch>, skip: Set<usize>, n: nat) -> Seq<PointMatch>
    decreases n,
{
    if n == 0 {
        Seq::empty()
    } else {
        let before = reexpand(matches, skip, (n - 1) as nat);
        if skip.contains((n - 1) as usize) {
            if before.len() > 0 {
                before.push(before.last())
            } else {
                before
            }
        } else if count_kept(skip, (n - 1) as nat) < matches.len() {
            before.push(matches[count_kept(skip, (n - 1) as nat) as int])
        } else {
            before
        }
    }
}

/// Every index below `i` is kept or skipped.
pub proof fn lemma_counts_add_up(skip: Set<usize>, i: nat)
    ensures
        count_kept(skip, i) + count_skipped(skip, i) == i,
    decreases i,
{
    if i > 0 {
        lemma_counts_add_up(skip, (i - 1) as nat);
    }
}

/// Counting below `i` looks at no index from `i` on.
proof fn lemma_count_local(a: Set<usize>, b: Set<usize>, i: nat)
    requires
        forall|x: usize| x < i ==> (a.contains(x) <==> b.contains(x)),
    ensures
        count_skipped(a, i) == count_skipped(b, i),
    decreases i,
{
    if i > 0 {
        lemma_count_local(a, b, (i - 1) as nat);
    }
}

/// A finite set of indices below `n` has as many members as are counted
/// below `n`.
pub proof fn lemma_skipped_is_len(skip: Set<usize>, n: nat)
    requires
        skip.finite(),
        forall|x: usize| skip.contains(x) ==> x < n,
        n <= usize::MAX,
    ensures
        skip.len() == count_skipped(skip, n),
    decreases n,
{
    if n == 0 {
        assert(skip =~= Set::<usize>::empty());
    } else {
        let top = (n - 1) as usize;
        let rest = skip.remove(top);
        lemma_skipped_is_len(rest, (n - 1) as nat);
        lemma_count_local(skip, rest, (n - 1) as nat);
    }
}

/// The number of skipped indices between `i` and `n` is at most `n - i`,
/// and less if `i` itself is kept.
proof fn lemma_skipped_between(skip: Set<usize>, i: nat, n: nat)
    requires
        i <= n,
    ensures
        count_skipped(skip, n) - count_skipped(skip, i) <= n - i,
        i < n && !skip.contains(i as usize) ==> count_skipped(skip, n) - count_skipped(skip, i)
            <= n - i - 1,
    decreases n - i,
{
    if i < n {
        lemma_skipped_between(skip, i, (n - 1) as nat);
        if i < n - 1 {
        } else {
            assert(count_skipped(skip, n) == count_skipped(skip, i) + if skip.contains(
                i as usize,
            ) {
                1nat
            } else {
                0nat
            });
        }
    }
}

/// Re-expansion gives every point of the full trace a match: if the
/// skipped indices lie within the full trace and the first point is kept,
/// then from the matches of the kept points, of which there is at least
/// one, re-expansion makes as many matches as the full trace has points.
pub proof fn lemma_reexpand_len(matches: Seq<PointMatch>, skip: Set<usize>, n: nat)
    requires
        skip.finite(),
        !skip.contains(0),
        forall|x: usize| skip.contains(x) ==> x < n,
        matches.len() + skip.len() == n,
        n <= usize::MAX,
    ensures
        reexpand(matches, skip, n).len() == n,
{
    lemma_skipped_is_len(skip, n);
    lemma_reexpand_prefix(matches, skip, n, n);
}

/// Re-expansion gives each of the first `i` points a match.
proof fn lemma_reexpand_prefix(matches: Seq<PointMatch>, skip: Set<usize>, n: nat, i: nat)
    requires
        !skip.contains(0),
        matches.len() + count_skipped(skip, n) == n,
        i <= n,
        n <= usize::MAX,
    ensures
        reexpand(matches, skip, i).len() == i,
    decreases i,
{
    if i > 0 {
        let j = (i - 1) as nat;
        lemma_reexpand_prefix(matches, skip, n, j);
        if !skip.contains(j as usize) {
            lemma_counts_add_up(skip, j);
            lemma_skipped_between(skip, j, n);
        }
    }
}

/// Re-expansion makes no match up: each of its matches is one of the
/// matches that it was given.
pub proof fn lemma_reexpand_members(matches: Seq<PointMatch>, skip: Set<usize>, n: nat)
    ensures
        forall|i: int|
            0 <= i < reexpand(matches, skip, n).len() ==> matches.contains(
                #[trigger] reexpand(matches, skip, n)[i],
            ),
    decreases n,
{
    if n > 0 {
        lemma_reexpand_members(matches, skip, (n - 1) as nat);
        let before = reexpand(matches, skip, (n - 1) as nat);
        let now = reexpand(matches, skip, n);
        assert forall|i: int| 0 <= i < now.len() implies matches.contains(#[trigger] now[i]) by {
            if i < before.len() {
                assert(now[i] == before[i]);
            } else if skip.contains((n - 1) as usize) {
                assert(now[i] == before[before.len() - 1]);
            } else {
                assert(now[i] == matches[count_kept(skip, (n - 1) as nat) as int]);
            }
        }
    }
}

/// The number of kept points is the length of what is kept.
pub proof fn lemma_kept_points_len(points: Seq<MapMatchingPoint>, skip: Set<usize>, n: nat)
    ensures
        kept_points(points, skip, n).len() == count_kept(skip, n),
    decreases n,
{
    if n > 0 {
        lemma_kept_points_len(points, skip, (n - 1) as nat);
    }
}

/// Groups the stationary points of a trace, given the distance from each
/// point to the next (`None` where it could not be measured).
pub fn group_stationary(gaps: &Vec<Option<Distance>>) -> (groups: Vec<StationaryIndex>)
    ensures
        group_views(groups@) == stationary_groups(gaps@),
{
    let mut collections: Vec<StationaryIndex> = Vec::new();
    let mut current: Vec<usize> = Vec::new();
    let count: usize = gaps.len();
    let mut k: usize = 0;
    assert(group_views(collections@) =~= Seq::<Seq<usize>>::empty());
    while k < count
        invariant
            k <= count,
            count == gaps.len(),
            scan(gaps@, k as nat) == (group_views(collections@), current@),
        decreases count - k,
    {
        let i: usize = k + 1;
        let ghost done = group_views(collections@);
        match gaps[k] {
            Some(d) => {
                if d.is_shorter_than(&Distance::new(STATIONARY_LIMIT)) {
                    if current.len() == 0 {
                        current.push(i - 1);
                    }
                    current.push(i);
                    assert(current@ =~= scan_step(done, scan(gaps@, k as nat).1, gaps@[k as int], i).1);
                } else if current.len() > 0 {
                    let closed = StationaryIndex { i_index: current };
                    collections.push(closed);
                    current = Vec::new();
                    assert(group_views(collections@) =~= done.push(closed@));
                }
            },
            None => {},
        }
        k += 1;
    }
    if current.len() > 0 {
        let ghost done = group_views(collections@);
        let closed = StationaryIndex { i_index: current };
        collections.push(closed);
        assert(group_views(collections@) =~= done.push(closed@));
    }
    collections
}

/// The indices that are skipped, as a set.
pub fn collect_skips(groups: &Vec<StationaryIndex>) -> (skip: HashSet<usize>)
    ensures
        skip@ == skip_set(group_views(groups@)),
        skip@.finite(),
{
    broadcast use group_hash_axioms;

    let mut skip: HashSet<usize> = HashSet::new();
    let ghost views = group_views(groups@);
    let mut g: usize = 0;
    while g < groups.len()
        invariant
            g <= groups.len(),
            views == group_views(groups@),
            skip@.finite(),
            forall|x: usize|
                skip@.contains(x) <==> exists|a: int, b: int|
                    0 <= a < g && 1 <= b < views[a].len() && #[trigger] views[a][b] == x,
        decreases groups.len() - g,
    {
        let group = &groups[g];
        assert(views[g as int] == group.i_index@);
        let mut k: usize = 1;
        while k < group.i_index.len()
            invariant
                1 <= k,
                g < groups.len(),
                views == group_views(groups@),
                views[g as int] == group.i_index@,
                skip@.finite(),
                forall|x: usize|
                    skip@.contains(x) <==> (exists|a: int, b: int|
                        0 <= a < g && 1 <= b < views[a].len() && #[trigger] views[a][b] == x) || (
                    exists|b: int|
                        1 <= b < k && b < views[g as int].len() && #[trigger] views[g as int][b]
                            == x),
            decreases group.i_index.len() - k,
        {
            let index: usize = group.i_index[k];
            skip.insert(index);
            assert(views[g as int][k as int] == index);
            k += 1;
        }
        proof {
            assert forall|x: usize|
                skip@.contains(x) <==> exists|a: int, b: int|
                    0 <= a < g + 1 && 1 <= b < views[a].len() && #[trigger] views[a][b] == x by {
                if skip@.contains(x) {
                    if exists|b: int| 1 <= b < views[g as int].len() && #[trigger] views[g as int][b] == x {
                        let b = choose|b: int|
                            1 <= b < views[g as int].len() && #[trigger] views[g as int][b] == x;
                        assert(0 <= g < g + 1 && 1 <= b < views[g as int].len() && views[g as int][b] == x);
                    }
                }
                if exists|a: int, b: int|
                    0 <= a < g + 1 && 1 <= b < views[a].len() && #[trigger] views[a][b] == x {
                    let (a, b) = choose|a: int, b: int|
                        0 <= a < g + 1 && 1 <= b < views[a].len() && #[trigger] views[a][b] == x;
                    if a == g {
                        assert(1 <= b < views[g as int].len() && views[g as int][b] == x);
                    }
                }
            }
        }
        g += 1;
    }
    assert(skip@ =~= skip_set(views));
    skip
}

/// The trace without its skipped points.
pub fn reduce_trace(trace: &MapMatchingTrace, skip: &HashSet<usize>) -> (reduced: MapMatchingTrace)
    ensures
        reduced@ == kept_points(trace@, skip@, trace@.len()),
{
    broadcast use group_hash_axioms;

    let mut points: Vec<MapMatchingPoint> = Vec::new();
    let mut i: usize = 0;
    while i < trace.points.len()
        invariant
            i <= trace.points.len(),
            points@ == kept_points(trace@, skip@, i as nat),
        decreases trace.points.len() - i,
    {
        if !skip.contains(&i) {
            points.push(trace.points[i]);
        }
        i += 1;
    }
    MapMatchingTrace::new(points)
}

/// Gives the skipped points their matches back: each takes the match of the
/// point before it.
///
/// `matches` are the matches of the kept points. The full trace is taken
/// to have as many points as there are matches and skipped indices.
pub fn add_matches_for_stationary_points(
    matches: Vec<PointMatch>,
    stationary_indices: Vec<StationaryIndex>,
) -> (expanded: Vec<PointMatch>)
    requires
        matches.len() + skip_set(group_views(stationary_indices@)).len() <= usize::MAX,
    ensures
        expanded@ == reexpand(
            matches@,
            skip_set(group_views(stationary_indices@)),
            matches@.len() + skip_set(group_views(stationary_indices@)).len(),
        ),
{
    broadcast use group_hash_axioms;

    let skip_indices = collect_skips(&stationary_indices);
    let mut final_matches: Vec<PointMatch> = Vec::new();
    let mut sub_trace_idx: usize = 0;
    let full_trace_len: usize = matches.len() + skip_indices.len();
    let mut i: usize = 0;
    while i < full_trace_len
        invariant
            i <= full_trace_len,
            final_matches@ == reexpand(matches@, skip_indices@, i as nat),
            sub_trace_idx <= matches.len(),
            sub_trace_idx <= count_kept(skip_indices@, i as nat),
            sub_trace_idx < matches.len() ==> sub_trace_idx == count_kept(skip_indices@, i as nat),
        decreases full_trace_len - i,
    {
        if skip_indices.contains(&i) {
            let count: usize = final_matches.len();
            if count > 0 {
                let last_match: PointMatch = final_matches[count - 1];
                final_matches.push(last_match);
            }
        } else if sub_trace_idx < matches.len() {
            final_matches.push(matches[sub_trace_idx]);
            sub_trace_idx += 1;
        }
        i += 1;
    }
    final_matches
}

} // verus!
