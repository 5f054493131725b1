//! The LCSS score of a path against a trace, and the match of each point
//! with its nearest edge.

use vstd::prelude::*;
use crate::map_matching::distance::Distance;
use crate::map_matching::map_matching_result::PointMatch;
use crate::network::{EdgeId, EdgeListId, EdgeRef};

verus! {

/// A table of distances: `table[j][i]` is the distance from point `i` of a
/// trace to edge `j` of a path.
pub open spec fn table_view(table: &Vec<Vec<Distance>>) -> Seq<Seq<Distance>> {
    table@.map_values(|row: Vec<Distance>| row@)
}

/// Whether `table` has one row for each of `n` edges and in each row one
/// distance for each of `m` points.
pub open spec fn table_shape(table: Seq<Seq<Distance>>, m: nat, n: nat) -> bool {
    &&& table.len() == n
    &&& forall|j: int| 0 <= j < n ==> (#[trigger] table[j]).len() == m
}

/// How similar a point and an edge at distance `d` are, in parts per
/// million: nothing from `epsilon` on, and below it the share of `epsilon`
/// that `d` leaves free, rounded down.
pub open spec fn similarity(d: Distance, epsilon: u64) -> nat {
    match d {
        Distance::Millimeters(mm) => if mm < epsilon {
            ((epsilon - mm) * 1_000_000 / (epsilon as int)) as nat
        } else {
            0
        },
        Distance::Infinite => 0,
    }
}

/// The greatest of three numbers.
pub open spec fn max3(a: nat, b: nat, c: nat) -> nat {
    if a >= b && a >= c {
        a
    } else if b >= c {
        b
    } else {
        c
    }
}

/// The weight of the longest common subsequence of the first `i` points and
/// the first `j` edges, in parts per million: a point and an edge that are
/// paired add their similarity.
pub open spec fn lcss_weight(table: Seq<Seq<Distance>>, epsilon: u64, i: nat, j: nat) -> nat
    decreases i + j,
{
    if i == 0 || j == 0 {
        0
    } else {
        max3(
            lcss_weight(table, epsilon, (i - 1) as nat, (j - 1) as nat) + similarity(
                table[j - 1][i - 1],
                epsilon,
            ),
            lcss_weight(table, epsilon, i, (j - 1) as nat),
            lcss_weight(table, epsilon, (i - 1) as nat, j),
        )
    }
}

/// Whether edge `k` is the nearest edge of point `i`: no edge is nearer,
/// and it is nearer than all edges before it.
pub open spec fn first_nearest(table: Seq<Seq<Distance>>, i: int, k: int) -> bool {
    &&& 0 <= k < table.len()
    &&& forall|j: int| 0 <= j < table.len() ==> !(#[trigger] table[j])[i].shorter_than(table[k][i])
    &&& forall|j: int| 0 <= j < k ==> table[k][i].shorter_than((#[trigger] table[j])[i])
}

/// A distance beyond `threshold` counts as infinite.
pub open spec fn cut_off(d: Distance, threshold: u64) -> Distance {
    if d.exceeds(threshold) {
        Distance::Infinite
    } else {
        d
    }
}

/// The match of point `i` with edge `k` of `path`.
pub open spec fn match_with(
    path: Seq<EdgeRef>,
    table: Seq<Seq<Distance>>,
    i: int,
    k: int,
    threshold: u64,
) -> PointMatch {
    PointMatch {
        edge_list_id: path[k].0,
        edge_id: path[k].1,
        distance_to_edge: cut_off(table[k][i], threshold),
    }
}

/// Whether `found` is the match of point `i` with its nearest edge.
pub open spec fn is_nearest_match(
    found: PointMatch,
    path: Seq<EdgeRef>,
    table: Seq<Seq<Distance>>,
    i: int,
    threshold: u64,
) -> bool {
    exists|k: int|
        #[trigger] first_nearest(table, i, k) && found == match_with(path, table, i, k, threshold)
}

/// The match of a point when there is no path.
pub open spec fn no_match() -> PointMatch {
    PointMatch {
        edge_list_id: EdgeListId(0),
        edge_id: EdgeId(0),
        distance_to_edge: Distance::Infinite,
    }
}

/// Whether `found` is a match with an edge of `path`.
pub open spec fn matched_on(found: PointMatch, path: Seq<EdgeRef>) -> bool {
    exists|k: int| 0 <= k < path.len() && (found.edge_list_id, found.edge_id) == #[trigger] path[k]
}

/// Whether every match is with an edge of the path, or, if the path is
/// empty, with no edge at all.
pub open spec fn matches_on_path(matches: Seq<PointMatch>, path: Seq<EdgeRef>) -> bool {
    forall|i: int|
        0 <= i < matches.len() ==> if path.len() == 0 {
            #[trigger] matches[i] == no_match()
        } else {
            matched_on(matches[i], path)
        }
}

/// The smaller of two numbers.
pub open spec fn least(a: nat, b: nat) -> nat {
    if a <= b {
        a
    } else {
        b
    }
}

/// The greater of two lengths.
pub open spec fn longer(a: u64, b: u64) -> nat {
    if a >= b {
        a as nat
    } else {
        b as nat
    }
}

/// The score after the penalty for badly covered end points. If the match
/// of the first or of the last point is farther than `epsilon`, the score
/// is divided by the mean of the two distances in units of `epsilon`, each
/// counted as at least one; an infinite distance leaves no score.
pub open spec fn penalized(score: nat, first: Distance, last: Distance, epsilon: u64) -> nat {
    if first.exceeds(epsilon) || last.exceeds(epsilon) {
        match (first, last) {
            (Distance::Millimeters(a), Distance::Millimeters(b)) => (score * (2 * epsilon) / ((
            longer(a, epsilon) + longer(b, epsilon)) as int)) as nat,
            _ => 0,
        }
    } else {
        score
    }
}

/// The score of a path of `n` edges against a trace of `m` points, in parts
/// per million, before the penalty: the weight of their longest common
/// subsequence by the length of the shorter.
pub open spec fn raw_score(table: Seq<Seq<Distance>>, epsilon: u64, m: nat, n: nat) -> nat {
    lcss_weight(table, epsilon, m, n) / least(m, n)
}

/// No pairing weighs more than one whole for each point, nor for each edge.
pub proof fn lemma_lcss_bound(table: Seq<Seq<Distance>>, epsilon: u64, i: nat, j: nat)
    ensures
        lcss_weight(table, epsilon, i, j) <= least(i, j) * 1_000_000,
    decreases i + j,
{
    if i > 0 && j > 0 {
        lemma_lcss_bound(table, epsilon, (i - 1) as nat, (j - 1) as nat);
        lemma_lcss_bound(table, epsilon, i, (j - 1) as nat);
        lemma_lcss_bound(table, epsilon, (i - 1) as nat, j);
        lemma_similarity_bound(table[j - 1][i - 1], epsilon);
        assert(least((i - 1) as nat, (j - 1) as nat) + 1 == least(i, j));
        assert(least(i, (j - 1) as nat) <= least(i, j));
        assert(least((i - 1) as nat, j) <= least(i, j));
        assert(least(i, (j - 1) as nat) * 1_000_000 <= least(i, j) * 1_000_000);
        assert(least((i - 1) as nat, j) * 1_000_000 <= least(i, j) * 1_000_000);
    }
}

/// A similarity is at most one whole.
pub proof fn lemma_similarity_bound(d: Distance, epsilon: u64)
    ensures
        similarity(d, epsilon) <= 1_000_000,
{
    match d {
        Distance::Millimeters(mm) => {
            if mm < epsilon {
                let free = (epsilon - mm) as int;
                let e = epsilon as int;
                assert(free * 1_000_000 / e <= 1_000_000) by (nonlinear_arith)
                    requires
                        0 < free <= e,
                ;
                assert(free * 1_000_000 / e >= 0) by (nonlinear_arith)
                    requires
                        0 < free <= e,
                ;
            }
        },
        Distance::Infinite => {},
    }
}

/// A score is at most one whole, and the penalty never raises it.
pub proof fn lemma_score_bound(
    table: Seq<Seq<Distance>>,
    epsilon: u64,
    m: nat,
    n: nat,
    first: Distance,
    last: Distance,
)
    requires
        m > 0,
        n > 0,
    ensures
        raw_score(table, epsilon, m, n) <= 1_000_000,
        penalized(raw_score(table, epsilon, m, n), first, last, epsilon) <= raw_score(
            table,
            epsilon,
            m,
            n,
        ),
{
    lemma_lcss_bound(table, epsilon, m, n);
    let w = lcss_weight(table, epsilon, m, n) as int;
    let k = least(m, n) as int;
    assert(w / k <= 1_000_000) by (nonlinear_arith)
        requires
            0 <= w <= k * 1_000_000,
            k > 0,
    ;
    assert(w / k >= 0) by (nonlinear_arith)
        requires
            0 <= w,
            k > 0,
    ;
    let score = raw_score(table, epsilon, m, n);
    lemma_penalty(score, first, last, epsilon);
}

/// The penalty never raises a score.
pub proof fn lemma_penalty(score: nat, first: Distance, last: Distance, epsilon: u64)
    ensures
        penalized(score, first, last, epsilon) <= score,
{
    if first.exceeds(epsilon) || last.exceeds(epsilon) {
        match (first, last) {
            (Distance::Millimeters(a), Distance::Millimeters(b)) => {
                let num = (2 * epsilon) as int;
                let den = (longer(a, epsilon) + longer(b, epsilon)) as int;
                let x = score as int;
                assert(x * num / den <= x && x * num / den >= 0) by (nonlinear_arith)
                    requires
                        0 <= num <= den,
                        den > 0,
                        x >= 0,
                ;
            },
            _ => {},
        }
    }
}

/// Computes [`similarity`].
pub fn similarity_of(d: Distance, epsilon: u64) -> (s: u128)
    ensures
        s == similarity(d, epsilon),
        s <= 1_000_000,
{
    proof {
        lemma_similarity_bound(d, epsilon);
    }
    match d {
        Distance::Millimeters(mm) => {
            if mm < epsilon {
                let free: u128 = (epsilon - mm) as u128;
                free * 1_000_000 / (epsilon as u128)
            } else {
                0
            }
        },
        Distance::Infinite => 0,
    }
}

/// Computes [`penalized`].
pub fn penalize(score: u64, first: Distance, last: Distance, epsilon: u64) -> (r: u64)
    requires
        score <= 1_000_000,
    ensures
        r == penalized(score as nat, first, last, epsilon),
{
    proof {
        lemma_penalty(score as nat, first, last, epsilon);
    }
    if first.is_longer_than(epsilon) || last.is_longer_than(epsilon) {
        match (first, last) {
            (Distance::Millimeters(a), Distance::Millimeters(b)) => {
                let first_part: u128 = if a >= epsilon {
                    a as u128
                } else {
                    epsilon as u128
                };
                let last_part: u128 = if b >= epsilon {
                    b as u128
                } else {
                    epsilon as u128
                };
                let twice: u128 = 2 * (epsilon as u128);
                proof {
                    let x = score as int;
                    let t = twice as int;
                    assert(x * t <= 0xffff_ffff_ffff_ffff_ffff_ffff_ffff_ffff) by (nonlinear_arith)
                        requires
                            0 <= x <= 1_000_000,
                            0 <= t <= 0x1_ffff_ffff_ffff_fffe,
                    ;
                }
                let r: u128 = (score as u128) * twice / (first_part + last_part);
                r as u64
            },
            _ => 0,
        }
    } else {
        score
    }
}

} // verus!
