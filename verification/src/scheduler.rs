//! Weight-balanced batching of queries for a pool of workers.
//!
//! Queries are dealt out greedily: each goes, in the order of arrival, to
//! the batch whose weights add up to the least so far.

use vstd::prelude::*;

verus! {

/// Why queries could not be batched.
#[derive(Clone, Copy, Debug, PartialEq, Eq, Structural)]
pub enum SchedulerError {
    /// There are queries but no batch to put them in.
    NoBins,
}

/// The weight of a query: its estimate, or `default` where it has none.
pub open spec fn weight_of(estimate: Option<u64>, default: u64) -> nat {
    match estimate {
        Some(w) => w as nat,
        None => default as nat,
    }
}

/// The weights of the queries.
pub open spec fn weights_of(estimates: Seq<Option<u64>>, default: u64) -> Seq<nat> {
    estimates.map_values(|e: Option<u64>| weight_of(e, default))
}

/// The position of the least total, the first of several; zero if there is
/// none.
pub open spec fn first_min(totals: Seq<nat>) -> int
    decreases totals.len(),
{
    if totals.len() <= 1 {
        0
    } else {
        let m = first_min(totals.drop_last());
        if totals.last() < totals[m] {
            totals.len() - 1
        } else {
            m
        }
    }
}

/// The totals of the `bins` batches after the first `n` queries were dealt
/// out.
pub open spec fn greedy_totals(weights: Seq<nat>, bins: nat, n: nat) -> Seq<nat>
    decreases n,
{
    if n == 0 {
        Seq::new(bins, |b: int| 0nat)
    } else {
        let before = greedy_totals(weights, bins, (n - 1) as nat);
        let m = first_min(before);
        before.update(m, before[m] + weights[n - 1])
    }
}

/// The batch that query `i` goes to: the least loaded when its turn comes.
pub open spec fn greedy_bin(weights: Seq<nat>, bins: nat, i: nat) -> int {
    first_min(greedy_totals(weights, bins, i))
}

/// The queries among the first `n` that go to batch `b`, in the order of
/// arrival.
pub open spec fn batch_of(weights: Seq<nat>, bins: nat, b: int, n: nat) -> Seq<usize>
    decreases n,
{
    if n == 0 {
        Seq::empty()
    } else {
        let before = batch_of(weights, bins, b, (n - 1) as nat);
        if greedy_bin(weights, bins, (n - 1) as nat) == b {
            before.push((n - 1) as usize)
        } else {
            before
        }
    }
}

/// The least total is in range, no total is below it, and all before it are
/// above it.
pub proof fn lemma_first_min(totals: Seq<nat>)
    requires
        totals.len() > 0,
    ensures
        0 <= first_min(totals) < totals.len(),
        forall|k: int| 0 <= k < totals.len() ==> totals[first_min(totals)] <= #[trigger] totals[k],
        forall|k: int| 0 <= k < first_min(totals) ==> totals[first_min(totals)] < #[trigger] totals[k],
    decreases totals.len(),
{
    if totals.len() > 1 {
        lemma_first_min(totals.drop_last());
        let m = first_min(totals.drop_last());
        assert(totals.drop_last()[m] == totals[m]);
        assert forall|k: int| 0 <= k < totals.len() implies totals[first_min(totals)]
            <= #[trigger] totals[k] by {
            if k < totals.len() - 1 {
                assert(totals.drop_last()[k] == totals[k]);
            }
        }
        assert forall|k: int| 0 <= k < first_min(totals) implies totals[first_min(totals)]
            < #[trigger] totals[k] by {
            assert(totals.drop_last()[k] == totals[k]);
        }
    }
}

/// There are as many totals as batches.
pub proof fn lemma_totals_len(weights: Seq<nat>, bins: nat, n: nat)
    requires
        bins > 0,
    ensures
        greedy_totals(weights, bins, n).len() == bins,
    decreases n,
{
    if n > 0 {
        lemma_totals_len(weights, bins, (n - 1) as nat);
        lemma_first_min(greedy_totals(weights, bins, (n - 1) as nat));
    }
}

/// The batches hold the queries, each once: a batch lists, in ascending
/// order, exactly the queries that go to it, and every query goes to one of
/// the batches.
pub proof fn lemma_conservation(weights: Seq<nat>, bins: nat, b: int, n: nat)
    requires
        bins > 0,
        n <= usize::MAX,
    ensures
        forall|k: int|
            0 <= k < batch_of(weights, bins, b, n).len() ==> {
                let i = #[trigger] batch_of(weights, bins, b, n)[k];
                i < n && greedy_bin(weights, bins, i as nat) == b
            },
        forall|j: int, k: int|
            0 <= j < k < batch_of(weights, bins, b, n).len() ==> batch_of(weights, bins, b, n)[j]
                < batch_of(weights, bins, b, n)[k],
        forall|i: nat|
            i < n && i <= usize::MAX && greedy_bin(weights, bins, i) == b ==> batch_of(
                weights,
                bins,
                b,
                n,
            ).contains(i as usize),
        forall|i: nat| i < n ==> 0 <= #[trigger] greedy_bin(weights, bins, i) < bins,
    decreases n,
{
    if n > 0 {
        let m = (n - 1) as nat;
        lemma_conservation(weights, bins, b, m);
        lemma_totals_len(weights, bins, m);
        lemma_first_min(greedy_totals(weights, bins, m));
        let before = batch_of(weights, bins, b, m);
        let now = batch_of(weights, bins, b, n);
        assert forall|k: int| 0 <= k < now.len() implies {
            let i = #[trigger] now[k];
            i < n && greedy_bin(weights, bins, i as nat) == b
        } by {
            if k < before.len() {
                assert(now[k] == before[k]);
                assert(before[k] < m);
            } else {
                assert(now[k] == m as usize);
            }
        }
        assert forall|j: int, k: int| 0 <= j < k < now.len() implies now[j] < now[k] by {
            assert(now[j] == before[j]);
            assert(before[j] < m);
            if k < before.len() {
                assert(now[k] == before[k]);
            } else {
                assert(now[k] == m as usize);
            }
        }
        assert forall|i: nat|
            i < n && i <= usize::MAX && greedy_bin(weights, bins, i) == b implies now.contains(
            i as usize,
        ) by {
            if i < m {
                assert(before.contains(i as usize));
                let k = choose|k: int| 0 <= k < before.len() && before[k] == i as usize;
                assert(now[k] == i as usize);
            } else {
                assert(now[now.len() - 1] == i as usize);
            }
        }
        assert forall|i: nat| i < n implies 0 <= #[trigger] greedy_bin(weights, bins, i) < bins by {
            if i == m {
            }
        }
    }
}

/// The sum of the first `n` weights.
pub open spec fn total_weight(weights: Seq<nat>, n: nat) -> nat
    decreases n,
{
    if n == 0 {
        0
    } else {
        total_weight(weights, (n - 1) as nat) + weights[n - 1]
    }
}

/// The greatest of the first `n` weights; zero if there is none.
pub open spec fn heaviest(weights: Seq<nat>, n: nat) -> nat
    decreases n,
{
    if n == 0 {
        0
    } else {
        let before = heaviest(weights, (n - 1) as nat);
        if weights[n - 1] > before {
            weights[n - 1]
        } else {
            before
        }
    }
}

/// The sum of totals.
pub open spec fn sum_of(totals: Seq<nat>) -> nat
    decreases totals.len(),
{
    if totals.len() == 0 {
        0
    } else {
        sum_of(totals.drop_last()) + totals.last()
    }
}

/// What batch `b` weighs after the first `n` queries, when query `i` goes
/// to batch `assignment[i]`.
pub open spec fn load(weights: Seq<nat>, assignment: Seq<int>, b: int, n: nat) -> nat
    decreases n,
{
    if n == 0 {
        0
    } else {
        load(weights, assignment, b, (n - 1) as nat) + if assignment[n - 1] == b {
            weights[n - 1]
        } else {
            0
        }
    }
}

/// What each of `bins` batches weighs under an assignment.
pub open spec fn loads(weights: Seq<nat>, assignment: Seq<int>, bins: nat, n: nat) -> Seq<nat> {
    Seq::new(bins, |b: int| load(weights, assignment, b, n))
}

/// The assignment that the greedy policy makes of the first `n` queries.
pub open spec fn greedy_assignment(weights: Seq<nat>, bins: nat, n: nat) -> Seq<int> {
    Seq::new(n, |i: int| greedy_bin(weights, bins, i as nat))
}

/// Raising one total by `w` raises the sum by `w`.
proof fn lemma_sum_raise(totals: Seq<nat>, m: int, w: nat)
    requires
        0 <= m < totals.len(),
    ensures
        sum_of(totals.update(m, totals[m] + w)) == sum_of(totals) + w,
    decreases totals.len(),
{
    if m == totals.len() - 1 {
        assert(totals.update(m, totals[m] + w).drop_last() =~= totals.drop_last());
    } else {
        lemma_sum_raise(totals.drop_last(), m, w);
        assert(totals.update(m, totals[m] + w).drop_last() =~= totals.drop_last().update(
            m,
            totals[m] + w,
        ));
    }
}

/// Empty batches weigh nothing.
proof fn lemma_sum_zero(bins: nat)
    ensures
        sum_of(Seq::new(bins, |b: int| 0nat)) == 0,
    decreases bins,
{
    if bins > 0 {
        assert(Seq::new(bins, |b: int| 0nat).drop_last() =~= Seq::new(
            (bins - 1) as nat,
            |b: int| 0nat,
        ));
        lemma_sum_zero((bins - 1) as nat);
    }
}

/// The greedy totals add up to the weight of the queries.
proof fn lemma_greedy_sum(weights: Seq<nat>, bins: nat, n: nat)
    requires
        bins > 0,
    ensures
        sum_of(greedy_totals(weights, bins, n)) == total_weight(weights, n),
    decreases n,
{
    if n == 0 {
        lemma_sum_zero(bins);
    } else {
        let before = greedy_totals(weights, bins, (n - 1) as nat);
        lemma_greedy_sum(weights, bins, (n - 1) as nat);
        lemma_totals_len(weights, bins, (n - 1) as nat);
        lemma_first_min(before);
        lemma_sum_raise(before, first_min(before), weights[n - 1]);
    }
}

/// No two greedy totals differ by more than the heaviest query.
proof fn lemma_greedy_spread(weights: Seq<nat>, bins: nat, n: nat, b: int, c: int)
    requires
        bins > 0,
        0 <= b < bins,
        0 <= c < bins,
    ensures
        greedy_totals(weights, bins, n)[b] <= greedy_totals(weights, bins, n)[c] + heaviest(
            weights,
            n,
        ),
    decreases n,
{
    if n > 0 {
        let before = greedy_totals(weights, bins, (n - 1) as nat);
        lemma_totals_len(weights, bins, (n - 1) as nat);
        lemma_first_min(before);
        lemma_greedy_spread(weights, bins, (n - 1) as nat, b, c);
        let m = first_min(before);
        assert(before[m] <= before[c]);
    }
}

/// The loads under any assignment add up to the weight of the queries.
proof fn lemma_loads_sum(weights: Seq<nat>, assignment: Seq<int>, bins: nat, n: nat)
    requires
        forall|i: int| 0 <= i < n ==> 0 <= #[trigger] assignment[i] < bins,
    ensures
        sum_of(loads(weights, assignment, bins, n)) == total_weight(weights, n),
    decreases n,
{
    if n == 0 {
        assert(loads(weights, assignment, bins, 0) =~= Seq::new(bins, |b: int| 0nat));
        lemma_sum_zero(bins);
    } else {
        lemma_loads_sum(weights, assignment, bins, (n - 1) as nat);
        let before = loads(weights, assignment, bins, (n - 1) as nat);
        let m = assignment[n - 1];
        lemma_sum_raise(before, m, weights[n - 1]);
        assert(loads(weights, assignment, bins, n) =~= before.update(
            m,
            before[m] + weights[n - 1],
        ));
    }
}

/// A batch weighs at least as much as any one of its queries.
proof fn lemma_load_holds_query(weights: Seq<nat>, assignment: Seq<int>, n: nat, i: int)
    requires
        0 <= i < n,
    ensures
        weights[i] <= load(weights, assignment, assignment[i], n),
    decreases n,
{
    if i < n - 1 {
        lemma_load_holds_query(weights, assignment, (n - 1) as nat, i);
    }
}

/// If an assignment keeps every batch within `limit`, no query is heavier
/// than `limit`.
proof fn lemma_heaviest_within(
    weights: Seq<nat>,
    assignment: Seq<int>,
    bins: nat,
    n: nat,
    limit: nat,
    upto: nat,
)
    requires
        upto <= n,
        forall|i: int| 0 <= i < n ==> 0 <= #[trigger] assignment[i] < bins,
        forall|c: int| 0 <= c < bins ==> load(weights, assignment, c, n) <= limit,
    ensures
        heaviest(weights, upto) <= limit,
    decreases upto,
{
    if upto > 0 {
        lemma_heaviest_within(weights, assignment, bins, n, limit, (upto - 1) as nat);
        lemma_load_holds_query(weights, assignment, n, upto - 1);
        assert(0 <= assignment[upto - 1] < bins);
    }
}

/// What a batch weighs under the greedy assignment is its greedy total.
pub proof fn lemma_totals_are_loads(weights: Seq<nat>, bins: nat, n: nat, b: int)
    requires
        bins > 0,
        0 <= b < bins,
    ensures
        greedy_totals(weights, bins, n)[b] == load(
            weights,
            greedy_assignment(weights, bins, n),
            b,
            n,
        ),
    decreases n,
{
    lemma_load_prefix(weights, bins, n, n, b);
}

/// After `upto` queries, what a batch weighs under the greedy assignment is
/// its greedy total.
proof fn lemma_load_prefix(weights: Seq<nat>, bins: nat, n: nat, upto: nat, b: int)
    requires
        bins > 0,
        0 <= b < bins,
        upto <= n,
    ensures
        greedy_totals(weights, bins, upto)[b] == load(
            weights,
            greedy_assignment(weights, bins, n),
            b,
            upto,
        ),
    decreases upto,
{
    if upto > 0 {
        lemma_load_prefix(weights, bins, n, (upto - 1) as nat, b);
        lemma_totals_len(weights, bins, (upto - 1) as nat);
        lemma_first_min(greedy_totals(weights, bins, (upto - 1) as nat));
    }
}

/// The greedy policy is within a factor of two of any other: if some
/// assignment of the queries to the batches keeps every batch within
/// `limit`, then the greedy policy keeps every batch within twice `limit`.
pub proof fn lemma_greedy_within_twice(
    weights: Seq<nat>,
    bins: nat,
    n: nat,
    other: Seq<int>,
    limit: nat,
    b: int,
)
    requires
        bins > 0,
        0 <= b < bins,
        forall|i: int| 0 <= i < n ==> 0 <= #[trigger] other[i] < bins,
        forall|c: int| 0 <= c < bins ==> load(weights, other, c, n) <= limit,
    ensures
        greedy_totals(weights, bins, n)[b] <= 2 * limit,
{
    let totals = greedy_totals(weights, bins, n);
    lemma_totals_len(weights, bins, n);
    lemma_first_min(totals);
    let m = first_min(totals);
    lemma_greedy_spread(weights, bins, n, b, m);
    lemma_heaviest_within(weights, other, bins, n, limit, n);
    lemma_greedy_sum(weights, bins, n);
    lemma_least_share(totals, totals[m]);
    lemma_loads_sum(weights, other, bins, n);
    lemma_most_share(loads(weights, other, bins, n), limit);
    let least = totals[m] as int;
    let p = bins as int;
    let l = limit as int;
    assert(least <= l) by (nonlinear_arith)
        requires
            p * least <= p * l,
            p > 0,
    ;
}

/// Totals of at least `low` each add up to at least `low` for each.
proof fn lemma_least_share(totals: Seq<nat>, low: nat)
    requires
        forall|k: int| 0 <= k < totals.len() ==> low <= #[trigger] totals[k],
    ensures
        totals.len() * low <= sum_of(totals),
    decreases totals.len(),
{
    if totals.len() > 0 {
        assert forall|k: int| 0 <= k < totals.drop_last().len() implies low
            <= #[trigger] totals.drop_last()[k] by {
            assert(totals.drop_last()[k] == totals[k]);
        }
        lemma_least_share(totals.drop_last(), low);
        let n = totals.len() as int;
        assert((n - 1) * low + low == n * low) by (nonlinear_arith);
        assert(low <= totals[n - 1]);
    }
}

/// Totals of at most `high` each add up to at most `high` for each.
proof fn lemma_most_share(totals: Seq<nat>, high: nat)
    requires
        forall|k: int| 0 <= k < totals.len() ==> #[trigger] totals[k] <= high,
    ensures
        sum_of(totals) <= totals.len() * high,
    decreases totals.len(),
{
    if totals.len() > 0 {
        assert forall|k: int| 0 <= k < totals.drop_last().len() implies #[trigger] totals.drop_last()[k]
            <= high by {
            assert(totals.drop_last()[k] == totals[k]);
        }
        lemma_most_share(totals.drop_last(), high);
        let n = totals.len() as int;
        assert((n - 1) * high + high == n * high) by (nonlinear_arith);
        assert(totals[n - 1] <= high);
    }
}

/// The position of the least total and the first of several.
pub fn min_bin(bins: &Vec<u128>) -> (r: Result<usize, SchedulerError>)
    ensures
        bins@.len() == 0 ==> r == Err::<usize, SchedulerError>(SchedulerError::NoBins),
        bins@.len() > 0 ==> r == Ok::<usize, SchedulerError>(
            first_min(bins@.map_values(|t: u128| t as nat)) as usize,
        ),
{
    if bins.len() == 0 {
        return Err(SchedulerError::NoBins);
    }
    let ghost totals = bins@.map_values(|t: u128| t as nat);
    let mut best: usize = 0;
    let mut i: usize = 1;
    assert(totals.take(1).len() == 1);
    while i < bins.len()
        invariant
            1 <= i <= bins.len(),
            totals == bins@.map_values(|t: u128| t as nat),
            best < i,
            best == first_min(totals.take(i as int)),
        decreases bins.len() - i,
    {
        proof {
            assert(totals.take(i + 1).drop_last() =~= totals.take(i as int));
            assert(totals.take(i + 1).last() == totals[i as int]);
            assert(totals.take(i + 1)[best as int] == totals[best as int]);
        }
        if bins[i] < bins[best] {
            best = i;
        }
        i += 1;
    }
    assert(totals.take(i as int) =~= totals);
    Ok(best)
}

/// Deals the queries out to `parallelism` batches, balancing the weights.
///
/// `estimates[i]` is the weight estimate of query `i`; a query without one
/// weighs `default`. Each query goes, in the order of arrival, to the batch
/// whose weights add up to the least so far, the first of several. The
/// result lists, for each batch, the indices of its queries in the order
/// of arrival.
///
/// No queries give no batches. Queries without a batch to put them in are
/// refused with `NoBins`.
pub fn apply_load_balancing_policy(
    estimates: &Vec<Option<u64>>,
    parallelism: usize,
    default: u64,
) -> (r: Result<Vec<Vec<usize>>, SchedulerError>)
    ensures
        estimates@.len() == 0 ==> (r matches Ok(batches) && batches@.len() == 0),
        estimates@.len() > 0 && parallelism == 0 ==> r == Err::<Vec<Vec<usize>>, SchedulerError>(
            SchedulerError::NoBins,
        ),
        estimates@.len() > 0 && parallelism > 0 ==> (r matches Ok(batches) && batches@.len()
            == parallelism && forall|b: int|
            0 <= b < parallelism ==> (#[trigger] batches@[b])@ == batch_of(
                weights_of(estimates@, default),
                parallelism as nat,
                b,
                estimates@.len(),
            )),
{
    let count: usize = estimates.len();
    if count == 0 {
        return Ok(Vec::new());
    }
    if parallelism == 0 {
        return Err(SchedulerError::NoBins);
    }
    let ghost weights = weights_of(estimates@, default);
    let mut bin_totals: Vec<u128> = Vec::new();
    let mut assignments: Vec<Vec<usize>> = Vec::new();
    let mut b: usize = 0;
    while b < parallelism
        invariant
            b <= parallelism,
            bin_totals@.len() == b,
            assignments@.len() == b,
            forall|k: int| 0 <= k < b ==> #[trigger] bin_totals@[k] == 0,
            forall|k: int| 0 <= k < b ==> (#[trigger] assignments@[k])@ == Seq::<usize>::empty(),
        decreases parallelism - b,
    {
        bin_totals.push(0);
        assignments.push(Vec::new());
        b += 1;
    }
    assert(bin_totals@.map_values(|t: u128| t as nat) =~= greedy_totals(
        weights,
        parallelism as nat,
        0,
    ));
    let mut i: usize = 0;
    while i < count
        invariant
            i <= count,
            count == estimates@.len(),
            parallelism > 0,
            weights == weights_of(estimates@, default),
            bin_totals@.len() == parallelism,
            assignments@.len() == parallelism,
            bin_totals@.map_values(|t: u128| t as nat) == greedy_totals(
                weights,
                parallelism as nat,
                i as nat,
            ),
            forall|k: int| 0 <= k < parallelism ==> #[trigger] bin_totals@[k] <= i * 0xffff_ffff_ffff_ffff,
            forall|k: int|
                0 <= k < parallelism ==> (#[trigger] assignments@[k])@ == batch_of(
                    weights,
                    parallelism as nat,
                    k,
                    i as nat,
                ),
        decreases count - i,
    {
        let w: u64 = match estimates[i] {
            Some(w) => w,
            None => default,
        };
        assert(weights[i as int] == w);
        let ghost totals = bin_totals@.map_values(|t: u128| t as nat);
        let ghost prior = assignments@.map_values(|a: Vec<usize>| a@);
        let m: usize = match min_bin(&bin_totals) {
            Ok(m) => m,
            Err(_) => 0,
        };
        proof {
            lemma_first_min(totals);
            assert(m == first_min(totals));
            assert(bin_totals@[m as int] <= i * 0xffff_ffff_ffff_ffff);
            assert(i * 0xffff_ffff_ffff_ffff + 0xffff_ffff_ffff_ffff <= 0xffff_ffff_ffff_ffff
                * 0xffff_ffff_ffff_ffff + 0xffff_ffff_ffff_ffff) by (nonlinear_arith)
                requires
                    0 <= i <= 0xffff_ffff_ffff_ffff,
            ;
        }
        let sum: u128 = bin_totals[m] + (w as u128);
        bin_totals.set(m, sum);
        assignments[m].push(i);
        proof {
            assert(bin_totals@.map_values(|t: u128| t as nat) =~= totals.update(
                m as int,
                totals[m as int] + weights[i as int],
            ));
            assert forall|k: int| 0 <= k < parallelism implies #[trigger] bin_totals@[k] <= (i + 1)
                * 0xffff_ffff_ffff_ffff by {
                assert((i + 1) * 0xffff_ffff_ffff_ffff == i * 0xffff_ffff_ffff_ffff
                    + 0xffff_ffff_ffff_ffff) by (nonlinear_arith);
                if k != m {
                    assert(bin_totals@[k] == totals[k]);
                }
            }
            assert forall|k: int| 0 <= k < parallelism implies (#[trigger] assignments@[k])@
                == batch_of(weights, parallelism as nat, k, (i + 1) as nat) by {
                assert(prior[k] == batch_of(weights, parallelism as nat, k, i as nat));
            }
        }
        i += 1;
    }
    Ok(assignments)
}

} // verus!
