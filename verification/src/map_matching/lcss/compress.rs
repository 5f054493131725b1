//! Thinning of cutting points: one representative for each run of
//! consecutive indices.

use vstd::prelude::*;
use vstd::relations::{sorted_by, total_ordering};
use vstd::seq_lib::lemma_sorted_unique;

verus! {

/// The order of indices.
pub open spec fn at_most() -> spec_fn(usize, usize) -> bool {
    |a: usize, b: usize| a <= b
}

/// Ascending order, repetitions allowed.
pub open spec fn ascending(s: Seq<usize>) -> bool {
    sorted_by(s, at_most())
}

/// The items of `s` in ascending order.
pub open spec fn sorted(s: Seq<usize>) -> Seq<usize> {
    s.sort_by(at_most())
}

/// What `compress` makes of `s`: the middle of each maximal run of
/// consecutive integers of `s` in ascending order.
pub open spec fn compressed(s: Seq<usize>) -> Seq<usize> {
    run_middles(sorted(s), 0)
}

/// The end (exclusive) of the maximal run of consecutive integers that
/// starts at position `start`: each item of the run is its predecessor
/// plus one.
pub open spec fn run_end(s: Seq<usize>, start: int) -> int
    decreases s.len() - start,
{
    if 0 <= start && start + 1 < s.len() && s[start + 1] == s[start] + 1 {
        run_end(s, start + 1)
    } else {
        start + 1
    }
}

/// The middle item of each maximal run of consecutive integers of `s`, from
/// position `start` on, run by run. The middle of a run of even length is
/// the upper of the two.
pub open spec fn run_middles(s: Seq<usize>, start: int) -> Seq<usize>
    decreases s.len() - start,
{
    if 0 <= start < s.len() {
        let end = run_end(s, start);
        if start < end <= s.len() {
            seq![s[start + (end - start) / 2]] + run_middles(s, end)
        } else {
            Seq::empty()
        }
    } else {
        Seq::empty()
    }
}

/// A run ends after its start, within the sequence, and its items count up
/// by one from the first.
pub proof fn lemma_run_end(s: Seq<usize>, start: int)
    requires
        0 <= start < s.len(),
    ensures
        start < run_end(s, start) <= s.len(),
        forall|k: int| start <= k < run_end(s, start) ==> #[trigger] s[k] == s[start] + (k - start),
        run_end(s, start) < s.len() ==> s[run_end(s, start)] != s[run_end(s, start) - 1] + 1,
    decreases s.len() - start,
{
    if start + 1 < s.len() && s[start + 1] == s[start] + 1 {
        lemma_run_end(s, start + 1);
    }
}

/// Sorts in ascending order: the standard library's `sort` on a vector.
/// The contract states what the library documents: the result is in
/// ascending order and holds the same items as often as the input.
#[verifier::external_body]
fn sort_in_place(v: &mut Vec<usize>)
    ensures
        ascending(final(v)@),
        final(v)@.to_multiset() == old(v)@.to_multiset(),
{
    v.sort();
}

/// The items of `v` in ascending order.
pub fn sort_ascending(v: Vec<usize>) -> (r: Vec<usize>)
    ensures
        r@ == sorted(v@),
{
    let mut r = v;
    sort_in_place(&mut r);
    proof {
        assert(total_ordering(at_most()));
        v@.lemma_sort_by_ensures(at_most());
        lemma_sorted_unique(r@, sorted(v@), at_most());
    }
    r
}

/// Reduces a list of indices to one representative for each run of
/// consecutive integers.
///
/// The input is put in ascending order. Of every maximal run of consecutive
/// integers in it exactly one item is kept, the middle one; an item without
/// neighbours is a run of its own and passes through; the empty list gives
/// the empty list.
pub fn compress(cutting_points: Vec<usize>) -> (result: Vec<usize>)
    ensures
        result@ == compressed(cutting_points@),
{
    let in_order = sort_ascending(cutting_points);
    compress_sorted(&in_order)
}

/// Nothing in, nothing out.
pub proof fn lemma_compress_empty()
    ensures
        compressed(Seq::<usize>::empty()) == Seq::<usize>::empty(),
{
    let s = Seq::<usize>::empty();
    assert(total_ordering(at_most()));
    s.lemma_sort_by_ensures(at_most());
    s.to_multiset_ensures();
    sorted(s).to_multiset_ensures();
    assert(sorted(s).len() == 0);
}

/// Items in ascending order of which none is the successor of the one
/// before pass through as they are.
pub proof fn lemma_compress_passes_isolated(s: Seq<usize>)
    requires
        ascending(s),
        forall|k: int| 0 <= k < s.len() - 1 ==> #[trigger] s[k + 1] != s[k] + 1,
    ensures
        compressed(s) == s,
{
    assert(total_ordering(at_most()));
    s.lemma_sort_by_ensures(at_most());
    lemma_sorted_unique(s, sorted(s), at_most());
    lemma_isolated_from(s, 0);
    assert(s.skip(0) =~= s);
}

/// From `start` on, items without successors among them pass through.
proof fn lemma_isolated_from(s: Seq<usize>, start: int)
    requires
        0 <= start <= s.len(),
        forall|k: int| 0 <= k < s.len() - 1 ==> #[trigger] s[k + 1] != s[k] + 1,
    ensures
        run_middles(s, start) == s.skip(start),
    decreases s.len() - start,
{
    if start < s.len() {
        assert(s[start + 1 - 1 + 1] != s[start] + 1 || start + 1 >= s.len());
        assert(run_end(s, start) == start + 1);
        lemma_isolated_from(s, start + 1);
        assert(s.skip(start) =~= seq![s[start]] + s.skip(start + 1));
    } else {
        assert(s.skip(start) =~= Seq::<usize>::empty());
    }
}

/// A run of consecutive integers that fills the whole input leaves its
/// middle item alone.
pub proof fn lemma_compress_single_run(s: Seq<usize>)
    requires
        s.len() > 0,
        forall|k: int| 0 <= k < s.len() - 1 ==> #[trigger] s[k + 1] == s[k] + 1,
    ensures
        compressed(s) == seq![s[s.len() as int / 2]],
{
    assert(total_ordering(at_most()));
    lemma_counting_ascends(s);
    s.lemma_sort_by_ensures(at_most());
    lemma_sorted_unique(s, sorted(s), at_most());
    lemma_run_to_end(s, 0);
    assert(run_middles(s, s.len() as int) =~= Seq::<usize>::empty());
    assert(seq![s[s.len() as int / 2]] + Seq::<usize>::empty() =~= seq![s[s.len() as int / 2]]);
}

/// Items that count up by one are in ascending order.
proof fn lemma_counting_ascends(s: Seq<usize>)
    requires
        forall|k: int| 0 <= k < s.len() - 1 ==> #[trigger] s[k + 1] == s[k] + 1,
    ensures
        ascending(s),
{
    assert forall|i: int, j: int| 0 <= i < j < s.len() implies at_most()(s[i], s[j]) by {
        lemma_counting_step(s, i, j);
    }
}

/// Items that count up by one differ by their distance in the sequence.
proof fn lemma_counting_step(s: Seq<usize>, i: int, j: int)
    requires
        forall|k: int| 0 <= k < s.len() - 1 ==> #[trigger] s[k + 1] == s[k] + 1,
        0 <= i <= j < s.len(),
    ensures
        s[j] == s[i] + (j - i),
    decreases j - i,
{
    if i < j {
        lemma_counting_step(s, i, j - 1);
        assert(s[j - 1 + 1] == s[j - 1] + 1);
    }
}

/// Where all items count up by one, the run from `start` ends with the
/// sequence.
proof fn lemma_run_to_end(s: Seq<usize>, start: int)
    requires
        0 <= start < s.len(),
        forall|k: int| 0 <= k < s.len() - 1 ==> #[trigger] s[k + 1] == s[k] + 1,
    ensures
        run_end(s, start) == s.len(),
    decreases s.len() - start,
{
    if start + 1 < s.len() {
        assert(s[start + 1] == s[start] + 1);
        lemma_run_to_end(s, start + 1);
    }
}

/// The middle item of each maximal run of consecutive integers of `sorted`.
pub fn compress_sorted(sorted: &Vec<usize>) -> (result: Vec<usize>)
    ensures
        result@ == run_middles(sorted@, 0),
{
    let mut result: Vec<usize> = Vec::new();
    let n: usize = sorted.len();
    let mut start: usize = 0;
    while start < n
        invariant
            n == sorted.len(),
            start <= n,
            result@ + run_middles(sorted@, start as int) == run_middles(sorted@, 0),
        decreases n - start,
    {
        let mut end: usize = start + 1;
        while end < n && sorted[end - 1] < usize::MAX && sorted[end] == sorted[end - 1] + 1
            invariant
                n == sorted.len(),
                start < end <= n,
                run_end(sorted@, end - 1) == run_end(sorted@, start as int),
            decreases n - end,
        {
            end += 1;
        }
        proof {
            lemma_run_end(sorted@, start as int);
            assert(run_end(sorted@, start as int) == end);
        }
        let mid: usize = start + (end - start) / 2;
        let ghost before = result@;
        result.push(sorted[mid]);
        assert(result@ + run_middles(sorted@, end as int) =~= before + (seq![sorted@[mid as int]]
            + run_middles(sorted@, end as int)));
        start = end;
    }
    assert(result@ + Seq::<usize>::empty() =~= result@);
    result
}

/// Whether `x` is an item of `s`.
pub open spec fn holds(s: Seq<usize>, x: int) -> bool {
    exists|i: int| 0 <= i < s.len() && #[trigger] s[i] == x
}

/// Strictly ascending order.
pub open spec fn rising(s: Seq<usize>) -> bool {
    forall|i: int, j: int| 0 <= i < j < s.len() ==> s[i] < s[j]
}

/// Whether the `k` integers from `a` on are a maximal run of consecutive
/// integers among the items of `s`: all of them are items of `s`, but
/// neither the integer before them nor the one behind them is.
pub open spec fn maximal_run(s: Seq<usize>, a: int, k: int) -> bool {
    &&& k >= 1
    &&& forall|j: int| 0 <= j < k ==> holds(s, #[trigger] (a + j))
    &&& !holds(s, a - 1)
    &&& !holds(s, a + k)
}

/// Whether `x` is the middle of the maximal run of `k` integers from `a`
/// on; the middle of a run of even length is the upper of the two.
pub open spec fn middle_of_run(s: Seq<usize>, x: int, a: int, k: int) -> bool {
    maximal_run(s, a, k) && x == a + k / 2
}

/// Whether `x` is the middle of a maximal run of consecutive integers among
/// the items of `s`.
pub open spec fn is_middle(s: Seq<usize>, x: int) -> bool {
    exists|a: int, k: int| #[trigger] middle_of_run(s, x, a, k)
}

/// Whether a run begins at position `p` of `s`: the item there is not the
/// successor of the item before it.
pub open spec fn run_starts(s: Seq<usize>, p: int) -> bool {
    0 <= p < s.len() && (p == 0 || s[p] != s[p - 1] + 1)
}

/// Whether `x` is the middle of the run that begins at position `p`, which
/// is not before `start`.
pub open spec fn middle_at(s: Seq<usize>, start: int, p: int, x: int) -> bool {
    start <= p && run_starts(s, p) && x == s[p] + (run_end(s, p) - p) / 2
}

/// The law of `compress`, for a list of distinct indices: the result is in
/// strictly ascending order, and it holds exactly the middle of each
/// maximal run of consecutive integers among the indices. So a maximal run
/// has exactly one of its integers in the result, its middle, and indices
/// without neighbours come back in ascending order and otherwise as they
/// are.
pub proof fn lemma_compress_law(s: Seq<usize>)
    requires
        s.no_duplicates(),
    ensures
        rising(compressed(s)),
        forall|x: int| #[trigger] holds(compressed(s), x) <==> is_middle(s, x),
        forall|a: int, k: int, x: int|
            #[trigger] maximal_run(s, a, k) && a <= x < a + k && #[trigger] holds(compressed(s), x)
                ==> x == a + k / 2,
{
    let t = sorted(s);
    lemma_sorted_rises(s);
    lemma_middles(t, 0);
    assert forall|x: int| #[trigger] holds(compressed(s), x) implies is_middle(s, x) by {
        let p = choose|p: int| middle_at(t, 0, p, x);
        lemma_block_is_run(t, p);
        lemma_same_runs(s, t, t[p] as int, run_end(t, p) - p);
        assert(middle_of_run(s, x, t[p] as int, run_end(t, p) - p));
    }
    assert forall|x: int| is_middle(s, x) implies #[trigger] holds(compressed(s), x) by {
        let (a, k) = choose|a: int, k: int| #[trigger] middle_of_run(s, x, a, k);
        lemma_same_runs(s, t, a, k);
        lemma_run_is_block(t, a, k);
        let p = choose|p: int| run_starts(t, p) && t[p] == a && run_end(t, p) - p == k;
        assert(middle_at(t, 0, p, x));
    }
    assert forall|a: int, k: int, x: int|
        #[trigger] maximal_run(s, a, k) && a <= x < a + k && #[trigger] holds(
            compressed(s),
            x,
        ) implies x == a + k / 2 by {
        let (b, n) = choose|b: int, n: int| #[trigger] middle_of_run(s, x, b, n);
        lemma_one_run(s, a, k, b, n, x);
    }
}

/// An integer lies in one maximal run only.
proof fn lemma_one_run(s: Seq<usize>, a: int, k: int, b: int, n: int, x: int)
    requires
        maximal_run(s, a, k),
        maximal_run(s, b, n),
        a <= x < a + k,
        b <= x < b + n,
    ensures
        a == b,
        k == n,
{
    if b < a {
        assert(holds(s, b + (a - 1 - b)));
    }
    if a < b {
        assert(holds(s, a + (b - 1 - a)));
    }
    if k < n {
        assert(holds(s, b + k));
    }
    if n < k {
        assert(holds(s, a + n));
    }
}

/// Distinct items in ascending order are in strictly ascending order, and
/// putting a list in order keeps its items.
proof fn lemma_sorted_rises(s: Seq<usize>)
    requires
        s.no_duplicates(),
    ensures
        rising(sorted(s)),
        forall|x: int| holds(s, x) <==> holds(sorted(s), x),
{
    let t = sorted(s);
    assert(total_ordering(at_most()));
    s.lemma_sort_by_ensures(at_most());
    s.to_multiset_ensures();
    t.to_multiset_ensures();
    s.lemma_multiset_has_no_duplicates();
    assert(t.to_multiset() == s.to_multiset());
    t.lemma_multiset_has_no_duplicates_conv();
    assert forall|i: int, j: int| 0 <= i < j < t.len() implies t[i] < t[j] by {
        assert(at_most()(t[i], t[j]));
        assert(t[i] != t[j]);
    }
    assert forall|x: int| holds(s, x) implies holds(t, x) by {
        let i = choose|i: int| 0 <= i < s.len() && #[trigger] s[i] == x;
        assert(s.contains(s[i]));
        assert(s.to_multiset().count(s[i]) > 0);
        assert(t.to_multiset().count(s[i]) > 0);
        assert(t.contains(s[i]));
        let j = choose|j: int| 0 <= j < t.len() && t[j] == s[i];
        assert(t[j] == x);
    }
    assert forall|x: int| holds(t, x) implies holds(s, x) by {
        let i = choose|i: int| 0 <= i < t.len() && #[trigger] t[i] == x;
        assert(t.contains(t[i]));
        assert(s.contains(t[i]));
        let j = choose|j: int| 0 <= j < s.len() && s[j] == t[i];
        assert(s[j] == x);
    }
}

/// Lists with the same items have the same maximal runs.
proof fn lemma_same_runs(s: Seq<usize>, t: Seq<usize>, a: int, k: int)
    requires
        forall|x: int| holds(s, x) <==> holds(t, x),
    ensures
        maximal_run(s, a, k) <==> maximal_run(t, a, k),
{
    if maximal_run(s, a, k) {
        assert forall|j: int| 0 <= j < k implies holds(t, #[trigger] (a + j)) by {
            assert(holds(s, a + j));
        }
    }
    if maximal_run(t, a, k) {
        assert forall|j: int| 0 <= j < k implies holds(s, #[trigger] (a + j)) by {
            assert(holds(t, a + j));
        }
    }
}

/// In strictly ascending order, the run that begins at a position is a
/// maximal run of consecutive integers among the items.
proof fn lemma_block_is_run(t: Seq<usize>, p: int)
    requires
        rising(t),
        run_starts(t, p),
    ensures
        maximal_run(t, t[p] as int, run_end(t, p) - p),
{
    let e = run_end(t, p);
    let a = t[p] as int;
    lemma_run_end(t, p);
    assert forall|j: int| 0 <= j < e - p implies holds(t, #[trigger] (a + j)) by {
        assert(t[p + j] == a + j);
    }
    if holds(t, a - 1) {
        let i = choose|i: int| 0 <= i < t.len() && #[trigger] t[i] == a - 1;
        if i >= p {
            if i > p {
                assert(t[p] < t[i]);
            }
        } else {
            if i < p - 1 {
                assert(t[i] < t[p - 1]);
            }
            assert(t[p - 1] < t[p]);
        }
        assert(false);
    }
    if holds(t, a + (e - p)) {
        let i = choose|i: int| 0 <= i < t.len() && #[trigger] t[i] == a + (e - p);
        assert(t[e - 1] == a + (e - 1 - p));
        if i < e {
            if i < e - 1 {
                assert(t[i] < t[e - 1]);
            }
        } else {
            if i > e {
                assert(t[e] < t[i]);
            }
            assert(t[e - 1] < t[e]);
        }
        assert(false);
    }
}

/// In strictly ascending order, the integers of a maximal run stand side
/// by side from the position of the first.
proof fn lemma_run_positions(t: Seq<usize>, p: int, a: int, k: int, j: int)
    requires
        rising(t),
        maximal_run(t, a, k),
        0 <= p < t.len(),
        t[p] == a,
        0 <= j < k,
    ensures
        p + j < t.len(),
        t[p + j] == a + j,
    decreases j,
{
    if j > 0 {
        lemma_run_positions(t, p, a, k, j - 1);
        assert(holds(t, a + j));
        let q = choose|q: int| 0 <= q < t.len() && #[trigger] t[q] == a + j;
        if q <= p + j - 1 {
            if q < p + j - 1 {
                assert(t[q] < t[p + j - 1]);
            }
            assert(false);
        }
        if q > p + j {
            assert(t[p + j] < t[q]);
        }
        assert(t[p + j - 1] < t[p + j]);
    }
}

/// A run of items that count up by one and is not continued ends where it
/// is not continued.
proof fn lemma_run_end_is(t: Seq<usize>, p: int, e: int)
    requires
        0 <= p < e <= t.len(),
        forall|i: int| p <= i < e - 1 ==> #[trigger] t[i + 1] == t[i] + 1,
        e == t.len() || t[e] != t[e - 1] + 1,
    ensures
        run_end(t, p) == e,
    decreases e - p,
{
    if p + 1 < e {
        assert(t[p + 1] == t[p] + 1);
        lemma_run_end_is(t, p + 1, e);
    }
}

/// In strictly ascending order, a maximal run of consecutive integers among
/// the items is the run that begins at the position of its first integer.
proof fn lemma_run_is_block(t: Seq<usize>, a: int, k: int)
    requires
        rising(t),
        maximal_run(t, a, k),
    ensures
        exists|p: int| run_starts(t, p) && t[p] == a && run_end(t, p) - p == k,
{
    assert(holds(t, a + 0));
    let p = choose|p: int| 0 <= p < t.len() && #[trigger] t[p] == a;
    if p > 0 && t[p] == t[p - 1] + 1 {
        assert(t[p - 1] == a - 1);
        assert(holds(t, a - 1));
    }
    lemma_run_positions(t, p, a, k, k - 1);
    let e = p + k;
    assert forall|i: int| p <= i < e - 1 implies #[trigger] t[i + 1] == t[i] + 1 by {
        lemma_run_positions(t, p, a, k, i - p);
        lemma_run_positions(t, p, a, k, i + 1 - p);
    }
    if e < t.len() && t[e] == t[e - 1] + 1 {
        assert(t[e] == a + k);
        assert(holds(t, a + k));
    }
    lemma_run_end_is(t, p, e);
    assert(run_starts(t, p) && t[p] == a && run_end(t, p) - p == k);
}

/// In strictly ascending order, the middles from the beginning of a run on
/// are in strictly ascending order, none is less than the first item of
/// that run, and they are the middles of the runs that begin there or
/// later.
proof fn lemma_middles(t: Seq<usize>, start: int)
    requires
        rising(t),
        0 <= start <= t.len(),
        start < t.len() ==> run_starts(t, start),
    ensures
        rising(run_middles(t, start)),
        forall|i: int|
            0 <= i < run_middles(t, start).len() ==> t[start] <= #[trigger] run_middles(t, start)[i],
        forall|x: int|
            #[trigger] holds(run_middles(t, start), x) <==> exists|p: int| middle_at(t, start, p, x),
    decreases t.len() - start,
{
    let m = run_middles(t, start);
    if start < t.len() {
        let e = run_end(t, start);
        lemma_run_end(t, start);
        lemma_middles(t, e);
        let rest = run_middles(t, e);
        let first = t[start + (e - start) / 2];
        assert(m =~= seq![first] + rest);
        assert(first == t[start] + (e - start) / 2);
        assert(t[e - 1] == t[start] + (e - 1 - start));
        assert forall|i: int| 0 <= i < m.len() implies t[start] <= #[trigger] m[i] by {
            if i > 0 {
                assert(m[i] == rest[i - 1]);
                assert(t[start] < t[e]);
            }
        }
        assert forall|i: int, j: int| 0 <= i < j < m.len() implies m[i] < m[j] by {
            assert(m[j] == rest[j - 1]);
            if i == 0 {
                assert(t[e - 1] < t[e]);
            } else {
                assert(m[i] == rest[i - 1]);
            }
        }
        assert forall|x: int| #[trigger] holds(m, x) implies exists|p: int|
            middle_at(t, start, p, x) by {
            let i = choose|i: int| 0 <= i < m.len() && #[trigger] m[i] == x;
            if i == 0 {
                assert(middle_at(t, start, start, x));
            } else {
                assert(rest[i - 1] == x);
                assert(holds(rest, x));
                let p = choose|p: int| middle_at(t, e, p, x);
                assert(middle_at(t, start, p, x));
            }
        }
        assert forall|x: int| (exists|p: int| middle_at(t, start, p, x)) implies #[trigger] holds(
            m,
            x,
        ) by {
            let p = choose|p: int| middle_at(t, start, p, x);
            if p == start {
                assert(m[0] == x);
            } else {
                if p < e {
                    assert(t[p] == t[start] + (p - start));
                    assert(t[p - 1] == t[start] + (p - 1 - start));
                }
                assert(middle_at(t, e, p, x));
                assert(holds(rest, x));
                let i = choose|i: int| 0 <= i < rest.len() && #[trigger] rest[i] == x;
                assert(m[i + 1] == x);
            }
        }
    } else {
        assert(m =~= Seq::<usize>::empty());
    }
}

} // verus!
