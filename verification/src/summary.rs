//! Summaries of a route: one value for each state variable.

use vstd::prelude::*;
use crate::search::edge_traversal::{EdgeTraversal, EdgeTraversalView};
use crate::state::StateVariable;

verus! {

/// How the values that a state variable takes along a route are summarized.
#[derive(Clone, Copy, Debug, PartialEq, Eq, Structural, Hash)]
pub enum SummaryOp {
    Sum,
    Avg,
    Last,
    First,
    Min,
    Max,
}

/// A number held within the range of a state variable.
pub open spec fn clamp(v: int) -> i64 {
    if v > i64::MAX {
        i64::MAX
    } else if v < i64::MIN {
        i64::MIN
    } else {
        v as i64
    }
}

/// The value of state variable `index` after edge `k` of the route.
pub open spec fn value_at(route: Seq<EdgeTraversalView>, k: int, index: int) -> i64 {
    route[k].result_state[index].0
}

/// The sum of state variable `index` over the first `n` edges, each step
/// held within the range of a state variable.
pub open spec fn sum_to(route: Seq<EdgeTraversalView>, index: int, n: nat) -> i64
    decreases n,
{
    if n == 0 {
        0
    } else {
        clamp(sum_to(route, index, (n - 1) as nat) + value_at(route, n - 1, index))
    }
}

/// The least value of state variable `index` over the first `n` edges; of
/// no edges, zero.
pub open spec fn min_to(route: Seq<EdgeTraversalView>, index: int, n: nat) -> i64
    decreases n,
{
    if n == 0 {
        0
    } else if n == 1 {
        value_at(route, 0, index)
    } else {
        let before = min_to(route, index, (n - 1) as nat);
        if value_at(route, n - 1, index) < before {
            value_at(route, n - 1, index)
        } else {
            before
        }
    }
}

/// The greatest value of state variable `index` over the first `n` edges;
/// of no edges, zero.
pub open spec fn max_to(route: Seq<EdgeTraversalView>, index: int, n: nat) -> i64
    decreases n,
{
    if n == 0 {
        0
    } else if n == 1 {
        value_at(route, 0, index)
    } else {
        let before = max_to(route, index, (n - 1) as nat);
        if value_at(route, n - 1, index) > before {
            value_at(route, n - 1, index)
        } else {
            before
        }
    }
}

/// The quotient of `a` by a positive `b`, rounded towards zero.
pub open spec fn quotient(a: int, b: int) -> int {
    if a >= 0 {
        a / b
    } else {
        -((-a) / b)
    }
}

/// The summary of state variable `index` over a route under `op`. An empty
/// route summarizes to zero under every operation.
pub open spec fn summary(op: SummaryOp, route: Seq<EdgeTraversalView>, index: int) -> i64 {
    if route.len() == 0 {
        0
    } else {
        match op {
            SummaryOp::Sum => sum_to(route, index, route.len()),
            SummaryOp::Avg => quotient(
                sum_to(route, index, route.len()) as int,
                route.len() as int,
            ) as i64,
            SummaryOp::Last => value_at(route, route.len() - 1, index),
            SummaryOp::First => value_at(route, 0, index),
            SummaryOp::Min => min_to(route, index, route.len()),
            SummaryOp::Max => max_to(route, index, route.len()),
        }
    }
}

/// Whether every edge of the route carries a state variable `index`.
pub open spec fn has_variable(route: Seq<EdgeTraversalView>, index: int) -> bool {
    forall|k: int| 0 <= k < route.len() ==> 0 <= index < (#[trigger] route[k]).result_state.len()
}

/// The views of a route.
pub open spec fn route_view(route: Seq<EdgeTraversal>) -> Seq<EdgeTraversalView> {
    route.map_values(|e: EdgeTraversal| e@)
}

/// The least value is one of the values and no value is below it.
pub proof fn lemma_min_is_least(route: Seq<EdgeTraversalView>, index: int, n: nat)
    requires
        0 < n <= route.len(),
    ensures
        forall|k: int| 0 <= k < n ==> min_to(route, index, n) <= #[trigger] value_at(route, k, index),
        exists|k: int| 0 <= k < n && min_to(route, index, n) == #[trigger] value_at(route, k, index),
    decreases n,
{
    if n > 1 {
        lemma_min_is_least(route, index, (n - 1) as nat);
        let w = choose|k: int|
            0 <= k < n - 1 && min_to(route, index, (n - 1) as nat) == #[trigger] value_at(
                route,
                k,
                index,
            );
        if value_at(route, n - 1, index) < min_to(route, index, (n - 1) as nat) {
            assert(min_to(route, index, n) == value_at(route, n - 1, index));
        } else {
            assert(min_to(route, index, n) == value_at(route, w, index));
        }
    } else {
        assert(min_to(route, index, n) == value_at(route, 0, index));
    }
}

/// The greatest value is one of the values and no value is above it.
pub proof fn lemma_max_is_greatest(route: Seq<EdgeTraversalView>, index: int, n: nat)
    requires
        0 < n <= route.len(),
    ensures
        forall|k: int| 0 <= k < n ==> max_to(route, index, n) >= #[trigger] value_at(route, k, index),
        exists|k: int| 0 <= k < n && max_to(route, index, n) == #[trigger] value_at(route, k, index),
    decreases n,
{
    if n > 1 {
        lemma_max_is_greatest(route, index, (n - 1) as nat);
        let w = choose|k: int|
            0 <= k < n - 1 && max_to(route, index, (n - 1) as nat) == #[trigger] value_at(
                route,
                k,
                index,
            );
        if value_at(route, n - 1, index) > max_to(route, index, (n - 1) as nat) {
            assert(max_to(route, index, n) == value_at(route, n - 1, index));
        } else {
            assert(max_to(route, index, n) == value_at(route, w, index));
        }
    } else {
        assert(max_to(route, index, n) == value_at(route, 0, index));
    }
}

impl SummaryOp {
    /// The operations that state variables of well-known names are
    /// summarized with unless the caller says otherwise: what is measured on
    /// each edge is summed, rates are averaged, and what accumulates over
    /// the trip is read off at its end.
    pub fn default_summary_ops() -> (ops: Vec<(String, SummaryOp)>)
        ensures
            ops@.len() == 10,
            ops@[0].0@ == "edge_distance"@ && ops@[0].1 == SummaryOp::Sum,
            ops@[1].0@ == "edge_speed"@ && ops@[1].1 == SummaryOp::Avg,
            ops@[2].0@ == "edge_time"@ && ops@[2].1 == SummaryOp::Sum,
            ops@[3].0@ == "edge_grade"@ && ops@[3].1 == SummaryOp::Avg,
            ops@[4].0@ == "edge_turn_delay"@ && ops@[4].1 == SummaryOp::Sum,
            ops@[5].0@ == "ambient_temperature"@ && ops@[5].1 == SummaryOp::Avg,
            ops@[6].0@ == "trip_distance"@ && ops@[6].1 == SummaryOp::Last,
            ops@[7].0@ == "trip_time"@ && ops@[7].1 == SummaryOp::Last,
            ops@[8].0@ == "trip_elevation_gain"@ && ops@[8].1 == SummaryOp::Last,
            ops@[9].0@ == "trip_elevation_loss"@ && ops@[9].1 == SummaryOp::Last,
    {
        let mut ops: Vec<(String, SummaryOp)> = Vec::new();
        ops.push(("edge_distance".to_string(), SummaryOp::Sum));
        ops.push(("edge_speed".to_string(), SummaryOp::Avg));
        ops.push(("edge_time".to_string(), SummaryOp::Sum));
        ops.push(("edge_grade".to_string(), SummaryOp::Avg));
        ops.push(("edge_turn_delay".to_string(), SummaryOp::Sum));
        ops.push(("ambient_temperature".to_string(), SummaryOp::Avg));
        ops.push(("trip_distance".to_string(), SummaryOp::Last));
        ops.push(("trip_time".to_string(), SummaryOp::Last));
        ops.push(("trip_elevation_gain".to_string(), SummaryOp::Last));
        ops.push(("trip_elevation_loss".to_string(), SummaryOp::Last));
        ops
    }

    /// Summarizes one state variable over a route.
    ///
    /// `Sum` adds the values, holding the sum within the representable
    /// range; `Avg` divides that sum by the number of edges, rounding
    /// towards zero; `Last` and `First` read the value after the last and
    /// the first edge; `Min` and `Max` take the least and the greatest. An
    /// empty route gives zero.
    pub fn summarize_route(&self, route: &Vec<EdgeTraversal>, state_variable_index: usize) -> (v:
        StateVariable)
        requires
            has_variable(route_view(route@), state_variable_index as int),
        ensures
            v.0 == summary(*self, route_view(route@), state_variable_index as int),
    {
        let count: usize = route.len();
        let ghost views = route_view(route@);
        let ghost index = state_variable_index as int;
        if count == 0 {
            return StateVariable(0);
        }
        match self {
            SummaryOp::Last => {
                assert(views[count - 1] == route[count - 1]@);
                route[count - 1].result_state[state_variable_index]
            },
            SummaryOp::First => {
                assert(views[0] == route[0]@);
                route[0].result_state[state_variable_index]
            },
            _ => {
                assert(views[0] == route[0]@);
                let first: i64 = route[0].result_state[state_variable_index].0;
                let mut sum: i64 = first;
                let mut least: i64 = first;
                let mut greatest: i64 = first;
                let mut k: usize = 1;
                assert(sum_to(views, index, 1) == clamp(sum_to(views, index, 0) + first));
                while k < count
                    invariant
                        1 <= k <= count,
                        count == route.len(),
                        views == route_view(route@),
                        index == state_variable_index as int,
                        has_variable(views, index),
                        sum == sum_to(views, index, k as nat),
                        least == min_to(views, index, k as nat),
                        greatest == max_to(views, index, k as nat),
                    decreases count - k,
                {
                    assert(views[k as int] == route[k as int]@);
                    let value: i64 = route[k].result_state[state_variable_index].0;
                    sum = add_clamped(sum, value);
                    if value < least {
                        least = value;
                    }
                    if value > greatest {
                        greatest = value;
                    }
                    k += 1;
                }
                match self {
                    SummaryOp::Sum => StateVariable(sum),
                    SummaryOp::Avg => StateVariable(average(sum, count)),
                    SummaryOp::Min => StateVariable(least),
                    _ => StateVariable(greatest),
                }
            },
        }
    }
}

/// The sum of two values, held within the representable range.
fn add_clamped(a: i64, b: i64) -> (v: i64)
    ensures
        v == clamp(a + b),
{
    let exact: i128 = (a as i128) + (b as i128);
    if exact > i64::MAX as i128 {
        i64::MAX
    } else if exact < i64::MIN as i128 {
        i64::MIN
    } else {
        exact as i64
    }
}

/// The quotient of a sum by a positive count, rounded towards zero.
fn average(sum: i64, count: usize) -> (v: i64)
    requires
        count > 0,
    ensures
        v == quotient(sum as int, count as int),
{
    if sum >= 0 {
        let q: u128 = (sum as u128) / (count as u128);
        assert(q <= sum) by (nonlinear_arith)
            requires
                q == (sum as int) / (count as int),
                sum >= 0,
                count > 0,
        ;
        q as i64
    } else {
        let positive: u128 = (-(sum as i128)) as u128;
        let q: u128 = positive / (count as u128);
        assert(q <= positive) by (nonlinear_arith)
            requires
                q == (positive as int) / (count as int),
                positive >= 0,
                count > 0,
        ;
        (-(q as i128)) as i64
    }
}

} // verus!
