//! What is reported of a route: its path, its cost, the state at its end
//! and a summary of each state variable.

use vstd::prelude::*;
use crate::cost::{Cost, TraversalCost};
use crate::network::EdgeRef;
use crate::search::edge_traversal::{EdgeTraversal, EdgeTraversalView};
use crate::state::StateVariable;
use crate::summary::{has_variable, route_view, summary, SummaryOp};

verus! {

/// Why a route could not be reported.
#[derive(Debug)]
pub enum RouteOutputError {
    /// The output format could not render the path.
    OutputGenerationFailed(String),
    /// A route without edges has no state at its end.
    EmptyRoute,
    /// The state at the end of the route could not be serialized.
    StateSerialization(String),
    /// The cost model could not be serialized.
    CostSerialization(String),
    /// A summary value could not be serialized.
    StateVariableSerialization(String),
}

/// One position of the state vector: its name, its unit, and whether it
/// accumulates over the trip.
#[derive(Debug)]
pub struct StateFeature {
    pub name: String,
    pub unit: String,
    pub accumulator: bool,
}

/// The summary of one state variable.
#[derive(Debug)]
pub struct SummaryEntry {
    pub name: String,
    pub value: StateVariable,
    pub unit: String,
    pub op: SummaryOp,
}

/// The report of a route.
#[derive(Debug)]
pub struct RouteOutput {
    /// The edges of the route, in order.
    pub path: Vec<EdgeRef>,
    /// The state after the last edge; none for a route without edges.
    pub final_state: Option<Vec<StateVariable>>,
    /// The costs of the edges, added up; none for a route without edges.
    pub cost: Option<TraversalCost>,
    /// One entry for each position of the state vector; none for a route
    /// without edges.
    pub traversal_summary: Vec<SummaryEntry>,
}

/// The operation that `ops` names for `name`: that of the first entry of
/// that name.
pub open spec fn named_op(ops: Seq<(String, SummaryOp)>, name: Seq<char>) -> Option<SummaryOp>
    decreases ops.len(),
{
    if ops.len() == 0 {
        None
    } else if ops[0].0@ == name {
        Some(ops[0].1)
    } else {
        named_op(ops.drop_first(), name)
    }
}

/// The operation that a state variable is summarized with: what the caller
/// asks for; else the default of its name (see [`default_op`]); else `Last`
/// for an accumulator and `Sum` for any other.
pub open spec fn chosen_op(
    requested: Seq<(String, SummaryOp)>,
    name: Seq<char>,
    accumulator: bool,
) -> SummaryOp {
    match named_op(requested, name) {
        Some(op) => op,
        None => match default_op(name) {
            Some(op) => op,
            None => if accumulator {
                SummaryOp::Last
            } else {
                SummaryOp::Sum
            },
        },
    }
}

/// The sum of two costs, held at the greatest representable cost.
pub open spec fn add_costs(a: Cost, b: Cost) -> Cost {
    a.saturating_sum(b)
}

/// The costs of the first `n` traversals, added up.
pub open spec fn cost_to(route: Seq<EdgeTraversalView>, n: nat) -> TraversalCost
    decreases n,
{
    if n == 0 {
        TraversalCost { objective_cost: Cost(0), total_cost: Cost(0) }
    } else {
        let before = cost_to(route, (n - 1) as nat);
        TraversalCost {
            objective_cost: add_costs(before.objective_cost, route[n - 1].cost.objective_cost),
            total_cost: add_costs(before.total_cost, route[n - 1].cost.total_cost),
        }
    }
}

/// Whether every edge of the route carries a state vector of at least
/// `width` positions.
pub open spec fn states_cover(route: Seq<EdgeTraversalView>, width: nat) -> bool {
    forall|k: int| 0 <= k < route.len() ==> (#[trigger] route[k]).result_state.len() >= width
}

/// Finds the operation that `ops` names for `name`.
pub fn lookup_op(ops: &Vec<(String, SummaryOp)>, name: &String) -> (r: Option<SummaryOp>)
    ensures
        r == named_op(ops@, name@),
{
    let mut i: usize = 0;
    assert(ops@.skip(0) =~= ops@);
    while i < ops.len()
        invariant
            i <= ops.len(),
            named_op(ops@, name@) == named_op(ops@.skip(i as int), name@),
        decreases ops.len() - i,
    {
        assert(ops@.skip(i as int)[0] == ops@[i as int]);
        assert(ops@.skip(i as int).drop_first() =~= ops@.skip(i + 1));
        if ops[i].0 == *name {
            return Some(ops[i].1);
        }
        i += 1;
    }
    assert(ops@.skip(i as int).len() == 0);
    None
}

/// Whether `out` reports the route, with the summaries chosen from
/// `requested` and then from the defaults (see [`chosen_op`]).
pub open spec fn reports(
    out: RouteOutput,
    route: Seq<EdgeTraversal>,
    state_model: Seq<StateFeature>,
    requested: Seq<(String, SummaryOp)>,
) -> bool {
    &&& out.path@.len() == route.len()
    &&& forall|k: int|
        0 <= k < route.len() ==> #[trigger] out.path@[k] == (
            route[k].edge_list_id,
            route[k].edge_id,
        )
    &&& route.len() == 0 ==> out.final_state is None && out.cost is None
        && out.traversal_summary@.len() == 0
    &&& route.len() > 0 ==> {
        &&& out.final_state matches Some(state) && state@ == route[route.len() - 1].result_state@
        &&& out.cost == Some(cost_to(route_view(route), route.len()))
        &&& out.traversal_summary@.len() == state_model.len()
        &&& forall|i: int|
            0 <= i < state_model.len() ==> {
                let entry = #[trigger] out.traversal_summary@[i];
                &&& entry.name@ == state_model[i].name@
                &&& entry.unit@ == state_model[i].unit@
                &&& entry.op == chosen_op(
                    requested,
                    state_model[i].name@,
                    state_model[i].accumulator,
                )
                &&& entry.value.0 == summary(entry.op, route_view(route), i)
            }
    }
}

/// Reports a route, summarizing each state variable under the operation
/// that `summary_ops` names for it; else the default for its name: what is
/// measured on each edge is summed, rates such as a speed are averaged, and
/// what accumulates over the trip is read off at its end (see
/// [`default_op`]); else `Last` for an accumulator and `Sum` for any other.
///
/// A route without edges gives an empty report. Otherwise the report holds
/// the edges in order, the state after the last edge, the costs of the
/// traversals added up, and one summary for each position of the state
/// vector, with its value, its unit and its operation.
///
/// The cost of each traversal is taken to be the cost of its edge alone, as
/// [`crate::search::search_instance::SearchInstance::compute_path`] gives
/// it. A route that comes from a search tree holds at each edge the cost of
/// the whole way up to it, and the last of them is its cost.
pub fn generate_route_output(
    route: &Vec<EdgeTraversal>,
    state_model: &Vec<StateFeature>,
    summary_ops: &Vec<(String, SummaryOp)>,
) -> (r: Result<RouteOutput, RouteOutputError>)
    requires
        states_cover(route_view(route@), state_model@.len()),
    ensures
        r matches Ok(out) && reports(out, route@, state_model@, summary_ops@),
{
    let defaults = SummaryOp::default_summary_ops();
    proof {
        lemma_default_ops(defaults@);
    }
    let ghost views = route_view(route@);
    let count: usize = route.len();
    let mut path: Vec<EdgeRef> = Vec::new();
    let mut objective: Cost = Cost::zero();
    let mut total: Cost = Cost::zero();
    let mut k: usize = 0;
    while k < count
        invariant
            k <= count,
            count == route.len(),
            views == route_view(route@),
            path@.len() == k,
            forall|j: int|
                0 <= j < k ==> #[trigger] path@[j] == (route@[j].edge_list_id, route@[j].edge_id),
            cost_to(views, k as nat) == (TraversalCost {
                objective_cost: objective,
                total_cost: total,
            }),
        decreases count - k,
    {
        assert(views[k as int] == route[k as int]@);
        path.push((route[k].edge_list_id, route[k].edge_id));
        objective = objective.saturating_add(route[k].cost.objective_cost);
        total = total.saturating_add(route[k].cost.total_cost);
        k += 1;
    }
    if count == 0 {
        return Ok(
            RouteOutput { path, final_state: None, cost: None, traversal_summary: Vec::new() },
        );
    }
    let final_state = route[count - 1].result_state.clone();
    assert(final_state@ =~= route@[count - 1].result_state@);
    let mut traversal_summary: Vec<SummaryEntry> = Vec::new();
    let mut i: usize = 0;
    while i < state_model.len()
        invariant
            i <= state_model.len(),
            views == route_view(route@),
            states_cover(views, state_model@.len()),
            forall|name: Seq<char>| named_op(defaults@, name) == #[trigger] default_op(name),
            traversal_summary@.len() == i,
            forall|j: int|
                0 <= j < i ==> {
                    let entry = #[trigger] traversal_summary@[j];
                    &&& entry.name@ == state_model@[j].name@
                    &&& entry.unit@ == state_model@[j].unit@
                    &&& entry.op == chosen_op(
                        summary_ops@,
                        state_model@[j].name@,
                        state_model@[j].accumulator,
                    )
                    &&& entry.value.0 == summary(entry.op, views, j)
                },
        decreases state_model.len() - i,
    {
        let feature = &state_model[i];
        let op: SummaryOp = match lookup_op(summary_ops, &feature.name) {
            Some(op) => op,
            None => match lookup_op(&defaults, &feature.name) {
                Some(op) => op,
                None => if feature.accumulator {
                    SummaryOp::Last
                } else {
                    SummaryOp::Sum
                },
            },
        };
        assert(has_variable(views, i as int));
        let value = op.summarize_route(route, i);
        let ghost before = traversal_summary@;
        traversal_summary.push(
            SummaryEntry { name: feature.name.clone(), value, unit: feature.unit.clone(), op },
        );
        assert(forall|j: int| 0 <= j < i ==> traversal_summary@[j] == before[j]);
        i += 1;
    }
    Ok(
        RouteOutput {
            path,
            final_state: Some(final_state),
            cost: Some(TraversalCost { objective_cost: objective, total_cost: total }),
            traversal_summary,
        },
    )
}

impl RouteOutput {
    /// Reports a route as [`generate_route_output`] does: each state
    /// variable is summarized under the operation that `summary_ops` names
    /// for it; else the default for its name (see
    /// [`SummaryOp::default_summary_ops`]); else `Last` for an accumulator
    /// and `Sum` for any other. The cost of each traversal is taken to be
    /// the cost of its edge alone.
    pub fn generate(
        route: &Vec<EdgeTraversal>,
        state_model: &Vec<StateFeature>,
        summary_ops: &Vec<(String, SummaryOp)>,
    ) -> (r: Result<RouteOutput, RouteOutputError>)
        requires
            states_cover(route_view(route@), state_model@.len()),
        ensures
            r matches Ok(out) && reports(out, route@, state_model@, summary_ops@),
    {
        generate_route_output(route, state_model, summary_ops)
    }
}

/// The default operation of a well-known name: what is measured on each
/// edge is summed, rates are averaged, and what accumulates over the trip
/// is read off at its end. Other names have none.
pub open spec fn default_op(name: Seq<char>) -> Option<SummaryOp> {
    if name == "edge_distance"@ {
        Some(SummaryOp::Sum)
    } else if name == "edge_speed"@ {
        Some(SummaryOp::Avg)
    } else if name == "edge_time"@ {
        Some(SummaryOp::Sum)
    } else if name == "edge_grade"@ {
        Some(SummaryOp::Avg)
    } else if name == "edge_turn_delay"@ {
        Some(SummaryOp::Sum)
    } else if name == "ambient_temperature"@ {
        Some(SummaryOp::Avg)
    } else if name == "trip_distance"@ {
        Some(SummaryOp::Last)
    } else if name == "trip_time"@ {
        Some(SummaryOp::Last)
    } else if name == "trip_elevation_gain"@ {
        Some(SummaryOp::Last)
    } else if name == "trip_elevation_loss"@ {
        Some(SummaryOp::Last)
    } else {
        None
    }
}

/// A variable that is called `edge_speed` and has no operation asked for
/// it is averaged, whether it accumulates or not; what the caller asks for
/// goes before every default.
pub proof fn lemma_defaults_by_name(
    requested: Seq<(String, SummaryOp)>,
    name: Seq<char>,
    accumulator: bool,
)
    ensures
        named_op(requested, name) matches Some(op) ==> chosen_op(requested, name, accumulator) == op,
        named_op(requested, name) is None && name == "edge_speed"@ ==> chosen_op(
            requested,
            name,
            accumulator,
        ) == SummaryOp::Avg,
        named_op(requested, name) is None && name == "edge_distance"@ ==> chosen_op(
            requested,
            name,
            accumulator,
        ) == SummaryOp::Sum,
        named_op(requested, name) is None && name == "trip_distance"@ ==> chosen_op(
            requested,
            name,
            accumulator,
        ) == SummaryOp::Last,
        named_op(requested, name) is None && default_op(name) is None ==> chosen_op(
            requested,
            name,
            accumulator,
        ) == if accumulator {
            SummaryOp::Last
        } else {
            SummaryOp::Sum
        },
{
    reveal_strlit("edge_distance");
    reveal_strlit("edge_speed");
    reveal_strlit("edge_time");
    reveal_strlit("edge_grade");
    reveal_strlit("edge_turn_delay");
    reveal_strlit("ambient_temperature");
    reveal_strlit("trip_distance");
    if name == "edge_speed"@ {
        assert(name.len() == 10);
    }
    if name == "trip_distance"@ {
        assert(name[0] == 't');
        assert("edge_distance"@[0] == 'e');
        assert(name.len() == 13);
    }
}

/// The list of default summaries names the default operations.
proof fn lemma_default_ops(ops: Seq<(String, SummaryOp)>)
    requires
        ops.len() == 10,
        ops[0].0@ == "edge_distance"@ && ops[0].1 == SummaryOp::Sum,
        ops[1].0@ == "edge_speed"@ && ops[1].1 == SummaryOp::Avg,
        ops[2].0@ == "edge_time"@ && ops[2].1 == SummaryOp::Sum,
        ops[3].0@ == "edge_grade"@ && ops[3].1 == SummaryOp::Avg,
        ops[4].0@ == "edge_turn_delay"@ && ops[4].1 == SummaryOp::Sum,
        ops[5].0@ == "ambient_temperature"@ && ops[5].1 == SummaryOp::Avg,
        ops[6].0@ == "trip_distance"@ && ops[6].1 == SummaryOp::Last,
        ops[7].0@ == "trip_time"@ && ops[7].1 == SummaryOp::Last,
        ops[8].0@ == "trip_elevation_gain"@ && ops[8].1 == SummaryOp::Last,
        ops[9].0@ == "trip_elevation_loss"@ && ops[9].1 == SummaryOp::Last,
    ensures
        forall|name: Seq<char>| named_op(ops, name) == #[trigger] default_op(name),
{
    assert forall|name: Seq<char>| named_op(ops, name) == #[trigger] default_op(name) by {
        lemma_named_op_from(ops, name, 0);
        lemma_named_op_from(ops, name, 1);
        lemma_named_op_from(ops, name, 2);
        lemma_named_op_from(ops, name, 3);
        lemma_named_op_from(ops, name, 4);
        lemma_named_op_from(ops, name, 5);
        lemma_named_op_from(ops, name, 6);
        lemma_named_op_from(ops, name, 7);
        lemma_named_op_from(ops, name, 8);
        lemma_named_op_from(ops, name, 9);
        assert(ops.skip(0) =~= ops);
        assert(named_op(ops.skip(10), name) is None);
    }
}

/// What a list names for a name, entry by entry.
proof fn lemma_named_op_from(ops: Seq<(String, SummaryOp)>, name: Seq<char>, i: int)
    requires
        0 <= i < ops.len(),
    ensures
        named_op(ops.skip(i), name) == if ops[i].0@ == name {
            Some(ops[i].1)
        } else {
            named_op(ops.skip(i + 1), name)
        },
{
    assert(ops.skip(i)[0] == ops[i]);
    assert(ops.skip(i).drop_first() =~= ops.skip(i + 1));
}

} // verus!
