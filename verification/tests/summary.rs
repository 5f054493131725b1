use routee_compass_core::constraint::{
    RestrictionRecord, RoadClassBuilder, SpatialIndexType, TurnRestrictionBuilder,
    TurnRestrictionFrontierService,
};
use routee_compass_core::cost::{Cost, TraversalCost};
use routee_compass_core::network::{Edge, EdgeId, EdgeListId};
use routee_compass_core::route_output::{
    generate_route_output, lookup_op, RouteOutput, StateFeature,
};
use routee_compass_core::search::edge_traversal::EdgeTraversal;
use routee_compass_core::search::models::ConstraintModel;
use routee_compass_core::state::StateVariable;
use routee_compass_core::summary::SummaryOp;
use routee_compass_core::traversal_plugin::{RouteShape, TraversalOutputFormat, TraversalPlugin};

fn edge(id: usize, cost: u64, state: Vec<i64>) -> EdgeTraversal {
    EdgeTraversal {
        edge_list_id: EdgeListId(0),
        edge_id: EdgeId(id),
        cost: TraversalCost {
            objective_cost: Cost::new(cost),
            total_cost: Cost::new(cost + 1),
        },
        result_state: state.into_iter().map(StateVariable).collect(),
    }
}

fn route() -> Vec<EdgeTraversal> {
    vec![
        edge(3, 10, vec![4, 100]),
        edge(1, 20, vec![-2, 250]),
        edge(4, 30, vec![9, 400]),
    ]
}

#[test]
fn summarize_route_by_each_operation() {
    let r = route();
    assert_eq!(SummaryOp::Sum.summarize_route(&r, 0), StateVariable(11));
    assert_eq!(SummaryOp::Avg.summarize_route(&r, 0), StateVariable(3));
    assert_eq!(SummaryOp::Last.summarize_route(&r, 0), StateVariable(9));
    assert_eq!(SummaryOp::First.summarize_route(&r, 0), StateVariable(4));
    assert_eq!(SummaryOp::Min.summarize_route(&r, 0), StateVariable(-2));
    assert_eq!(SummaryOp::Max.summarize_route(&r, 0), StateVariable(9));
    assert_eq!(SummaryOp::Sum.summarize_route(&r, 1), StateVariable(750));
    assert_eq!(SummaryOp::Avg.summarize_route(&r, 1), StateVariable(250));
}

#[test]
fn summarize_average_rounds_towards_zero() {
    let r = vec![edge(0, 1, vec![-3]), edge(1, 1, vec![-4])];
    assert_eq!(SummaryOp::Avg.summarize_route(&r, 0), StateVariable(-3));
    let r = vec![edge(0, 1, vec![3]), edge(1, 1, vec![4])];
    assert_eq!(SummaryOp::Avg.summarize_route(&r, 0), StateVariable(3));
}

#[test]
fn summarize_empty_route_is_zero() {
    let r: Vec<EdgeTraversal> = vec![];
    for op in [
        SummaryOp::Sum,
        SummaryOp::Avg,
        SummaryOp::Last,
        SummaryOp::First,
        SummaryOp::Min,
        SummaryOp::Max,
    ] {
        assert_eq!(op.summarize_route(&r, 0), StateVariable(0));
    }
}

#[test]
fn summarize_sum_is_held_within_range() {
    let r = vec![edge(0, 1, vec![i64::MAX]), edge(1, 1, vec![5])];
    assert_eq!(SummaryOp::Sum.summarize_route(&r, 0), StateVariable(i64::MAX));
    let r = vec![edge(0, 1, vec![i64::MIN]), edge(1, 1, vec![-5])];
    assert_eq!(SummaryOp::Sum.summarize_route(&r, 0), StateVariable(i64::MIN));
}

#[test]
fn default_summary_ops_by_name() {
    let ops = SummaryOp::default_summary_ops();
    assert_eq!(ops.len(), 10);
    let get = |name: &str| lookup_op(&ops, &name.to_string());
    assert_eq!(get("edge_distance"), Some(SummaryOp::Sum));
    assert_eq!(get("edge_speed"), Some(SummaryOp::Avg));
    assert_eq!(get("edge_time"), Some(SummaryOp::Sum));
    assert_eq!(get("edge_grade"), Some(SummaryOp::Avg));
    assert_eq!(get("edge_turn_delay"), Some(SummaryOp::Sum));
    assert_eq!(get("ambient_temperature"), Some(SummaryOp::Avg));
    assert_eq!(get("trip_distance"), Some(SummaryOp::Last));
    assert_eq!(get("trip_time"), Some(SummaryOp::Last));
    assert_eq!(get("trip_elevation_gain"), Some(SummaryOp::Last));
    assert_eq!(get("trip_elevation_loss"), Some(SummaryOp::Last));
    assert_eq!(get("something_else"), None);
}

fn feature(name: &str, unit: &str, accumulator: bool) -> StateFeature {
    StateFeature {
        name: name.to_string(),
        unit: unit.to_string(),
        accumulator,
    }
}

#[test]
fn route_output_of_empty_route_is_empty() {
    let model = vec![feature("trip_distance", "meters", true)];
    let out = RouteOutput::generate(&vec![], &model, &vec![]).unwrap();
    assert!(out.path.is_empty());
    assert!(out.final_state.is_none());
    assert!(out.cost.is_none());
    assert!(out.traversal_summary.is_empty());
}

#[test]
fn route_output_sums_costs_and_chooses_operations() {
    let model = vec![
        feature("edge_speed", "kph", false),
        feature("custom_total", "units", true),
    ];
    let requested = vec![("custom_total".to_string(), SummaryOp::Max)];
    let out = RouteOutput::generate(&route(), &model, &requested).unwrap();
    assert_eq!(
        out.path,
        vec![
            (EdgeListId(0), EdgeId(3)),
            (EdgeListId(0), EdgeId(1)),
            (EdgeListId(0), EdgeId(4))
        ]
    );
    assert_eq!(
        out.final_state,
        Some(vec![StateVariable(9), StateVariable(400)])
    );
    let cost = out.cost.unwrap();
    assert_eq!(cost.objective_cost, Cost::new(60));
    assert_eq!(cost.total_cost, Cost::new(63));
    assert_eq!(out.traversal_summary.len(), 2);
    // by default of the name: edge_speed is averaged
    assert_eq!(out.traversal_summary[0].name, "edge_speed");
    assert_eq!(out.traversal_summary[0].unit, "kph");
    assert_eq!(out.traversal_summary[0].op, SummaryOp::Avg);
    assert_eq!(out.traversal_summary[0].value, StateVariable(3));
    // as requested
    assert_eq!(out.traversal_summary[1].op, SummaryOp::Max);
    assert_eq!(out.traversal_summary[1].value, StateVariable(400));
}

#[test]
fn route_output_falls_back_on_accumulator_flag() {
    let model = vec![
        feature("custom_rate", "units", false),
        feature("custom_total", "units", true),
    ];
    let out = RouteOutput::generate(&route(), &model, &vec![]).unwrap();
    assert_eq!(out.traversal_summary[0].op, SummaryOp::Sum);
    assert_eq!(out.traversal_summary[0].value, StateVariable(11));
    assert_eq!(out.traversal_summary[1].op, SummaryOp::Last);
    assert_eq!(out.traversal_summary[1].value, StateVariable(400));
}

#[test]
fn generate_route_output_takes_the_defaults_by_name() {
    let model = vec![
        feature("edge_speed", "kph", false),
        feature("trip_distance", "miles", false),
        feature("edge_distance", "miles", true),
        feature("custom_rate", "units", false),
    ];
    let state = |a: i64, b: i64| vec![StateVariable(a), StateVariable(b), StateVariable(a), StateVariable(b)];
    let hop = |edge: usize, a: i64, b: i64| EdgeTraversal {
        edge_list_id: EdgeListId(0),
        edge_id: EdgeId(edge),
        cost: TraversalCost::default(),
        result_state: state(a, b),
    };
    let way = vec![hop(0, 2, 100), hop(1, 4, 250), hop(2, 5, 400)];
    let out = generate_route_output(&way, &model, &vec![]).unwrap();
    // a speed is averaged, though it does not accumulate
    assert_eq!(out.traversal_summary[0].name, "edge_speed");
    assert_eq!(out.traversal_summary[0].unit, "kph");
    assert_eq!(out.traversal_summary[0].op, SummaryOp::Avg);
    assert_eq!(out.traversal_summary[0].value, StateVariable(3));
    // what accumulates over the trip is read off at its end, by its name
    assert_eq!(out.traversal_summary[1].op, SummaryOp::Last);
    assert_eq!(out.traversal_summary[1].value, StateVariable(400));
    // a distance on each edge is summed, by its name
    assert_eq!(out.traversal_summary[2].op, SummaryOp::Sum);
    assert_eq!(out.traversal_summary[2].value, StateVariable(11));
    // a name without a default goes by what it is
    assert_eq!(out.traversal_summary[3].op, SummaryOp::Sum);
    assert_eq!(out.traversal_summary[3].value, StateVariable(750));
    // what is asked for goes before the default
    let asked = vec![("edge_speed".to_string(), SummaryOp::Max)];
    let out = generate_route_output(&way, &model, &asked).unwrap();
    assert_eq!(out.traversal_summary[0].op, SummaryOp::Max);
    assert_eq!(out.traversal_summary[0].value, StateVariable(5));
    // both functions report the same
    let other = RouteOutput::generate(&way, &model, &vec![]).unwrap();
    let ops: Vec<SummaryOp> = other.traversal_summary.iter().map(|e| e.op).collect();
    assert_eq!(ops, vec![SummaryOp::Avg, SummaryOp::Last, SummaryOp::Sum, SummaryOp::Sum]);
}

#[test]
fn traversal_plugin_merges_summary_ops() {
    let plugin = TraversalPlugin::new(
        Some(TraversalOutputFormat::Json),
        None,
        vec![
            ("a".to_string(), SummaryOp::Sum),
            ("b".to_string(), SummaryOp::Avg),
        ],
    )
    .unwrap();
    assert_eq!(plugin.route_key, "route");
    assert_eq!(plugin.tree_key, "tree");
    assert_eq!(plugin.route, Some(TraversalOutputFormat::Json));
    assert_eq!(plugin.tree, None);
    let merged = plugin.summary_ops_for(&vec![("b".to_string(), SummaryOp::Max)]);
    assert_eq!(lookup_op(&merged, &"a".to_string()), Some(SummaryOp::Sum));
    assert_eq!(lookup_op(&merged, &"b".to_string()), Some(SummaryOp::Max));
    assert_eq!(lookup_op(&merged, &"c".to_string()), None);
    assert_eq!(TraversalPlugin::route_shape(0), RouteShape::Null);
    assert_eq!(TraversalPlugin::route_shape(1), RouteShape::Single);
    assert_eq!(TraversalPlugin::route_shape(2), RouteShape::Many);
}

#[test]
fn turn_restrictions_gate_edges() {
    let service = TurnRestrictionFrontierService::new(vec![RestrictionRecord {
        prev_edge_id: EdgeId(1),
        next_edge_id: EdgeId(2),
    }]);
    assert!(service.is_restricted(EdgeId(1), EdgeId(2)));
    assert!(!service.is_restricted(EdgeId(2), EdgeId(1)));
    let into = Edge::new(0, 2, 5, 6);
    let state = vec![StateVariable::zero()];
    assert!(!service.valid_frontier(&into, Some((EdgeListId(0), EdgeId(1))), &state));
    assert!(service.valid_frontier(&into, Some((EdgeListId(0), EdgeId(3))), &state));
    assert!(service.valid_frontier(&into, None, &state));
}

#[test]
fn turn_restriction_builder_holds_each_turn_once() {
    let turn = |prev: usize, next: usize| RestrictionRecord {
        prev_edge_id: EdgeId(prev),
        next_edge_id: EdgeId(next),
    };
    let service =
        TurnRestrictionBuilder {}.build(&vec![turn(1, 2), turn(3, 4), turn(1, 2), turn(2, 1)]);
    assert_eq!(service.restricted_edge_pairs.len(), 3);
    let key = TurnRestrictionFrontierService::key_of(EdgeId(1), EdgeId(2));
    assert_eq!(key, (1u128 << 64) + 2);
    assert!(service.restricted_edge_pairs.contains(&key));
    assert!(service.is_restricted(EdgeId(1), EdgeId(2)));
    assert!(service.is_restricted(EdgeId(2), EdgeId(1)));
    // edge ids at the end of their range keep their keys apart
    let far = TurnRestrictionFrontierService::new(vec![turn(usize::MAX, 0)]);
    assert!(far.is_restricted(EdgeId(usize::MAX), EdgeId(0)));
    assert!(!far.is_restricted(EdgeId(0), EdgeId(usize::MAX)));
    assert!(!far.is_restricted(EdgeId(usize::MAX - 1), EdgeId(usize::MAX)));
    assert!(service.is_restricted(EdgeId(3), EdgeId(4)));
    assert!(!service.is_restricted(EdgeId(4), EdgeId(3)));
}

#[test]
fn road_classes_are_numbered_by_first_occurrence() {
    let classes: Vec<String> = ["motorway", "residential", "motorway", "track", "residential"]
        .iter()
        .map(|c| c.to_string())
        .collect();
    let (encoded, mapping) = RoadClassBuilder::encode(&classes).unwrap();
    assert_eq!(encoded, vec![0, 1, 0, 2, 1]);
    assert_eq!(mapping, vec!["motorway", "residential", "track"]);
}

#[test]
fn road_classes_beyond_256_are_refused() {
    let classes: Vec<String> = (0..256).map(|i| format!("class{}", i)).collect();
    let (encoded, mapping) = RoadClassBuilder::encode(&classes).unwrap();
    assert_eq!(mapping.len(), 256);
    assert_eq!(encoded[255], 255);
    let classes: Vec<String> = (0..257).map(|i| format!("class{}", i)).collect();
    assert!(RoadClassBuilder::encode(&classes).is_err());
}

#[test]
fn spatial_index_is_vertex_oriented_by_default() {
    assert_eq!(SpatialIndexType::default(), SpatialIndexType::VertexOriented);
}
