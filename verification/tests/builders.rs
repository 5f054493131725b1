use routee_compass_core::traversal_builders::{
    CombinedTraversalBuilder, EnergyModelBuilder, EnergyModelBuilderConfig, TraversalModelError,
    TurnDelayTraversalModelBuilder, VehicleKind,
};

fn names(list: &[&str]) -> Vec<String> {
    list.iter().map(|n| n.to_string()).collect()
}

#[test]
fn combined_builder_selects_all_without_a_request() {
    let builder = CombinedTraversalBuilder::new(names(&["distance", "speed", "time"]));
    assert_eq!(builder.select(None).unwrap(), vec![0, 1, 2]);
    assert_eq!(builder.names(), "distance, speed, time");
    let none = CombinedTraversalBuilder::new(vec![]);
    assert_eq!(none.select(None).unwrap(), Vec::<usize>::new());
    assert_eq!(none.names(), "");
}

#[test]
fn combined_builder_selects_in_the_order_of_the_asking() {
    let builder = CombinedTraversalBuilder::new(names(&["distance", "speed", "time", "speed"]));
    let asked = names(&["time", "distance", "speed", "time"]);
    assert_eq!(builder.select(Some(&asked)).unwrap(), vec![2, 0, 1, 2]);
    assert_eq!(builder.position(&"speed".to_string()), Some(1));
    assert_eq!(builder.position(&"grade".to_string()), None);
    assert_eq!(builder.select(Some(&vec![])).unwrap(), Vec::<usize>::new());
}

#[test]
fn combined_builder_refuses_the_first_unknown_name() {
    let builder = CombinedTraversalBuilder::new(names(&["distance", "speed"]));
    let asked = names(&["speed", "grade", "tolls"]);
    match builder.select(Some(&asked)) {
        Err(TraversalModelError::BuildError(message)) => assert_eq!(
            message,
            "unknown traversal model name 'grade', must be one of: [distance, speed]"
        ),
        Ok(_) => panic!("grade is not known"),
    }
}

#[test]
fn energy_builder_knows_three_kinds_of_vehicle() {
    let file = "vehicles/leaf.toml".to_string();
    let kind = |name: &str| EnergyModelBuilder::vehicle_kind(&file, &name.to_string());
    assert_eq!(kind("ice").unwrap(), VehicleKind::Ice);
    assert_eq!(kind("bev").unwrap(), VehicleKind::Bev);
    assert_eq!(kind("phev").unwrap(), VehicleKind::Phev);
    match kind("steam") {
        Err(TraversalModelError::BuildError(message)) => assert_eq!(
            message,
            "unknown vehicle model type in 'vehicles/leaf.toml': steam"
        ),
        Ok(_) => panic!("steam is not known"),
    }
    assert!(kind("ICE").is_err());
}

#[test]
fn trip_totals_by_configuration() {
    assert!(TurnDelayTraversalModelBuilder::include_trip_time(None));
    assert!(TurnDelayTraversalModelBuilder::include_trip_time(Some(true)));
    assert!(!TurnDelayTraversalModelBuilder::include_trip_time(Some(false)));
    let config = |choice| EnergyModelBuilderConfig {
        vehicle_input_files: vec![],
        include_trip_energy: choice,
    };
    assert_eq!(
        EnergyModelBuilder::include_trip_energy(&config(Some(false)), Some(true)),
        Some(false)
    );
    assert_eq!(
        EnergyModelBuilder::include_trip_energy(&config(None), Some(true)),
        Some(true)
    );
    assert_eq!(EnergyModelBuilder::include_trip_energy(&config(None), None), None);
}
