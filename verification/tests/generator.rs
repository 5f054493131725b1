use routee_compass_core::generator::{file_of, includes, mod_template, TraversalExtensions, FILES};

#[test]
fn module_text_of_a_plain_model() {
    let text = mod_template("EnergyCost", false, false);
    let expected = [
        "mod builder;",
        "mod model;",
        "mod service;",
        "",
        "pub use builder::EnergyCostBuilder;",
        "pub use model::EnergyCostModel;",
        "pub use service::EnergyCostService;",
        "",
    ]
    .join("\n");
    assert_eq!(text, expected);
}

#[test]
fn module_text_with_typed_configuration() {
    let text = mod_template("Toll", true, false);
    let expected = [
        "mod builder;",
        "mod config;",
        "mod model;",
        "mod params;",
        "mod service;",
        "",
        "pub use builder::TollBuilder;",
        "pub use config::TollConfig;",
        "pub use model::TollModel;",
        "pub use params::TollParams;",
        "pub use service::TollService;",
        "",
    ]
    .join("\n");
    assert_eq!(text, expected);
}

#[test]
fn module_text_with_engine() {
    let text = mod_template("Toll", true, true);
    let rows: Vec<&str> = text.lines().collect();
    assert_eq!(rows.len(), 13);
    assert_eq!(rows[2], "mod engine;");
    assert_eq!(rows[6], "");
    assert_eq!(rows[9], "pub use engine::TollEngine;");
    // the files come in alphabetical order
    let files: Vec<&str> = rows[..6].to_vec();
    let mut sorted = files.clone();
    sorted.sort();
    assert_eq!(files, sorted);
    // an engine alone adds its file only
    let text = mod_template("Toll", false, true);
    assert_eq!(
        text,
        "mod builder;\nmod engine;\nmod model;\nmod service;\n\npub use builder::TollBuilder;\npub use engine::TollEngine;\npub use model::TollModel;\npub use service::TollService;\n"
    );
    // an empty name leaves the endings
    assert!(mod_template("", false, false).contains("pub use model::Model;\n"));
}

#[test]
fn files_and_extensions() {
    assert_eq!(FILES, 6);
    assert_eq!(file_of(0), ("builder", "Builder"));
    assert_eq!(file_of(5), ("service", "Service"));
    for i in 0..FILES {
        let (file, ending) = file_of(i);
        let mut capital = file.to_string();
        capital[0..1].make_ascii_uppercase();
        assert_eq!(capital, ending);
    }
    assert!(includes(0, false, false) && includes(3, false, false) && includes(5, false, false));
    assert!(!includes(1, false, true) && !includes(4, false, true) && includes(2, false, true));
    assert!(includes(1, true, false) && includes(4, true, false) && !includes(2, true, false));
    assert!(!TraversalExtensions::typed_config(None));
    assert!(TraversalExtensions::typed_config(Some(TraversalExtensions::TypedConfig)));
    assert!(!TraversalExtensions::engine(Some(TraversalExtensions::TypedConfig)));
    assert!(TraversalExtensions::engine(Some(
        TraversalExtensions::TypedConfigAndEngine
    )));
    assert!(!TraversalExtensions::engine(None));
}
