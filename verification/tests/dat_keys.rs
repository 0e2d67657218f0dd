use poe_data_tools::dat::keys::{key_step, next_unresolved, table_keys, KeyColumn, KeyStep};
use poe_data_tools::dat::refs::Json;

fn col(name: &str, refers: Option<&str>, primary: bool) -> KeyColumn {
    KeyColumn {
        name: name.to_string(),
        references: refers.map(|r| r.to_string()),
        primary_key: primary,
    }
}

fn strings(v: &[&str]) -> Vec<String> {
    v.iter().map(|s| s.to_string()).collect()
}

#[test]
fn key_steps() {
    let cols = vec![col("Id", None, true), col("Mod", Some("Mods"), true), col("X", Some("Stats"), false)];
    // The key column Mod refers to Mods, not resolved yet: defer.
    match key_step(&cols, &strings(&["stats"]), 1, "thing") {
        KeyStep::Defer(v) => assert_eq!(v, strings(&["thing", "mods"])),
        _ => panic!("expected a deferral"),
    }
    // Once Mods is resolved, load the file with the key columns.
    match key_step(&cols, &strings(&["mods"]), 2, "thing") {
        KeyStep::Load { file, key_columns } => {
            assert_eq!(file, "data/balance/thing.datc64");
            assert_eq!(key_columns, strings(&["Id", "Mod"]));
        }
        _ => panic!("expected a load"),
    }
    // No primary key: the first column is the key.
    let plain = vec![col("Name", None, false), col("Other", Some("Mods"), false)];
    match key_step(&plain, &strings(&[]), 1, "t") {
        KeyStep::Load { file, key_columns } => {
            assert_eq!(file, "data/t.datc64");
            assert_eq!(key_columns, strings(&["Name"]));
        }
        _ => panic!("expected a load"),
    }
}

#[test]
fn row_keys() {
    let row = |id: i64, name: &str| {
        Json::Object(vec![
            ("Id".to_string(), Json::Int(id)),
            ("Name".to_string(), Json::Text(name.to_string())),
        ])
    };
    let rows = vec![row(1, "a"), Json::Null, row(2, "b")];
    assert_eq!(
        table_keys(&rows, &strings(&["Name"])),
        vec![Json::Text("a".to_string()), Json::Null, Json::Text("b".to_string())]
    );
    assert_eq!(
        table_keys(&rows, &strings(&["Id", "Missing"])),
        vec![
            Json::Array(vec![Json::Int(1), Json::Null]),
            Json::Array(vec![Json::Null, Json::Null]),
            Json::Array(vec![Json::Int(2), Json::Null]),
        ]
    );
}

#[test]
fn deferral_needs_no_known_major() {
    let cols = vec![col("Mod", Some("Mods"), true)];
    match key_step(&cols, &strings(&[]), 0, "thing") {
        KeyStep::Defer(v) => assert_eq!(v, strings(&["thing", "mods"])),
        _ => panic!("expected a deferral"),
    }
}

#[test]
fn worklist_pops_resolved_tables() {
    let resolved = strings(&["mods", "stats"]);
    let mut stack = strings(&["a", "b", "mods", "stats"]);
    // Resolved tables on top are taken off and passed over.
    assert_eq!(next_unresolved(&mut stack, &resolved), Some("b".to_string()));
    assert_eq!(stack, strings(&["a"]));
    assert_eq!(next_unresolved(&mut stack, &resolved), Some("a".to_string()));
    assert!(stack.is_empty());
    assert_eq!(next_unresolved(&mut stack, &resolved), None);
    let mut done = strings(&["stats", "mods"]);
    assert_eq!(next_unresolved(&mut done, &resolved), None);
    assert!(done.is_empty());
}
