use podo::history::dbh::{
    check_downward_range, format_create_schema_sql, format_create_table_sql, format_current_version_sql,
    format_delete_version_sql, format_get_applied_order_sql, format_get_downward_range_sql, format_get_version_sql,
    format_insert_version_sql, DBHistory, DBHistoryError,
};
use podo::history::fsh::{version_name_of_file, FSHistory, FSHistoryError, UpwardRange, UpwardStep};
use podo::history::snapshot::calculate_snapshot;
use podo::history::version::{stage_change, Version, INIT, STAGE};
use podo::snapshot::changes::{Change, CreateSchemaChange, DropSchemaChange};
use podo::snapshot::database::Database;
use podo::snapshot::SnapshotError;

fn version(name: &str, previous: Option<&str>) -> Version {
    Version {
        name: name.to_owned(),
        previous: previous.map(|p| p.to_owned()),
        changes: vec![],
        up: vec![],
        down: vec![],
    }
}

#[test]
fn test_new_init_and_stage() {
    let init = Version::new_init();
    assert_eq!(init.name, INIT);
    assert_eq!(init.previous, None);
    assert_eq!(init.changes, vec![Change::CreateSchema(CreateSchemaChange { schema_name: "public".to_owned() })]);
    assert_eq!(init.up, vec!["CREATE SCHEMA public;".to_owned()]);
    assert_eq!(init.down, vec!["DROP SCHEMA public;".to_owned()]);
    assert!(!init.is_empty());
    let stage = Version::new_stage(&init.name);
    assert_eq!(stage.name, STAGE);
    assert_eq!(stage.previous, Some("init".to_owned()));
    assert!(stage.is_empty());
}

#[test]
fn test_downs_come_in_reverse_order() {
    let mut stage = Version::new_stage("init");
    stage.add_change(Change::CreateSchema(CreateSchemaChange { schema_name: "a".to_owned() }));
    stage.add_up("CREATE SCHEMA a;");
    stage.add_down("DROP SCHEMA a;");
    stage.add_up("CREATE SCHEMA b;");
    stage.add_down("DROP SCHEMA b;");
    assert_eq!(stage.up, vec!["CREATE SCHEMA a;".to_owned(), "CREATE SCHEMA b;".to_owned()]);
    assert_eq!(stage.down, vec!["DROP SCHEMA b;".to_owned(), "DROP SCHEMA a;".to_owned()]);
    assert!(!stage.is_empty());
    stage.reset();
    assert!(stage.is_empty());
    assert_eq!(stage.name, "stage");
    assert_eq!(stage.previous, Some("init".to_owned()));
}

#[test]
fn test_history_finds_the_current_version() {
    let mut h = FSHistory::new("hist".to_owned());
    assert_eq!(h.current_version, "init");
    h.add_version(&version("init", None)).unwrap();
    h.add_version(&version("v1", Some("init"))).unwrap();
    h.add_version(&version("v2", Some("v1"))).unwrap();
    h.find_current_version();
    assert_eq!(h.current_version, "v1");
    assert_eq!(h.get_next("v1"), Some(&"v2".to_owned()));
    assert_eq!(h.get_next("v2"), None);
}

#[test]
fn test_history_refuses_a_branch() {
    let mut h = FSHistory::new("hist".to_owned());
    h.add_version(&version("a", Some("init"))).unwrap();
    let err = h.add_version(&version("b", Some("init"))).unwrap_err();
    assert_eq!(
        err,
        FSHistoryError::Branched { parent: "init".to_owned(), child_a: "a".to_owned(), child_b: "b".to_owned() }
    );
    assert_eq!(err.message(), "version \"init\" has two next versions: \"a\" and \"b\"");
}

#[test]
fn test_history_walk_stops_on_a_cycle() {
    let mut h = FSHistory::new("hist".to_owned());
    h.add_version(&version("a", Some("init"))).unwrap();
    h.add_version(&version("init", Some("a"))).unwrap();
    h.find_current_version();
    assert!(h.current_version == "init" || h.current_version == "a");
}

#[test]
fn test_version_file_names() {
    assert_eq!(version_name_of_file("v1.yaml", false), Some("v1".to_owned()));
    assert_eq!(version_name_of_file("v1.yaml.yaml", false), Some("v1".to_owned()));
    assert_eq!(version_name_of_file(".yaml", false), Some("".to_owned()));
    assert_eq!(version_name_of_file("v1.yml", false), None);
    assert_eq!(version_name_of_file("v1.yaml", true), None);
    let h = FSHistory::new("database/history".to_owned());
    assert_eq!(h.get_version_file_path("stage"), "database/history/stage.yaml");
    let h = FSHistory::new("database/history/".to_owned());
    assert_eq!(h.get_version_file_path("stage"), "database/history/stage.yaml");
}

#[test]
fn test_upward_range_lists_versions_oldest_first() {
    let walk = UpwardRange::new("init", "v2");
    assert_eq!(walk.current, "v2");
    let walk = match walk.step(&version("v2", Some("v1"))) {
        UpwardStep::Next(w) => w,
        _ => panic!("expected to go on"),
    };
    assert_eq!(walk.current, "v1");
    let walk = match walk.step(&version("v1", Some("init"))) {
        UpwardStep::Next(w) => w,
        _ => panic!("expected to go on"),
    };
    match walk.step(&version("init", None)) {
        UpwardStep::Done(list) => assert_eq!(list, vec!["v1".to_owned(), "v2".to_owned()]),
        _ => panic!("expected the range"),
    }
}

#[test]
fn test_upward_range_fails_when_unreachable() {
    let walk = UpwardRange::new("v9", "v1");
    match walk.step(&version("v1", None)) {
        UpwardStep::Failed(e) => {
            assert_eq!(e, FSHistoryError::Unreachable { high: "v1".to_owned(), low: "v9".to_owned() });
            assert_eq!(e.message(), "version \"v1\" is not reachable from version \"v9\"");
        }
        _ => panic!("expected a failure"),
    }
    let walk = UpwardRange::new("v1", "v1");
    match walk.step(&version("v1", None)) {
        UpwardStep::Done(list) => assert!(list.is_empty()),
        _ => panic!("expected an empty range"),
    }
}

#[test]
fn test_calculate_snapshot_applies_every_change() {
    let mut v1 = version("v1", Some("init"));
    v1.add_change(Change::CreateSchema(CreateSchemaChange { schema_name: "app".to_owned() }));
    let versions = vec![Version::new_init(), v1];
    let db = calculate_snapshot(&versions).unwrap();
    assert!(db.has_schema("public"));
    assert!(db.has_schema("app"));
    let mut v2 = version("v2", Some("v1"));
    v2.add_change(Change::CreateSchema(CreateSchemaChange { schema_name: "public".to_owned() }));
    let versions = vec![Version::new_init(), v2];
    assert_eq!(calculate_snapshot(&versions).unwrap_err(), SnapshotError::DuplicateSchema { schema: "public".to_owned() });
}

#[test]
fn test_database_history_statements() {
    let h = DBHistory::new("podo_meta");
    assert_eq!(h.get_metadata_schema(), "podo_meta");
    assert_eq!(format_create_schema_sql("podo_meta"), "CREATE SCHEMA podo_meta");
    assert_eq!(
        format_create_table_sql("m"),
        "CREATE TABLE m.version (
    name VARCHAR(128) NOT NULL PRIMARY KEY,
    previous VARCHAR(128) REFERENCES m.version(name),
    changes JSON NOT NULL,
    up TEXT[] NOT NULL,
    down TEXT[] NOT NULL,
    applied_at TIMESTAMP NOT NULL DEFAULT now(),
    applied_order SERIAL NOT NULL UNIQUE
)"
    );
    assert_eq!(
        format_insert_version_sql("m"),
        "INSERT INTO m.version (name, previous, changes, up, down) VALUES ($1, $2, $3::TEXT::JSON, $4, $5)"
    );
    assert_eq!(
        format_current_version_sql("m"),
        "SELECT name, previous, changes::TEXT, up, down, applied_at FROM m.version ORDER BY applied_order DESC LIMIT 1"
    );
    assert_eq!(format_delete_version_sql("m"), "DELETE FROM m.version WHERE name = $1");
    assert_eq!(
        format_get_downward_range_sql("m"),
        "SELECT name FROM m.version WHERE $1 >= applied_order AND applied_order > $2 ORDER BY applied_order DESC"
    );
    assert_eq!(format_get_applied_order_sql("m"), "SELECT applied_order FROM m.version WHERE name = $1");
    assert_eq!(
        format_get_version_sql("m"),
        "SELECT name, previous, changes::TEXT, up, down FROM m.version WHERE name = $1"
    );
}

#[test]
fn test_downward_range_needs_both_versions() {
    assert_eq!(check_downward_range("a", "b", Some(3), Some(1)), Ok((3, 1)));
    assert_eq!(check_downward_range("a", "b", None, Some(1)), Err(DBHistoryError::NoMatchingVersion("a".to_owned())));
    assert_eq!(check_downward_range("a", "b", Some(3), None), Err(DBHistoryError::NoMatchingVersion("b".to_owned())));
    assert_eq!(DBHistoryError::NotInitialized.message(), "database history is not initialized");
    assert_eq!(DBHistoryError::NoMatchingVersion("x".to_owned()).message(), "no version matching \"x\" found");
}

#[test]
fn test_stage_change_adds_statements_and_applies_the_change() {
    let mut stage = Version::new_stage("init");
    let mut source = Database::new();
    stage_change(&mut stage, &mut source, Change::CreateSchema(CreateSchemaChange { schema_name: "a".to_owned() })).unwrap();
    stage_change(&mut stage, &mut source, Change::CreateSchema(CreateSchemaChange { schema_name: "b".to_owned() })).unwrap();
    stage_change(&mut stage, &mut source, Change::DropSchema(DropSchemaChange { schema_name: "a".to_owned() })).unwrap();
    assert_eq!(
        stage.up,
        vec!["CREATE SCHEMA a;".to_owned(), "CREATE SCHEMA b;".to_owned(), "DROP SCHEMA a;".to_owned()]
    );
    assert_eq!(
        stage.down,
        vec!["CREATE SCHEMA a;".to_owned(), "DROP SCHEMA b;".to_owned(), "DROP SCHEMA a;".to_owned()]
    );
    assert_eq!(stage.changes.len(), 3);
    assert!(!source.has_schema("a"));
    assert!(source.has_schema("b"));
}

#[test]
fn test_stage_change_refused_leaves_the_stage() {
    let mut stage = Version::new_stage("init");
    let mut source = Database::new();
    stage_change(&mut stage, &mut source, Change::CreateSchema(CreateSchemaChange { schema_name: "a".to_owned() })).unwrap();
    let err = stage_change(&mut stage, &mut source, Change::CreateSchema(CreateSchemaChange { schema_name: "a".to_owned() }))
        .unwrap_err();
    assert_eq!(err, SnapshotError::DuplicateSchema { schema: "a".to_owned() });
    assert_eq!(stage.up, vec!["CREATE SCHEMA a;".to_owned()]);
    assert_eq!(stage.down, vec!["DROP SCHEMA a;".to_owned()]);
    assert_eq!(stage.changes.len(), 1);
    assert!(source.has_schema("a"));
}

#[test]
fn test_down_target_prefers_the_version_asked_for() {
    let v = version("v2", Some("v1"));
    assert_eq!(v.down_target(Some("init")), Some("init".to_owned()));
    assert_eq!(v.down_target(None), Some("v1".to_owned()));
    let init = Version::new_init();
    assert_eq!(init.down_target(None), None);
    assert_eq!(init.down_target(Some("x")), Some("x".to_owned()));
}
