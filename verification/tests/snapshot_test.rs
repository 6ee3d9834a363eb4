use podo::snapshot::changes::{compare_diff, Change, CreateSchemaChange, DropSchemaChange};
use podo::snapshot::database::Database;
use podo::snapshot::{Check, Column, Constraint, Function, Relation, Schema, SnapshotError, Table, View};

fn column(table: &str, name: &str) -> Column {
    Column {
        schema_name: "public".to_owned(),
        table_name: table.to_owned(),
        name: name.to_owned(),
        data_type: "int".to_owned(),
        not_null: false,
        default: None,
    }
}

fn check(table: &str, name: &str) -> Constraint {
    Constraint::Check(Check {
        schema_name: "public".to_owned(),
        table_name: table.to_owned(),
        name: name.to_owned(),
        expression: "a > 0".to_owned(),
        deferrable: false,
        initially_deferred: false,
    })
}

fn view(name: &str) -> Relation {
    Relation::View(View { schema_name: "public".to_owned(), name: name.to_owned(), query: "select 1".to_owned() })
}

fn function(name: &str) -> Function {
    Function {
        schema_name: "public".to_owned(),
        name: name.to_owned(),
        body: "SELECT 1;".to_owned(),
        language: "sql".to_owned(),
        returns: "integer".to_owned(),
        volatility: "VOLATILE".to_owned(),
    }
}

#[test]
fn test_table_refuses_a_column_named_twice() {
    let mut t = Table::new("public", "t");
    t.add_column(column("t", "a")).unwrap();
    t.add_column(column("t", "b")).unwrap();
    assert_eq!(
        t.add_column(column("t", "a")),
        Err(SnapshotError::DuplicateColumn { table: "t".to_owned(), column: "a".to_owned() })
    );
    let names: Vec<&str> = t.iter_columns().iter().map(|c| c.name.as_str()).collect();
    assert_eq!(names, vec!["a", "b"]);
}

#[test]
fn test_table_refuses_a_constraint_named_twice() {
    let mut t = Table::new("public", "t");
    t.add_constraint(check("t", "c1")).unwrap();
    assert_eq!(
        t.add_constraint(check("t", "c1")),
        Err(SnapshotError::DuplicateConstraint { table: "t".to_owned(), constraint: "c1".to_owned() })
    );
    assert_eq!(t.iter_constraints().len(), 1);
}

#[test]
fn test_schema_refuses_names_taken() {
    let mut s = Schema::new("public");
    s.add_relation(view("v")).unwrap();
    assert_eq!(
        s.add_relation(view("v")),
        Err(SnapshotError::DuplicateRelation { schema: "public".to_owned(), relation: "v".to_owned() })
    );
    s.add_function(function("f")).unwrap();
    assert_eq!(
        s.add_function(function("f")),
        Err(SnapshotError::DuplicateFunction { schema: "public".to_owned(), function: "f".to_owned() })
    );
}

#[test]
fn test_merge_schema_stops_at_the_first_name_taken() {
    let mut s = Schema::new("public");
    s.add_relation(view("b")).unwrap();
    let mut other = Schema::new("public");
    other.add_relation(view("a")).unwrap();
    other.add_relation(view("b")).unwrap();
    other.add_relation(view("c")).unwrap();
    assert_eq!(
        s.merge_schema(other),
        Err(SnapshotError::DuplicateRelation { schema: "public".to_owned(), relation: "b".to_owned() })
    );
    let names: Vec<&String> = s.iter_relations().iter().map(|r| r.name()).collect();
    assert_eq!(names, vec!["b", "a"]);
}

#[test]
fn test_schema_adds_to_its_tables() {
    let mut s = Schema::new("public");
    s.add_relation(Relation::Table(Table::new("public", "t"))).unwrap();
    s.add_relation(view("v")).unwrap();
    s.add_column_to("t", column("t", "a")).unwrap();
    s.add_constraint_to("t", check("t", "c")).unwrap();
    assert_eq!(
        s.add_column_to("missing", column("missing", "a")),
        Err(SnapshotError::RelationNotFound { schema: "public".to_owned(), relation: "missing".to_owned() })
    );
    assert_eq!(
        s.add_column_to("v", column("v", "a")),
        Err(SnapshotError::NotATable { schema: "public".to_owned(), relation: "v".to_owned() })
    );
    match &s.iter_relations()[0] {
        Relation::Table(t) => {
            assert_eq!(t.iter_columns().len(), 1);
            assert_eq!(t.iter_constraints().len(), 1);
        }
        _ => panic!("not a table"),
    }
}

#[test]
fn test_database_schemas() {
    let mut db = Database::new();
    db.add_schema(Schema::new("a")).unwrap();
    assert_eq!(db.add_schema(Schema::new("a")), Err(SnapshotError::DuplicateSchema { schema: "a".to_owned() }));
    assert!(db.has_schema("a"));
    assert!(!db.has_schema("b"));
    assert_eq!(db.get_schema("b").unwrap_err(), SnapshotError::SchemaNotFound { schema: "b".to_owned() });
    assert_eq!(
        db.add_relation("b", view("v")),
        Err(SnapshotError::SchemaNotFound { schema: "b".to_owned() })
    );
    db.add_relation("a", Relation::Table(Table::new("a", "t"))).unwrap();
    db.add_column("a", "t", column("t", "x")).unwrap();
    db.add_constraint("a", "t", check("t", "c")).unwrap();
    db.add_function("a", function("f")).unwrap();
    assert_eq!(
        db.add_column("a", "u", column("u", "x")),
        Err(SnapshotError::RelationNotFound { schema: "a".to_owned(), relation: "u".to_owned() })
    );
    db.remove_schema("a").unwrap();
    assert!(!db.has_schema("a"));
    assert_eq!(db.remove_schema("a"), Err(SnapshotError::SchemaNotFound { schema: "a".to_owned() }));
}

#[test]
fn test_database_merge_schema() {
    let mut db = Database::new();
    let mut a = Schema::new("a");
    a.add_relation(view("v1")).unwrap();
    db.merge_schema(a).unwrap();
    let mut a2 = Schema::new("a");
    a2.add_relation(view("v2")).unwrap();
    db.merge_schema(a2).unwrap();
    assert_eq!(db.iter_schemas().len(), 1);
    assert_eq!(db.iter_schemas()[0].iter_relations().len(), 2);
}

#[test]
fn test_change_sql_and_names() {
    let c = Change::CreateSchema(CreateSchemaChange { schema_name: "app".to_owned() });
    assert_eq!(c.render_sql(), "CREATE SCHEMA app;");
    assert_eq!(c.display_name(), "schema app");
    let d = Change::DropSchema(DropSchemaChange { schema_name: "app".to_owned() });
    assert_eq!(d.render_sql(), "DROP SCHEMA app;");
}

#[test]
fn test_revert_undoes_a_creation() {
    let mut db = Database::new();
    db.add_schema(Schema::new("public")).unwrap();
    let before = db.iter_schemas().len();
    let c = Change::CreateSchema(CreateSchemaChange { schema_name: "app".to_owned() });
    let undo = c.revert(&db).unwrap();
    c.apply(&mut db).unwrap();
    assert!(db.has_schema("app"));
    assert_eq!(undo, Change::DropSchema(DropSchemaChange { schema_name: "app".to_owned() }));
    undo.apply(&mut db).unwrap();
    assert!(!db.has_schema("app"));
    assert_eq!(db.iter_schemas().len(), before);
    let drop_missing = Change::DropSchema(DropSchemaChange { schema_name: "nope".to_owned() });
    assert_eq!(drop_missing.revert(&db), Err(SnapshotError::SchemaNotFound { schema: "nope".to_owned() }));
    assert_eq!(drop_missing.apply(&mut db), Err(SnapshotError::SchemaNotFound { schema: "nope".to_owned() }));
    let create_again = Change::CreateSchema(CreateSchemaChange { schema_name: "public".to_owned() });
    assert_eq!(create_again.apply(&mut db), Err(SnapshotError::DuplicateSchema { schema: "public".to_owned() }));
}

#[test]
fn test_compare_diff_creates_and_drops_schemas() {
    let mut source = Database::new();
    source.add_schema(Schema::new("public")).unwrap();
    source.add_schema(Schema::new("old")).unwrap();
    let mut target = Database::new();
    target.add_schema(Schema::new("new")).unwrap();
    target.add_schema(Schema::new("public")).unwrap();
    let changes = compare_diff(&source, &target);
    assert_eq!(
        changes,
        vec![
            Change::CreateSchema(CreateSchemaChange { schema_name: "new".to_owned() }),
            Change::DropSchema(DropSchemaChange { schema_name: "old".to_owned() }),
        ]
    );
    for c in &changes {
        c.apply(&mut source).unwrap();
    }
    assert!(source.has_schema("new"));
    assert!(source.has_schema("public"));
    assert!(!source.has_schema("old"));
    assert!(compare_diff(&source, &target).is_empty());
}
