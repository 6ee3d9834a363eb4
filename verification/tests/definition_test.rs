use podo::definition::ddl::constraint::constraint_node_parsable;
use podo::definition::ddl::index::index_node_on_missing;
use podo::definition::ddl::schema::schema_node_readable;
use podo::definition::ddl::sequence::sequence_node_bounds_defined;
use podo::definition::ddl::table::table_node_readable;
use podo::definition::nodes_readable;
use podo::definition::base::node::Node;
use podo::definition::ddl::context::Context;
use podo::definition::ddl::error::Error;
use podo::definition::ddl::schema::{parse_schema_definition, render_schema_definition};
use podo::definition::ddl::table::{parse_table_definition, render_table_definition};
use podo::definition::{load_nodes, merge_snapshot, render_snapshot, LoadError};
use podo::snapshot::database::Database;
use podo::snapshot::{Column, Constraint, PrimaryKey, Relation, Schema, SnapshotError, Table, View};

fn user_table_node() -> Node {
    Node::new("table").with_name("user".to_owned()).with_nodes(vec![
        Node::new("column").with_name("id".to_owned()).with_string_value("integer!".to_owned()),
        Node::new("column").with_name("name".to_owned()).with_string_value("text = 'x'".to_owned()),
        Node::new("constraint").with_name("user_pkey".to_owned()).with_nodes(vec![
            Node::new("primary key").with_string_varargs_value(vec!["id".to_owned()]),
        ]),
    ])
}

#[test]
fn test_parse_and_render_table_definition() {
    let node = user_table_node();
    let table = parse_table_definition("public", &node).unwrap();
    assert_eq!(table.name(), "user");
    assert_eq!(table.schema_name(), "public");
    assert_eq!(
        table.iter_columns(),
        &vec![
            Column {
                schema_name: "public".to_owned(),
                table_name: "user".to_owned(),
                name: "id".to_owned(),
                data_type: "integer".to_owned(),
                not_null: true,
                default: None,
            },
            Column {
                schema_name: "public".to_owned(),
                table_name: "user".to_owned(),
                name: "name".to_owned(),
                data_type: "text".to_owned(),
                not_null: false,
                default: Some("'x'".to_owned()),
            },
        ]
    );
    assert_eq!(
        table.iter_constraints(),
        &vec![Constraint::PrimaryKey(PrimaryKey {
            schema_name: "public".to_owned(),
            table_name: "user".to_owned(),
            name: "user_pkey".to_owned(),
            columns: vec!["id".to_owned()],
            deferrable: false,
            initially_deferred: false,
        })]
    );
    let ctx = Context::new("public".to_owned());
    assert_eq!(render_table_definition(&ctx, &table), node);
}

#[test]
fn test_table_with_unexpected_child_reports_every_error() {
    let node = Node::new("table").with_name("user".to_owned()).with_nodes(vec![
        Node::new("view").with_name("v".to_owned()),
        Node::new("column").with_name("id".to_owned()),
    ]);
    let err = parse_table_definition("public", &node).unwrap_err();
    match err {
        Error::HasErrors { errors, .. } => assert_eq!(errors.len(), 2),
        other => panic!("unexpected error: {:?}", other),
    }
}

#[test]
fn test_table_without_name_is_refused() {
    let node = Node::new("table").with_nodes(vec![]);
    assert!(matches!(parse_table_definition("public", &node), Err(Error::NameRequired { .. })));
}

fn public_schema_node() -> Node {
    Node::new("schema").with_name("public".to_owned()).with_nodes(vec![
        user_table_node(),
        Node::new("view").with_name("userview".to_owned()).with_nodes(vec![
            Node::new("as").with_string_value("select * from public.user".to_owned()),
        ]),
        Node::new("sequence").with_name("seq".to_owned()).with_nodes(vec![]),
        Node::new("index").with_name("user_name_idx".to_owned()).with_nodes(vec![
            Node::new("on").with_name("user".to_owned()).with_string_varargs_value(vec!["name".to_owned()]),
        ]),
        Node::new("function").with_name("f()".to_owned()).with_nodes(vec![
            Node::new("as").with_string_value("SELECT 1;".to_owned()),
        ]),
    ])
}

#[test]
fn test_parse_and_render_schema_definition() {
    let node = public_schema_node();
    let schema = parse_schema_definition(&node).unwrap();
    assert_eq!(schema.name(), "public");
    let names: Vec<&String> = schema.iter_relations().iter().map(|r| r.name()).collect();
    assert_eq!(names, vec!["user", "userview", "seq", "user_name_idx"]);
    assert_eq!(schema.iter_functions().len(), 1);
    assert_eq!(schema.iter_functions()[0].name, "f()");
    assert_eq!(
        schema.iter_relations()[1],
        Relation::View(View {
            schema_name: "public".to_owned(),
            name: "userview".to_owned(),
            query: "select * from public.user".to_owned(),
        })
    );
    assert_eq!(render_schema_definition(&schema), node);
}

#[test]
fn test_schema_with_unexpected_child_is_refused() {
    let node = Node::new("schema").with_name("public".to_owned()).with_nodes(vec![
        Node::new("column").with_name("id".to_owned()).with_string_value("int".to_owned()),
    ]);
    match parse_schema_definition(&node).unwrap_err() {
        Error::HasErrors { errors, .. } => {
            assert_eq!(errors.len(), 1);
            assert!(matches!(errors[0], Error::UnexpectedNode { .. }));
        }
        other => panic!("unexpected error: {:?}", other),
    }
}

#[test]
fn test_load_nodes_merges_schemas_of_the_same_name() {
    let nodes = vec![
        Node::new("schema").with_name("public".to_owned()).with_nodes(vec![user_table_node()]),
        Node::new("schema").with_name("public".to_owned()).with_nodes(vec![
            Node::new("view").with_name("v".to_owned()).with_nodes(vec![
                Node::new("as").with_string_value("select 1".to_owned()),
            ]),
        ]),
        Node::new("schema").with_name("other".to_owned()).with_nodes(vec![]),
    ];
    let db = load_nodes(&nodes).unwrap();
    assert_eq!(db.iter_schemas().len(), 2);
    assert_eq!(db.iter_schemas()[0].name(), "public");
    assert_eq!(db.iter_schemas()[0].iter_relations().len(), 2);
    assert_eq!(db.iter_schemas()[1].name(), "other");
}

#[test]
fn test_load_nodes_refuses_a_relation_defined_twice() {
    let nodes = vec![
        Node::new("schema").with_name("public".to_owned()).with_nodes(vec![user_table_node()]),
        Node::new("schema").with_name("public".to_owned()).with_nodes(vec![user_table_node()]),
    ];
    match load_nodes(&nodes) {
        Err(LoadError::Snapshot(SnapshotError::DuplicateRelation { schema, relation })) => {
            assert_eq!(schema, "public");
            assert_eq!(relation, "user");
        }
        other => panic!("unexpected result: {:?}", other),
    }
}

#[test]
fn test_snapshot_written_and_read_back_is_the_same() {
    let mut db = Database::new();
    let schema = parse_schema_definition(&public_schema_node()).unwrap();
    db.add_schema(schema).unwrap();
    db.add_schema(Schema::new("empty")).unwrap();
    let nodes = render_snapshot(&db);
    assert_eq!(nodes.len(), 2);
    let back = load_nodes(&nodes).unwrap();
    assert_eq!(back, db);
}

#[test]
fn test_merge_snapshot_adds_missing_schemas() {
    let mut db = Database::new();
    db.add_schema(Schema::new("a")).unwrap();
    let mut other = Database::new();
    other.add_schema(Schema::new("b")).unwrap();
    let mut t = Table::new("b", "t");
    t.add_column(Column {
        schema_name: "b".to_owned(),
        table_name: "t".to_owned(),
        name: "c".to_owned(),
        data_type: "int".to_owned(),
        not_null: false,
        default: None,
    })
    .unwrap();
    other.add_relation("b", Relation::Table(t)).unwrap();
    merge_snapshot(&mut db, other).unwrap();
    assert!(db.has_schema("a"));
    assert!(db.has_schema("b"));
    assert_eq!(db.get_schema("b").unwrap().iter_relations().len(), 1);
}

#[test]
fn test_readability_of_schema_nodes() {
    assert!(schema_node_readable(&public_schema_node()));
    assert!(!schema_node_readable(&Node::new("table").with_name("t".to_owned())));

    let empty_constraint = Node::new("constraint").with_name("c".to_owned()).with_nodes(vec![]);
    assert!(!constraint_node_parsable(&empty_constraint));
    assert!(constraint_node_parsable(&Node::new("constraint").with_name("c".to_owned())));

    let twice = Node::new("table").with_name("t".to_owned()).with_nodes(vec![
        Node::new("column").with_name("a".to_owned()).with_string_value("int".to_owned()),
        Node::new("column").with_name("a".to_owned()).with_string_value("text".to_owned()),
    ]);
    assert!(!table_node_readable("public", &twice));
    let twice_with_error = Node::new("table").with_name("t".to_owned()).with_nodes(vec![
        Node::new("column").with_name("a".to_owned()).with_string_value("int".to_owned()),
        Node::new("column").with_name("a".to_owned()).with_string_value("text".to_owned()),
        Node::new("view").with_name("v".to_owned()),
    ]);
    assert!(table_node_readable("public", &twice_with_error));

    let no_on = Node::new("index").with_name("i".to_owned()).with_nodes(vec![]);
    assert!(index_node_on_missing(&no_on));
    let descending_text = Node::new("sequence").with_name("s".to_owned()).with_nodes(vec![
        Node::new("as").with_string_value("text".to_owned()),
        Node::new("increment").with_number_integer_value(-1),
    ]);
    assert!(!sequence_node_bounds_defined(&descending_text));
    let bounded = Node::new("sequence").with_name("s".to_owned()).with_nodes(vec![
        Node::new("as").with_string_value("text".to_owned()),
        Node::new("increment").with_number_integer_value(-1),
        Node::new("minvalue").with_number_integer_value(-5),
    ]);
    assert!(sequence_node_bounds_defined(&bounded));

    let schema = Node::new("schema").with_name("public".to_owned()).with_nodes(vec![no_on]);
    assert!(!schema_node_readable(&schema));
    assert!(!nodes_readable(&vec![public_schema_node(), schema]));
    assert!(nodes_readable(&vec![public_schema_node()]));
}
