use podo::introspection::{
    load_checks, load_columns, load_foreign_keys, load_functions, load_indexes, load_primary_keys, load_schemas,
    load_sequences, load_tables, load_unique, Check, Column, ForeignKey, Function, Index, PrimaryKey, Schema, Sequence,
    Table, Unique,
};
use podo::snapshot::database::Database;
use podo::snapshot::{Constraint, Relation, SnapshotError};

fn loaded() -> Database {
    let mut db = Database::new();
    load_schemas(&mut db, vec![Schema { name: "s".to_owned() }]).unwrap();
    load_sequences(
        &mut db,
        vec![Sequence {
            schema: "s".to_owned(),
            name: "seq".to_owned(),
            data_type: "int4".to_owned(),
            increment: 1,
            min_value: 1,
            max_value: 100,
            start: 1,
            cache: 1,
            cycle: false,
            owned_by_table_name: None,
            owned_by_column_name: None,
        }],
    )
    .unwrap();
    load_tables(&mut db, vec![Table { schema: "s".to_owned(), name: "t".to_owned() }]).unwrap();
    load_columns(
        &mut db,
        vec![
            Column {
                schema: "s".to_owned(),
                table: "t".to_owned(),
                att_num: 1,
                name: "id".to_owned(),
                default: "".to_owned(),
                not_null: true,
                data_type: "int4".to_owned(),
            },
            Column {
                schema: "s".to_owned(),
                table: "t".to_owned(),
                att_num: 2,
                name: "n".to_owned(),
                default: "0".to_owned(),
                not_null: false,
                data_type: "int4".to_owned(),
            },
        ],
    )
    .unwrap();
    load_primary_keys(
        &mut db,
        vec![PrimaryKey {
            schema: "s".to_owned(),
            name: "t_pkey".to_owned(),
            table_schema: "s".to_owned(),
            table_name: "t".to_owned(),
            table_columns: vec!["id".to_owned()],
            deferrable: false,
            initially_deferred: false,
        }],
    )
    .unwrap();
    load_foreign_keys(
        &mut db,
        vec![ForeignKey {
            constraint_name: "t_n_fkey".to_owned(),
            constraint_schema: "s".to_owned(),
            constraint_table_name: "t".to_owned(),
            columns: vec!["n".to_owned()],
            target_table_name: "t".to_owned(),
            target_table_schema: "s".to_owned(),
            target_table_columns: vec!["id".to_owned()],
            deferrable: false,
            initially_deferred: false,
            match_option: "NONE".to_owned(),
            update_rule: "NO ACTION".to_owned(),
            delete_rule: "NO ACTION".to_owned(),
        }],
    )
    .unwrap();
    load_functions(
        &mut db,
        vec![Function {
            schema: "s".to_owned(),
            name: "f".to_owned(),
            body: "SELECT 1;".to_owned(),
            language: "sql".to_owned(),
            returns: "integer".to_owned(),
            volatility: "VOLATILE".to_owned(),
        }],
    )
    .unwrap();
    load_unique(
        &mut db,
        vec![Unique {
            schema: "s".to_owned(),
            name: "t_n_key".to_owned(),
            table_schema: "s".to_owned(),
            table_name: "t".to_owned(),
            table_columns: vec!["n".to_owned()],
            deferrable: false,
            initially_deferred: false,
        }],
    )
    .unwrap();
    load_checks(
        &mut db,
        vec![Check {
            schema: "s".to_owned(),
            table: "t".to_owned(),
            name: "t_n_check".to_owned(),
            check_clause: "(n > 0)".to_owned(),
            is_deferrable: false,
            initially_deferred: false,
        }],
    )
    .unwrap();
    load_indexes(
        &mut db,
        vec![
            Index {
                schema_name: "s".to_owned(),
                index_name: "t_idx".to_owned(),
                table_name: "t".to_owned(),
                unique: false,
                method: "btree".to_owned(),
                key_length: 1,
                key_columns: Some(vec!["n".to_owned()]),
                key_options: vec![0],
                expressions: None,
            },
            Index {
                schema_name: "s".to_owned(),
                index_name: "t_expr_idx".to_owned(),
                table_name: "t".to_owned(),
                unique: true,
                method: "btree".to_owned(),
                key_length: 1,
                key_columns: None,
                key_options: vec![0],
                expressions: Some("lower(n::text)".to_owned()),
            },
        ],
    )
    .unwrap();
    db
}

#[test]
fn test_rows_become_a_snapshot() {
    let db = loaded();
    let s = db.get_schema("s").unwrap();
    let names: Vec<&String> = s.iter_relations().iter().map(|r| r.name()).collect();
    assert_eq!(names, vec!["seq", "t", "t_idx", "t_expr_idx"]);
    match &s.iter_relations()[1] {
        Relation::Table(t) => {
            assert_eq!(t.iter_columns().len(), 2);
            assert_eq!(t.iter_columns()[0].default, None);
            assert_eq!(t.iter_columns()[1].default, Some("0".to_owned()));
            let kinds: Vec<&str> = t
                .iter_constraints()
                .iter()
                .map(|c| match c {
                    Constraint::PrimaryKey(_) => "pk",
                    Constraint::ForeignKey(_) => "fk",
                    Constraint::Unique(_) => "unique",
                    Constraint::Check(_) => "check",
                })
                .collect();
            assert_eq!(kinds, vec!["pk", "fk", "unique", "check"]);
        }
        _ => panic!("not a table"),
    }
    match &s.iter_relations()[3] {
        Relation::Index(i) => assert_eq!(i.key_expressions, vec!["lower(n::text)".to_owned()]),
        _ => panic!("not an index"),
    }
    assert_eq!(s.iter_functions().len(), 1);
}

#[test]
fn test_a_row_of_an_unknown_schema_stops_the_load() {
    let mut db = Database::new();
    load_schemas(&mut db, vec![Schema { name: "s".to_owned() }]).unwrap();
    let err = load_tables(
        &mut db,
        vec![
            Table { schema: "s".to_owned(), name: "t".to_owned() },
            Table { schema: "x".to_owned(), name: "u".to_owned() },
            Table { schema: "s".to_owned(), name: "v".to_owned() },
        ],
    )
    .unwrap_err();
    assert_eq!(err, SnapshotError::SchemaNotFound { schema: "x".to_owned() });
    assert_eq!(db.get_schema("s").unwrap().iter_relations().len(), 1);
}
