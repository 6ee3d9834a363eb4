use podo::definition::base::node::Node;
use podo::definition::ddl::check::{parse_check_constraint_definition, render_check_constraint_definition};
use podo::definition::ddl::column::{
    parse_column_definition, parse_column_expression, render_column_definition, render_column_expression,
};
use podo::definition::ddl::context::Context;
use podo::definition::ddl::foreignkey::{
    parse_foreign_key_constraint_definition, render_foreign_key_constraint_definition,
};
use podo::definition::ddl::function::{parse_function_definition, render_function_definition};
use podo::definition::ddl::index::{parse_index_definition, render_index_definition};
use podo::definition::ddl::sequence::{parse_sequence_definition, render_sequence_definition};
use podo::definition::ddl::unique::{parse_unique_definition, render_unique_definition};
use podo::definition::ddl::view::{parse_view_definition, render_view_definition};
use podo::definition::defaults;
use podo::snapshot::{Check, Column, ForeignKey, Function, Index, Sequence, Unique, View};

#[test]
fn test_parse_and_render_check_constraint_definition() {
    let node = Node::new("constraint")
        .with_name("test".to_owned())
        .with_nodes(vec![
            Node::new("check").with_string_value("a > 0".to_owned()),
            Node::new("deferrable").with_boolean_value(true),
        ]);
    let def = Check {
        schema_name: "public".to_owned(),
        table_name: "user".to_owned(),
        name: "test".to_owned(),
        expression: "a > 0".to_owned(),
        deferrable: true,
        initially_deferred: false,
    };
    let ctx = Context {
        schema_name: "public".to_owned(),
        table_name: Some("user".to_owned()),
    };
    let got_def = parse_check_constraint_definition("public", "user", &node).unwrap();
    assert_eq!(got_def, def);
    let got_node = render_check_constraint_definition(&ctx, &def);
    assert_eq!(got_node, node);
}

#[test]
fn test_parse_column_expression() {
    assert_eq!(
        parse_column_expression("text").unwrap(),
        ("text".to_string(), false, None)
    );
    assert_eq!(
        parse_column_expression("text!").unwrap(),
        ("text".to_string(), true, None)
    );
    assert_eq!(
        parse_column_expression("text = 'hello!'").unwrap(),
        ("text".to_string(), false, Some("'hello!'".to_string()))
    );
    assert_eq!(
        parse_column_expression("text! = 'hello world!!'").unwrap(),
        ("text".to_string(), true, Some("'hello world!!'".to_string()))
    );
}

#[test]
fn test_render_column_expression() {
    assert_eq!(render_column_expression("text", false, &None), "text".to_string());
    assert_eq!(render_column_expression("text", true, &None), "text!".to_string());
    assert_eq!(
        render_column_expression("text", false, &Some("'hello'".to_string())),
        "text = 'hello'".to_string()
    );
    assert_eq!(
        render_column_expression("text", false, &Some("'hello world!!'".to_string())),
        "text = 'hello world!!'".to_string()
    );
}

#[test]
fn test_parse_and_render_column_definition() {
    let node = Node::new("column")
        .with_name("id".to_owned())
        .with_string_value("integer".to_owned());
    let def = Column {
        schema_name: "public".to_owned(),
        table_name: "user".to_owned(),
        name: "id".to_owned(),
        data_type: "integer".to_owned(),
        default: None,
        not_null: false,
    };
    let ctx = Context {
        schema_name: "public".to_owned(),
        table_name: Some("user".to_owned()),
    };

    let got_def = parse_column_definition("public", "user", &node).unwrap();
    assert_eq!(got_def, def);

    let got_node = render_column_definition(&ctx, &def);
    assert_eq!(got_node, node);
}

#[test]
fn test_parse_and_render_foreign_key_constraint_definition() {
    let node = Node::new("constraint")
        .with_name("test".to_owned())
        .with_nodes(vec![
            Node::new("foreign key").with_string_varargs_value(vec!["a".to_owned(), "b".to_owned()]),
            Node::new("references")
                .with_name("test2".to_owned())
                .with_string_varargs_value(vec!["c".to_owned(), "d".to_owned()]),
            Node::new("deferrable").with_boolean_value(true),
            Node::new("initially deferred").with_boolean_value(true),
            Node::new("match").with_string_value("full".to_owned()),
            Node::new("on update").with_string_value("cascade".to_owned()),
            Node::new("on delete").with_string_value("cascade".to_owned()),
        ]);
    let def = ForeignKey {
        schema_name: "public".to_owned(),
        table_name: "test".to_owned(),
        name: "test".to_owned(),
        columns: vec!["a".to_owned(), "b".to_owned()],
        target_schema: "public".to_owned(),
        target_table: "test2".to_owned(),
        target_columns: vec!["c".to_owned(), "d".to_owned()],
        deferrable: true,
        initially_deferred: true,
        match_option: "full".to_owned(),
        update_rule: "cascade".to_owned(),
        delete_rule: "cascade".to_owned(),
    };
    let ctx = Context {
        schema_name: "public".to_owned(),
        table_name: Some("test".to_owned()),
    };
    let got_def = parse_foreign_key_constraint_definition("public", "test", &node).unwrap();
    assert_eq!(got_def, def);
    let got_node = render_foreign_key_constraint_definition(&ctx, &def);
    assert_eq!(got_node, node);
}

#[test]
fn test_parse_and_render_function_definition() {
    let node = Node::new("function")
        .with_name("myfunc()".to_owned())
        .with_nodes(vec![
            Node::new("as").with_string_value("RETURN 3;".to_owned()),
            Node::new("language").with_string_value("plpgsql".to_owned()),
            Node::new("returns").with_string_value("integer".to_owned()),
            Node::new("volatility").with_string_value("immutable".to_owned()),
        ]);
    let def = Function {
        schema_name: "public".to_owned(),
        name: "myfunc()".to_owned(),
        body: "RETURN 3;".to_owned(),
        language: "plpgsql".to_owned(),
        returns: "integer".to_owned(),
        volatility: "immutable".to_owned(),
    };
    let ctx = Context {
        schema_name: "public".to_owned(),
        table_name: None,
    };
    let got_def = parse_function_definition(&ctx, &node).unwrap();
    assert_eq!(got_def, def);
    let got_node = render_function_definition(&ctx, &def);
    assert_eq!(got_node, node);
}

#[test]
fn test_parse_and_render_index_definition() {
    let node = Node::new("index")
        .with_name("user_id_idx".to_owned())
        .with_nodes(vec![Node::new("on")
            .with_name("users".to_owned())
            .with_string_varargs_value(vec!["user_id".to_owned(), "username".to_owned()])]);
    let def = Index {
        schema_name: "public".to_owned(),
        table_name: "users".to_owned(),
        name: "user_id_idx".to_owned(),
        unique: defaults::get_index_unique(),
        method: defaults::get_default_index_method(),
        key_expressions: vec!["user_id".to_owned(), "username".to_owned()],
    };
    let ctx = Context {
        schema_name: "public".to_owned(),
        table_name: None,
    };
    let got_def = parse_index_definition(&ctx, &node).unwrap();
    assert_eq!(got_def, def);

    let got_node = render_index_definition(&ctx, &def);
    assert_eq!(got_node, node);
}

#[test]
fn test_parse_and_render_sequence_definition() {
    let node = Node::new("sequence")
        .with_name("test".to_owned())
        .with_nodes(vec![
            Node::new("as").with_string_value("int4".to_owned()),
            Node::new("increment").with_number_integer_value(2),
            Node::new("minvalue").with_number_integer_value(0),
            Node::new("maxvalue").with_number_integer_value(100),
            Node::new("start").with_number_integer_value(2),
            Node::new("cache").with_number_integer_value(2),
            Node::new("cycle").with_boolean_value(true),
            Node::new("owned by")
                .with_name("user".to_owned())
                .with_string_value("id".to_owned()),
        ]);
    let def = Sequence {
        schema_name: "public".to_owned(),
        name: "test".to_owned(),
        data_type: "int4".to_owned(),
        increment: 2,
        min_value: 0,
        max_value: 100,
        start: 2,
        cache: 2,
        cycle: true,
        owned_by_table: Some("user".to_owned()),
        owned_by_column: Some("id".to_owned()),
    };
    let ctx = Context {
        schema_name: "public".to_owned(),
        table_name: None,
    };

    let got_def = parse_sequence_definition(&ctx, &node).unwrap();
    assert_eq!(got_def, def);
    let got_node = render_sequence_definition(&ctx, &def);
    assert_eq!(got_node, node);
}

#[test]
fn test_parse_and_render_unique_definition() {
    let node = Node::new("constraint")
        .with_name("user_pkey".to_owned())
        .with_nodes(vec![
            Node::new("unique").with_string_varargs_value(vec!["id".to_owned()]),
            Node::new("deferrable").with_boolean_value(true),
            Node::new("initially deferred").with_boolean_value(true),
        ]);
    let def = Unique {
        schema_name: "public".to_owned(),
        table_name: "user".to_owned(),
        name: "user_pkey".to_owned(),
        columns: vec!["id".to_owned()],
        deferrable: true,
        initially_deferred: true,
    };
    let ctx = Context {
        schema_name: "public".to_owned(),
        table_name: Some("user".to_owned()),
    };
    let got_def = parse_unique_definition("public", "user", &node).unwrap();
    assert_eq!(def, got_def);
    let got_node = render_unique_definition(&ctx, &def);
    assert_eq!(node, got_node);
}

#[test]
fn test_parse_and_render_view_definition() {
    let node = Node::new("view")
        .with_name("userview".to_owned())
        .with_nodes(vec![Node::new("as").with_string_value("select * from users".to_owned())]);
    let def = View {
        schema_name: "public".to_owned(),
        name: "userview".to_owned(),
        query: "select * from users".to_owned(),
    };
    let ctx = Context {
        schema_name: "public".to_owned(),
        table_name: None,
    };
    let got_def = parse_view_definition(&ctx, &node).unwrap();
    assert_eq!(got_def, def);
    let got_node = render_view_definition(&ctx, &def);
    assert_eq!(got_node, node);
}
