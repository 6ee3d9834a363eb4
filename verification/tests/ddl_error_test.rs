use podo::definition::base::node::Node;
use podo::definition::ddl::check::parse_check_constraint_definition;
use podo::definition::ddl::coerce::{coerce_boolean_value, coerce_name, coerce_nodes};
use podo::definition::ddl::context::Context;
use podo::definition::ddl::error::Error;
use podo::definition::ddl::foreignkey::{parse_foreign_key_constraint_definition, parse_table_reference, render_table_reference};
use podo::definition::ddl::view::parse_view_definition;
use podo::definition::load_nodes;
use podo::definition::LoadError;

#[test]
fn test_error_messages() {
    let node = Node::new("view").with_name("v".to_owned());
    assert_eq!(Error::new_unexpected_node(&node).message(), "unexpected node: view v");
    assert_eq!(Error::new_name_required(&Node::new("view")).message(), "name required: view");
    assert_eq!(Error::new_child_nodes_required(&node).message(), "child nodes required: view v");
    assert_eq!(Error::new_attribute_required(&node, "as").message(), "attribute required: view v as");
    assert_eq!(
        Error::new_invalid_type_attribute(&node, "string").message(),
        "invalid type attribute: view v expected string"
    );
    assert_eq!(Error::new_invalid_type_expression("=".to_owned()).message(), "invalid type expression: =");
    assert_eq!(Error::new_invalid_table_reference("a.b.c".to_owned()).message(), "invalid table reference: a.b.c");
    assert_eq!(Error::new_invalid_column_reference("x".to_owned()).message(), "invalid column reference: x");
    let nested = Error::new_has_errors(
        &node,
        vec![Error::new_name_required(&Node::new("as")), Error::new_unexpected_node(&Node::new("cycle"))],
    );
    assert_eq!(nested.message(), "has errors: view v\n  name required: as\n  unexpected node: cycle");
}

#[test]
fn test_coerce_errors() {
    let node = Node::new("deferrable").with_string_value("yes".to_owned());
    assert_eq!(
        coerce_boolean_value(&node),
        Err(Error::InvalidTypeAttribute { node_display_string: "deferrable".to_owned(), expected: "boolean" })
    );
    assert_eq!(coerce_name(&node), Err(Error::NameRequired { node_display_string: "deferrable".to_owned() }));
    assert!(matches!(coerce_nodes(&node), Err(Error::ChildNodesRequired { .. })));
}

#[test]
fn test_view_without_query_is_refused() {
    let node = Node::new("view").with_name("v".to_owned()).with_nodes(vec![]);
    let ctx = Context::new("public".to_owned());
    match parse_view_definition(&ctx, &node).unwrap_err() {
        Error::HasErrors { errors, .. } => {
            assert_eq!(errors, vec![Error::AttributeRequired { node_display_string: "view v".to_owned(), attribute: "as" }]);
        }
        other => panic!("unexpected error: {:?}", other),
    }
}

#[test]
fn test_check_with_a_wrong_value_is_refused() {
    let node = Node::new("constraint")
        .with_name("c".to_owned())
        .with_nodes(vec![Node::new("check").with_boolean_value(true)]);
    assert!(matches!(parse_check_constraint_definition("public", "t", &node), Err(Error::HasErrors { .. })));
}

#[test]
fn test_table_references() {
    assert_eq!(parse_table_reference("public", "users").unwrap(), ("public".to_owned(), "users".to_owned()));
    assert_eq!(parse_table_reference("public", "app.users").unwrap(), ("app".to_owned(), "users".to_owned()));
    assert_eq!(
        parse_table_reference("public", "a.b.c").unwrap_err(),
        Error::InvalidTableReference { table_reference: "a.b.c".to_owned() }
    );
    let ctx = Context::new("public".to_owned());
    assert_eq!(render_table_reference(&ctx, "public", "users"), "users");
    assert_eq!(render_table_reference(&ctx, "app", "users"), "app.users");
}

#[test]
fn test_foreign_key_with_a_bad_reference_is_refused() {
    let node = Node::new("constraint").with_name("fk".to_owned()).with_nodes(vec![
        Node::new("foreign key").with_string_varargs_value(vec!["a".to_owned()]),
        Node::new("references").with_name("x.y.z".to_owned()).with_string_varargs_value(vec!["b".to_owned()]),
    ]);
    match parse_foreign_key_constraint_definition("public", "t", &node).unwrap_err() {
        Error::HasErrors { errors, .. } => {
            assert!(errors.contains(&Error::InvalidTableReference { table_reference: "x.y.z".to_owned() }));
        }
        other => panic!("unexpected error: {:?}", other),
    }
}

#[test]
fn test_load_reports_a_definition_error() {
    let nodes = vec![Node::new("schema").with_nodes(vec![])];
    match load_nodes(&nodes) {
        Err(LoadError::Definition(Error::NameRequired { node_display_string })) => {
            assert_eq!(node_display_string, "schema");
        }
        other => panic!("unexpected result: {:?}", other),
    }
}
