use podo::definition::base::node::{Node, NodeChild, Number, Value};
use podo::definition::base::yaml::{
    create_node_from_mapping_key, try_create_node_from_mapping_key, mapping_readable, node_from_mapping_key, parse_mapping_to_nodes, try_parse_mapping_to_nodes, render_nodes_to_mapping, YamlNumber, YamlValue,
};

static YAML: &str = r#"view userview:
  column id: uuid
  column name: text
  column created at: timestamp with time zone
  as: SELECT id, name, "created at" from user
  column null_test: null
"#;

fn from_serde(v: &serde_yaml::Value) -> YamlValue {
    match v {
        serde_yaml::Value::Null => YamlValue::Null,
        serde_yaml::Value::Bool(b) => YamlValue::Bool(*b),
        serde_yaml::Value::Number(n) => {
            if n.is_f64() {
                YamlValue::Number(YamlNumber::Float(n.as_f64().unwrap().to_bits()))
            } else if n.is_i64() {
                YamlValue::Number(YamlNumber::Integer(n.as_i64().unwrap()))
            } else {
                YamlValue::Number(YamlNumber::Unsigned(n.as_u64().unwrap()))
            }
        }
        serde_yaml::Value::String(s) => YamlValue::String(s.clone()),
        serde_yaml::Value::Sequence(vs) => YamlValue::Sequence(vs.iter().map(from_serde).collect()),
        serde_yaml::Value::Mapping(m) => {
            YamlValue::Mapping(m.iter().map(|(k, v)| (from_serde(k), from_serde(v))).collect())
        }
        serde_yaml::Value::Tagged(_) => YamlValue::Tagged,
    }
}

fn to_serde(v: &YamlValue) -> serde_yaml::Value {
    match v {
        YamlValue::Null => serde_yaml::Value::Null,
        YamlValue::Bool(b) => serde_yaml::Value::Bool(*b),
        YamlValue::Number(YamlNumber::Integer(i)) => serde_yaml::Value::Number((*i).into()),
        YamlValue::Number(YamlNumber::Unsigned(u)) => serde_yaml::Value::Number((*u).into()),
        YamlValue::Number(YamlNumber::Float(b)) => serde_yaml::Value::Number(f64::from_bits(*b).into()),
        YamlValue::String(s) => serde_yaml::Value::String(s.clone()),
        YamlValue::Sequence(vs) => serde_yaml::Value::Sequence(vs.iter().map(to_serde).collect()),
        YamlValue::Mapping(es) => {
            let mut m = serde_yaml::Mapping::new();
            for (k, v) in es {
                m.insert(to_serde(k), to_serde(v));
            }
            serde_yaml::Value::Mapping(m)
        }
        YamlValue::Tagged => serde_yaml::Value::Null,
    }
}

fn entries_of(v: YamlValue) -> Vec<(YamlValue, YamlValue)> {
    match v {
        YamlValue::Mapping(es) => es,
        _ => panic!("not a mapping"),
    }
}

#[test]
fn test_parse_yaml_to_nodes() {
    let mapping: serde_yaml::Value = serde_yaml::from_str(YAML).unwrap();
    let got = parse_mapping_to_nodes(&entries_of(from_serde(&mapping))).unwrap();

    assert_eq!(
        got,
        vec![Node {
            typ: "view",
            name: Some("userview".to_string()),
            child: Some(NodeChild::Nodes(vec![
                Node {
                    typ: "column",
                    name: Some("id".to_string()),
                    child: Some(NodeChild::Value(Value::String("uuid".to_string()))),
                },
                Node {
                    typ: "column",
                    name: Some("name".to_string()),
                    child: Some(NodeChild::Value(Value::String("text".to_string()))),
                },
                Node {
                    typ: "column",
                    name: Some("created at".to_string()),
                    child: Some(NodeChild::Value(Value::String("timestamp with time zone".to_string()))),
                },
                Node {
                    typ: "as",
                    name: None,
                    child: Some(NodeChild::Value(Value::String(
                        "SELECT id, name, \"created at\" from user".to_string()
                    ))),
                },
                Node {
                    typ: "column",
                    name: Some("null_test".to_string()),
                    child: None,
                }
            ]))
        }]
    )
}

#[test]
fn test_render_nodes_to_yaml() {
    let nodes = vec![Node {
        typ: "view",
        name: Some("userview".to_string()),
        child: Some(NodeChild::Nodes(vec![
            Node {
                typ: "column",
                name: Some("id".to_string()),
                child: Some(NodeChild::Value(Value::String("uuid".to_string()))),
            },
            Node {
                typ: "column",
                name: Some("name".to_string()),
                child: Some(NodeChild::Value(Value::String("text".to_string()))),
            },
            Node {
                typ: "column",
                name: Some("created at".to_string()),
                child: Some(NodeChild::Value(Value::String("timestamp with time zone".to_string()))),
            },
            Node {
                typ: "as",
                name: None,
                child: Some(NodeChild::Value(Value::String(
                    "SELECT id, name, \"created at\" from user".to_string(),
                ))),
            },
            Node {
                typ: "column",
                name: Some("null_test".to_string()),
                child: None,
            },
        ])),
    }];

    let mapping = render_nodes_to_mapping(&nodes);
    let got = serde_yaml::to_string(&to_serde(&mapping)).unwrap();

    assert_eq!(got, YAML);
}

#[test]
fn test_key_is_matched_without_case() {
    let node = create_node_from_mapping_key("COLUMN Id").unwrap();
    assert_eq!(node.typ, "column");
    assert_eq!(node.name, Some("Id".to_string()));
    let node = create_node_from_mapping_key("Primary Key").unwrap();
    assert_eq!(node.typ, "primary key");
    assert_eq!(node.name, None);
}

#[test]
fn test_key_takes_the_first_keyword() {
    let node = create_node_from_mapping_key("on delete").unwrap();
    assert_eq!(node.typ, "on delete");
    assert_eq!(node.name, None);
    let node = create_node_from_mapping_key("on users").unwrap();
    assert_eq!(node.typ, "on");
    assert_eq!(node.name, Some("users".to_string()));
    let node = create_node_from_mapping_key("tablex").unwrap();
    assert_eq!(node.typ, "table");
    assert_eq!(node.name, Some("x".to_string()));
}

#[test]
fn test_key_without_keyword_is_refused() {
    let err = create_node_from_mapping_key("nothing here").unwrap_err();
    assert_eq!(err.message, "Invalid key: nothing here");
    let err = create_node_from_mapping_key("").unwrap_err();
    assert_eq!(err.message, "Invalid key: ");
}

#[test]
fn test_invalid_yaml_values() {
    let entries = vec![(YamlValue::Number(YamlNumber::Integer(1)), YamlValue::Null)];
    assert_eq!(parse_mapping_to_nodes(&entries).unwrap_err().message, "Invalid key: not a string");
    let entries = vec![(YamlValue::String("cache".to_string()), YamlValue::Tagged)];
    assert_eq!(
        parse_mapping_to_nodes(&entries).unwrap_err().message,
        "Invalid value: not a string, number, boolean or list"
    );
    let entries = vec![(
        YamlValue::String("cache".to_string()),
        YamlValue::Number(YamlNumber::Unsigned(u64::MAX)),
    )];
    assert_eq!(
        parse_mapping_to_nodes(&entries).unwrap_err().message,
        "Invalid number: out of the range of a 64-bit integer"
    );
    let entries = vec![(
        YamlValue::String("unique".to_string()),
        YamlValue::Sequence(vec![YamlValue::String("a".to_string()), YamlValue::Null]),
    )];
    assert_eq!(
        parse_mapping_to_nodes(&entries).unwrap_err().message,
        "Invalid value: not a string, number, boolean or list"
    );
}

#[test]
fn test_yaml_values_become_node_values() {
    let yaml = "sequence s:\n  cache: 3\n  cycle: true\n  minvalue: -2\n  start: 1.5\n  unique: [a, b]\n";
    let mapping: serde_yaml::Value = serde_yaml::from_str(yaml).unwrap();
    let got = parse_mapping_to_nodes(&entries_of(from_serde(&mapping))).unwrap();
    assert_eq!(
        got,
        vec![Node {
            typ: "sequence",
            name: Some("s".to_string()),
            child: Some(NodeChild::Nodes(vec![
                Node::new("cache").with_number_integer_value(3),
                Node::new("cycle").with_boolean_value(true),
                Node::new("minvalue").with_number_integer_value(-2),
                Node {
                    typ: "start",
                    name: None,
                    child: Some(NodeChild::Value(Value::Number(Number::Float(1.5f64.to_bits())))),
                },
                Node::new("unique").with_string_varargs_value(vec!["a".to_string(), "b".to_string()]),
            ])),
        }]
    );
}

#[test]
fn test_render_replaces_a_repeated_key_in_place() {
    let nodes = vec![
        Node::new("column").with_name("a".to_string()).with_string_value("text".to_string()),
        Node::new("column").with_name("b".to_string()).with_string_value("int".to_string()),
        Node::new("column").with_name("a".to_string()).with_string_value("uuid".to_string()),
    ];
    let got = render_nodes_to_mapping(&nodes);
    assert_eq!(
        got,
        YamlValue::Mapping(vec![
            (YamlValue::String("column a".to_string()), YamlValue::String("uuid".to_string())),
            (YamlValue::String("column b".to_string()), YamlValue::String("int".to_string())),
        ])
    );
}

#[test]
fn test_node_from_lowered_key() {
    let node = node_from_mapping_key("Owned By users", "owned by users").unwrap();
    assert_eq!(node.typ, "owned by");
    assert_eq!(node.name, Some("users".to_string()));
    assert_eq!(node_from_mapping_key("x", "x").unwrap_err().message, "Invalid key: x");
}

#[test]
fn test_key_is_cut_after_as_many_bytes_as_the_keyword_has() {
    let node = create_node_from_mapping_key("foreign \u{212A}ey").unwrap();
    assert_eq!(node.typ, "foreign key");
    assert_eq!(node.name, Some("ey".to_string()));
}

#[test]
fn test_key_cut_inside_a_character_is_not_readable() {
    let key = "chec\u{212A} x";
    assert!(try_create_node_from_mapping_key(key).is_none());
    let entries = vec![(YamlValue::String(key.to_string()), YamlValue::Null)];
    assert!(!mapping_readable(&entries));
    let node = try_create_node_from_mapping_key("Table t").unwrap().unwrap();
    assert_eq!(node.typ, "table");
    assert_eq!(node.name, Some("t".to_string()));
    let err = try_create_node_from_mapping_key("nothing").unwrap().unwrap_err();
    assert_eq!(err.message, "Invalid key: nothing");
}

#[test]
fn test_mapping_in_a_list_is_not_readable() {
    let entries = vec![(
        YamlValue::String("unique".to_string()),
        YamlValue::Sequence(vec![YamlValue::Mapping(vec![])]),
    )];
    assert!(!mapping_readable(&entries));
    let entries = vec![(
        YamlValue::String("table t".to_string()),
        YamlValue::Mapping(vec![(YamlValue::String("column a".to_string()), YamlValue::String("int".to_string()))]),
    )];
    assert!(mapping_readable(&entries));
}

#[test]
fn test_nodes_written_and_read_back_are_the_same() {
    let nodes = vec![Node::new("schema").with_name("public".to_string()).with_nodes(vec![
        Node::new("table").with_name("user".to_string()).with_nodes(vec![
            Node::new("column").with_name("id".to_string()).with_string_value("integer!".to_string()),
            Node::new("constraint").with_name("user_pkey".to_string()).with_nodes(vec![
                Node::new("primary key").with_string_varargs_value(vec!["id".to_string()]),
                Node::new("deferrable").with_boolean_value(true),
            ]),
        ]),
        Node::new("sequence").with_name("s".to_string()).with_nodes(vec![
            Node::new("cache").with_number_integer_value(2),
            Node::new("cycle"),
        ]),
    ])];
    let entries = entries_of(render_nodes_to_mapping(&nodes));
    assert_eq!(parse_mapping_to_nodes(&entries).unwrap(), nodes);
    let text = serde_yaml::to_string(&to_serde(&YamlValue::Mapping(entries))).unwrap();
    let back: serde_yaml::Value = serde_yaml::from_str(&text).unwrap();
    assert_eq!(parse_mapping_to_nodes(&entries_of(from_serde(&back))).unwrap(), nodes);
}

#[test]
fn test_increment_is_not_a_keyword() {
    let err = create_node_from_mapping_key("increment").unwrap_err();
    assert_eq!(err.message, "Invalid key: increment");
}

#[test]
fn test_try_parse_mapping_tests_before_reading() {
    let entries = vec![(YamlValue::String("chec\u{212A} x".to_string()), YamlValue::Null)];
    assert!(try_parse_mapping_to_nodes(&entries).is_none());
    let entries = vec![(YamlValue::String("unique".to_string()), YamlValue::Sequence(vec![YamlValue::Mapping(vec![])]))];
    assert!(try_parse_mapping_to_nodes(&entries).is_none());
    let entries = vec![(YamlValue::String("Column id".to_string()), YamlValue::String("uuid".to_string()))];
    let nodes = try_parse_mapping_to_nodes(&entries).unwrap().unwrap();
    assert_eq!(nodes, vec![Node::new("column").with_name("id".to_string()).with_string_value("uuid".to_string())]);
    let entries = vec![(YamlValue::String("nothing".to_string()), YamlValue::Null)];
    let err = try_parse_mapping_to_nodes(&entries).unwrap().unwrap_err();
    assert_eq!(err.message, "Invalid key: nothing");
}
