use podo::path::join_path;
use podo::util::expand::expand_envvar;
use podo::project::{create_base_yaml_project, Project, ProjectError, YAMLProject, YAMLProjectProfile};
use std::path::Path;

fn project() -> Project {
    let yaml = YAMLProject {
        profiles: vec![
            (
                "database".to_owned(),
                YAMLProjectProfile {
                    database_url: "postgresql://localhost/app".to_owned(),
                    history: "db/history".to_owned(),
                    definitions: "/abs/definitions".to_owned(),
                    metadata_schema: "meta".to_owned(),
                },
            ),
            (
                "prod".to_owned(),
                YAMLProjectProfile {
                    database_url: "postgresql://prod/app".to_owned(),
                    history: "h".to_owned(),
                    definitions: "d".to_owned(),
                    metadata_schema: "prod_meta".to_owned(),
                },
            ),
        ],
    };
    Project::load_project_from_yaml("/home/me/app".to_owned(), &yaml)
}

#[test]
fn test_profiles_are_resolved() {
    let p = project();
    assert_eq!(p.base_dir(), "/home/me/app");
    assert_eq!(p.resolve_database_url("prod").unwrap(), "postgresql://prod/app");
    assert_eq!(p.resolve_history_dir("database").unwrap(), "/home/me/app/db/history");
    assert_eq!(p.resolve_definitions_dir("database").unwrap(), "/abs/definitions");
    assert_eq!(p.resolve_default_history_dir().unwrap(), "/home/me/app/db/history");
    assert_eq!(p.resolve_default_definitions_dir().unwrap(), "/abs/definitions");
    assert_eq!(p.resolve_metadata_schema("prod").unwrap(), "prod_meta");
}

#[test]
fn test_unknown_profile_is_refused() {
    let p = project();
    let err = p.resolve_database_url("staging").unwrap_err();
    assert_eq!(err, ProjectError::ProfileNotFound { profile_name: "staging".to_owned() });
    assert_eq!(err.message(), "profile not found: staging");
    assert_eq!(
        ProjectError::ProjectNotFound { current_dir: "/".to_owned() }.message(),
        "project not found in directory tree: /"
    );
}

#[test]
fn test_base_project_file() {
    let y = create_base_yaml_project();
    assert_eq!(y.profiles.len(), 1);
    assert_eq!(y.profiles[0].0, "database");
    assert_eq!(y.profiles[0].1.database_url, "postgresql://localhost:5432/postgres");
    assert_eq!(y.profiles[0].1.history, "database/history");
    assert_eq!(y.profiles[0].1.definitions, "database/definitions");
    assert_eq!(y.profiles[0].1.metadata_schema, "podo_meta");
}

#[test]
fn test_join_path_agrees_with_path_join() {
    let cases = [
        ("/home/me", "db"),
        ("/home/me/", "db"),
        ("", "db"),
        ("/home/me", "/abs"),
        ("rel", "a/b"),
        ("rel", ""),
        ("/", "x"),
    ];
    for (base, path) in cases {
        let expected = Path::new(base).join(path).to_string_lossy().to_string();
        assert_eq!(join_path(base, path), expected, "joining {:?} and {:?}", base, path);
    }
}

fn env() -> Vec<(String, String)> {
    vec![
        ("HOME".to_owned(), "/home/me".to_owned()),
        ("DB_URL".to_owned(), "postgresql://db/app".to_owned()),
        ("HOME".to_owned(), "/other".to_owned()),
    ]
}

#[test]
fn test_expand_envvar_replaces_set_variables() {
    assert_eq!(expand_envvar("$HOME/history", &env()), "/home/me/history");
    assert_eq!(expand_envvar("${HOME}/history", &env()), "/home/me/history");
    assert_eq!(expand_envvar("${DB_URL}", &env()), "postgresql://db/app");
    assert_eq!(expand_envvar("a${HOME}b$HOME", &env()), "a/home/meb/home/me");
}

#[test]
fn test_expand_envvar_keeps_what_it_cannot_replace() {
    assert_eq!(expand_envvar("$UNSET/x", &env()), "$UNSET/x");
    assert_eq!(expand_envvar("${HOME", &env()), "${HOME");
    assert_eq!(expand_envvar("$", &env()), "$");
    assert_eq!(expand_envvar("${}", &env()), "${}");
    assert_eq!(expand_envvar("$$HOME", &env()), "$/home/me");
    assert_eq!(expand_envvar("plain", &env()), "plain");
    assert_eq!(expand_envvar("", &env()), "");
    assert_eq!(expand_envvar("$HOME.x", &vec![]), "$HOME.x");
}

#[test]
fn test_str_eq_compares_characters() {
    assert!(podo::text::str_eq("abc", "abc"));
    assert!(!podo::text::str_eq("abc", "abd"));
    assert!(!podo::text::str_eq("abc", "ab"));
    assert!(podo::text::str_eq("", ""));
}

#[test]
fn test_load_project_with_env_expands_profile_fields() {
    let yaml = YAMLProject {
        profiles: vec![(
            "database".to_owned(),
            YAMLProjectProfile {
                database_url: "${DB_URL}".to_owned(),
                history: "$HOME/history".to_owned(),
                definitions: "defs/$UNSET".to_owned(),
                metadata_schema: "$HOME".to_owned(),
            },
        )],
    };
    let project = Project::load_project_with_env("/base".to_owned(), &yaml, &env());
    assert_eq!(project.resolve_database_url("database").unwrap(), "postgresql://db/app");
    assert_eq!(project.resolve_history_dir("database").unwrap(), "/home/me/history");
    assert_eq!(project.resolve_definitions_dir("database").unwrap(), "/base/defs/$UNSET");
    assert_eq!(project.resolve_metadata_schema("database").unwrap(), "$HOME");
}
