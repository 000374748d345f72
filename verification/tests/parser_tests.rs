use c4model::file::{FileContext, SourceFile};
use c4model::parser::{ManifestError, ParseError, Parser};
use c4model::validate::{validate_workspace, ValidationError, ValidationStats};
use c4model::yaml::Yaml;

fn s(v: &str) -> Yaml {
    Yaml::Str(v.to_string())
}

fn entry(k: &str, v: Yaml) -> (String, Yaml) {
    (k.to_string(), v)
}

fn dict(entries: Vec<(String, Yaml)>) -> Yaml {
    Yaml::Dict(entries)
}

fn list(items: Vec<Yaml>) -> Yaml {
    Yaml::List(items)
}

fn manifest_doc(version: &str, name: &str, patterns: Vec<&str>) -> Yaml {
    dict(vec![
        entry("version", s(version)),
        entry("name", s(name)),
        entry("include", list(patterns.into_iter().map(s).collect())),
    ])
}

fn person_doc(id: &str, name: &str) -> Yaml {
    dict(vec![entry("id", s(id)), entry("name", s(name))])
}

fn system_doc(id: &str, name: &str) -> Yaml {
    dict(vec![entry("id", s(id)), entry("name", s(name)), entry("type", s("system"))])
}

fn loaded(path: &str, doc: Yaml) -> SourceFile {
    SourceFile { path: path.to_string(), doc: Ok(doc) }
}

#[test]
fn test_file_context_creation() {
    let ctx = FileContext::new("/path/to/file.yaml".to_string());
    assert_eq!(ctx.file_path, "/path/to/file.yaml");
    assert_eq!(ctx.system_id, "");
    assert_eq!(ctx.container, "");
}

#[test]
fn test_file_context_with_system_id() {
    let ctx = FileContext::new("/path/to/file.yaml".to_string()).with_system_id("api".to_string());
    assert_eq!(ctx.system_id, "api");
}

#[test]
fn test_file_context_with_container() {
    let ctx = FileContext::new("/path/to/file.yaml".to_string())
        .with_system_id("api".to_string())
        .with_container("backend".to_string());
    assert_eq!(ctx.system_id, "api");
    assert_eq!(ctx.container, "backend");
}

#[test]
fn file_tests_test_file_context_creation() {
    let ctx = FileContext::new("model.yaml".to_string());
    assert_eq!(ctx.file_path, "model.yaml");
    assert_eq!(ctx.system_id, "");
}

#[test]
fn test_file_context_from_systems_path() {
    let parser = Parser::new("/ws");
    let ctx = parser.context_from_path("/ws/systems/api/containers.yaml");
    assert_eq!(ctx.system_id, "api");
}

#[test]
fn test_file_context_no_system() {
    let parser = Parser::new("/ws");
    let ctx = parser.context_from_path("/ws/data/model.yaml");
    assert_eq!(ctx.system_id, "");
}

#[test]
fn test_parser_load_mod_file() {
    let mut parser = Parser::new("/ws");
    let doc = Ok(manifest_doc("1.0", "test-workspace", vec!["data/*.yaml"]));
    assert!(parser.load_mod_file(&doc).is_ok());
    let mod_file = parser.get_mod_file().unwrap();
    assert_eq!(mod_file.version, "1.0");
    assert_eq!(mod_file.name, "test-workspace");
    assert_eq!(mod_file.patterns, vec!["data/*.yaml".to_string()]);
}

#[test]
fn test_parser_load_mod_file_unreadable() {
    let mut parser = Parser::new("/ws");
    let doc = Err("Failed to read mod file: \"/ws/c4.mod.yaml\"".to_string());
    match parser.load_mod_file(&doc) {
        Err(ManifestError::Unreadable(m)) => assert!(m.contains("Failed to read mod file")),
        _ => panic!("expected an unreadable manifest error"),
    }
}

#[test]
fn test_parser_load_mod_file_invalid_shape() {
    let mut parser = Parser::new("/ws");
    let doc = Ok(dict(vec![entry("version", Yaml::Int(1))]));
    match parser.load_mod_file(&doc) {
        Err(ManifestError::Invalid) => {},
        _ => panic!("expected an invalid manifest error"),
    }
}

#[test]
fn test_parser_load_mod_file_missing_required_fields() {
    let mut parser = Parser::new("/ws");
    let doc = Ok(dict(vec![entry("version", s("1.0")), entry("name", s(""))]));
    match parser.load_mod_file(&doc) {
        Err(ManifestError::MissingName) => {},
        _ => panic!("expected a missing name error"),
    }
    let doc2 = Ok(dict(vec![entry("version", s("")), entry("name", s("x"))]));
    match parser.load_mod_file(&doc2) {
        Err(ManifestError::MissingVersion) => {},
        _ => panic!("expected a missing version error"),
    }
}

#[test]
fn test_parser_parse_complete() {
    let mut parser = Parser::new("/ws");
    let doc = Ok(manifest_doc("1.0", "test-workspace", vec!["data/*.yaml"]));
    parser.load_mod_file(&doc).unwrap();
    let files = vec![loaded(
        "/ws/data/model.yaml",
        dict(vec![
            entry("persons", list(vec![person_doc("user", "End User")])),
            entry("systems", list(vec![system_doc("api", "API System")])),
        ]),
    )];
    let model = parser.parse(&files).unwrap();
    assert_eq!(model.persons.len(), 1);
    assert_eq!(model.systems.len(), 1);
}

#[test]
fn test_parser_parse_requires_manifest() {
    let mut parser = Parser::new("/ws");
    match parser.parse(&Vec::new()) {
        Err(ParseError::NotLoaded) => {},
        _ => panic!("expected a not-loaded error"),
    }
}

#[test]
fn test_parse_no_matching_files_gives_empty_model() {
    let mut parser = Parser::new("/ws");
    let doc = Ok(manifest_doc("1.0", "empty-workspace", vec!["data/*.yaml"]));
    parser.load_mod_file(&doc).unwrap();
    let model = parser.parse(&Vec::new()).unwrap();
    assert_eq!(model.persons.len(), 0);
    assert_eq!(model.systems.len(), 0);
    assert_eq!(model.containers.len(), 0);
    assert_eq!(model.components.len(), 0);
    assert_eq!(model.relationships.len(), 0);
    assert_eq!(model.flows.len(), 0);
    assert_eq!(model.deployments.len(), 0);
}

#[test]
fn test_parse_duplicate_across_files_fails() {
    let mut parser = Parser::new("/ws");
    let doc = Ok(manifest_doc("1.0", "ws", vec!["**/*.yaml"]));
    parser.load_mod_file(&doc).unwrap();
    let files = vec![
        loaded("/ws/a.yaml", dict(vec![entry("systems", list(vec![system_doc("api", "A")]))])),
        loaded("/ws/b.yaml", dict(vec![entry("systems", list(vec![system_doc("api", "B")]))])),
    ];
    match parser.parse(&files) {
        Err(ParseError::Duplicate(path)) => assert_eq!(path, "api"),
        _ => panic!("expected a duplicate element error"),
    }
}

#[test]
fn test_parse_collects_fragment_errors() {
    let mut parser = Parser::new("/ws");
    let doc = Ok(manifest_doc("1.0", "ws", vec!["**/*.yaml"]));
    parser.load_mod_file(&doc).unwrap();
    let files = vec![
        loaded("/ws/bad.yaml", list(vec![])),
        SourceFile {
            path: "/ws/gone.yaml".to_string(),
            doc: Err("Failed to read data file: \"/ws/gone.yaml\"".to_string()),
        },
    ];
    match parser.parse(&files) {
        Err(ParseError::Fragments { count }) => assert_eq!(count, 2),
        _ => panic!("expected collected fragment errors"),
    }
    assert_eq!(parser.errors().len(), 2);
    assert!(parser.errors()[0].message.contains("Invalid YAML in data file"));
    assert!(parser.errors()[1].message.contains("Failed to read data file"));
}

#[test]
fn test_parse_infers_system_context() {
    let mut parser = Parser::new("/ws");
    let doc = Ok(manifest_doc("1.0", "ws", vec!["systems/**/*.yaml"]));
    parser.load_mod_file(&doc).unwrap();
    let files = vec![
        loaded("/ws/systems/api/model.yaml", dict(vec![
            entry("systems", list(vec![system_doc("api", "API")])),
            entry("containers", list(vec![dict(vec![
                entry("id", s("web")),
                entry("name", s("Web")),
            ])])),
        ])),
    ];
    let model = parser.parse(&files).unwrap();
    assert_eq!(model.containers.len(), 1);
    assert_eq!(model.containers[0].system_id, "api");
    assert_eq!(model.containers[0].get_full_path(), "api.web");
}

#[test]
fn test_parse_drops_container_without_context() {
    let mut parser = Parser::new("/ws");
    let doc = Ok(manifest_doc("1.0", "ws", vec!["data/*.yaml"]));
    parser.load_mod_file(&doc).unwrap();
    let files = vec![loaded("/ws/data/model.yaml", dict(vec![
        entry("containers", list(vec![dict(vec![
            entry("id", s("web")),
            entry("name", s("Web")),
        ])])),
    ]))];
    match parser.parse(&files) {
        Err(ParseError::Fragments { count }) => assert_eq!(count, 1),
        _ => panic!("expected a fragment error"),
    }
    assert!(parser.errors()[0].message.contains("has no system context"));
}

#[test]
fn test_parse_error_messages() {
    assert_eq!(ParseError::NotLoaded.message(), "parser not initialized");
    assert_eq!(
        ParseError::Fragments { count: 3 }.message(),
        "Parse errors: 3 errors encountered"
    );
    assert_eq!(
        ParseError::Duplicate("api".to_string()).message(),
        "duplicate element ID: api"
    );
    assert_eq!(ManifestError::Invalid.message(), "Invalid YAML in mod file");
    assert_eq!(
        ManifestError::MissingVersion.message(),
        "Missing version field in mod file"
    );
    assert_eq!(ManifestError::MissingName.message(), "Missing name field in mod file");
}

#[test]
fn test_validation_error_display() {
    let error = ValidationError {
        message: "test error".to_string(),
        file: Some("test.yaml".to_string()),
        line: Some(42),
    };
    assert_eq!(error.display(), "test.yaml:42: test error");
}

#[test]
fn test_validation_error_display_no_line() {
    let error = ValidationError {
        message: "test error".to_string(),
        file: Some("test.yaml".to_string()),
        line: None,
    };
    assert_eq!(error.display(), "test.yaml: test error");
}

#[test]
fn test_validation_error_display_no_file() {
    let error = ValidationError { message: "test error".to_string(), file: None, line: None };
    assert_eq!(error.display(), "test error");
}

#[test]
fn test_validation_stats_default() {
    let stats = ValidationStats::default();
    assert_eq!(stats.persons, 0);
    assert_eq!(stats.systems, 0);
    assert_eq!(stats.containers, 0);
    assert_eq!(stats.components, 0);
    assert_eq!(stats.relationships, 0);
    assert_eq!(stats.flows, 0);
    assert_eq!(stats.deployments, 0);
}

#[test]
fn test_validation_result_struct() {
    let doc = Ok(manifest_doc("1.0", "ws", vec!["data/*.yaml"]));
    let files = vec![loaded("/ws/data/model.yaml", dict(vec![
        entry("persons", list(vec![person_doc("user", "User")])),
        entry("systems", list(vec![system_doc("api", "API")])),
    ]))];
    let result = validate_workspace("/ws", &doc, &files);
    assert!(result.valid);
    assert!(result.errors.is_empty());
    assert!(result.warnings.is_empty());
    assert_eq!(result.stats.persons, 1);
    assert_eq!(result.stats.systems, 1);
}

#[test]
fn test_validation_stats_struct() {
    let stats = ValidationStats {
        persons: 1,
        systems: 2,
        containers: 3,
        components: 4,
        relationships: 5,
        flows: 6,
        deployments: 7,
    };
    assert_eq!(stats.persons, 1);
    assert_eq!(stats.deployments, 7);
}

#[test]
fn test_validate_workspace_bad_manifest() {
    let doc = Ok(dict(vec![entry("name", s("ws"))]));
    let result = validate_workspace("/ws", &doc, &Vec::new());
    assert!(!result.valid);
    assert_eq!(result.errors.len(), 1);
    assert_eq!(result.stats, ValidationStats::default());
}

#[test]
fn test_validate_workspace_reports_unresolved() {
    let doc = Ok(manifest_doc("1.0", "ws", vec!["data/*.yaml"]));
    let files = vec![loaded("/ws/data/model.yaml", dict(vec![
        entry("persons", list(vec![person_doc("user", "User")])),
        entry("relationships", list(vec![dict(vec![
            entry("from", s("user")),
            entry("to", s("ghost")),
        ])])),
    ]))];
    let result = validate_workspace("/ws", &doc, &files);
    assert!(!result.valid);
    assert_eq!(result.errors.len(), 1);
    assert!(result.errors[0].message.contains("ghost"));
}
