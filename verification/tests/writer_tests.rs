use c4model::codec::data_file_from_yaml;
use c4model::file::SourceFile;
use c4model::parser::Parser;
use c4model::types::ElementType;
use c4model::writer::{
    contains_element, is_target_element, update_element_node, Writer, WriterError,
};
use c4model::yaml::Yaml;

fn s(v: &str) -> Yaml {
    Yaml::Str(v.to_string())
}

fn entry(k: &str, v: Yaml) -> (String, Yaml) {
    (k.to_string(), v)
}

fn dict(entries: Vec<(String, Yaml)>) -> Yaml {
    Yaml::Dict(entries)
}

fn list(items: Vec<Yaml>) -> Yaml {
    Yaml::List(items)
}

fn manifest_doc() -> Yaml {
    dict(vec![
        entry("version", s("1.0")),
        entry("name", s("test-workspace")),
        entry("include", list(vec![s("data/*.yaml")])),
    ])
}

/// The workspace's one data file: a person `user` and a system `api`.
fn data_doc() -> Yaml {
    dict(vec![
        entry(
            "persons",
            list(vec![dict(vec![
                entry("id", s("user")),
                entry("name", s("End User")),
                entry("description", s("User of the system")),
                entry("tags", list(vec![s("external")])),
            ])]),
        ),
        entry(
            "systems",
            list(vec![dict(vec![
                entry("id", s("api")),
                entry("name", s("API System")),
                entry("description", s("Backend API")),
                entry("technology", s("Node.js")),
            ])]),
        ),
    ])
}

fn workspace_files() -> Vec<SourceFile> {
    vec![SourceFile { path: "/ws/data/model.yaml".to_string(), doc: Ok(data_doc()) }]
}

fn loaded_parser() -> Parser {
    let mut parser = Parser::new("/ws");
    parser.load_mod_file(&Ok(manifest_doc())).unwrap();
    parser
}

fn get_str<'a>(doc: &'a Yaml, collection: &str, id: &str, field: &str) -> Option<&'a str> {
    let entries = match doc {
        Yaml::Dict(entries) => entries,
        _ => return None,
    };
    let items = entries.iter().find(|(k, _)| k == collection)?;
    let items = match &items.1 {
        Yaml::List(items) => items,
        _ => return None,
    };
    for item in items {
        if let Yaml::Dict(fields) = item {
            let matches_id = fields
                .iter()
                .any(|(k, v)| k == "id" && matches!(v, Yaml::Str(x) if x == id));
            if matches_id {
                let value = fields.iter().find(|(k, _)| k == field)?;
                if let Yaml::Str(x) = &value.1 {
                    return Some(x);
                }
                return None;
            }
        }
    }
    None
}

#[test]
fn test_writer_new() {
    let parser = loaded_parser();
    let writer = Writer::new(&parser);
    let files = workspace_files();
    assert!(writer.find_element_file(&files, "user", ElementType::Person).is_ok());
}

#[test]
fn writer_tests_test_writer_find_element_file() {
    let parser = loaded_parser();
    let writer = Writer::new(&parser);
    let file_path = writer
        .find_element_file(&workspace_files(), "user", ElementType::Person)
        .unwrap();
    assert!(file_path.ends_with("data/model.yaml"));
}

#[test]
fn test_writer_find_element_file() {
    let parser = loaded_parser();
    let writer = Writer::new(&parser);
    let file_path = writer
        .find_element_file(&workspace_files(), "api", ElementType::System)
        .unwrap();
    assert!(file_path.ends_with("data/model.yaml"));
}

#[test]
fn writer_tests_test_writer_find_element_file_not_found() {
    let parser = loaded_parser();
    let writer = Writer::new(&parser);
    let result = writer.find_element_file(&workspace_files(), "nonexistent", ElementType::Person);
    match result {
        Err(WriterError::ElementNotFound(id)) => assert_eq!(id, "nonexistent"),
        _ => panic!("expected an element-not-found error"),
    }
}

#[test]
fn test_writer_find_element_file_not_found() {
    let parser = loaded_parser();
    let writer = Writer::new(&parser);
    // the right id under the wrong kind is not found either
    assert!(writer
        .find_element_file(&workspace_files(), "user", ElementType::System)
        .is_err());
}

#[test]
fn writer_tests_test_writer_update_element_simple_field() {
    let parser = loaded_parser();
    let writer = Writer::new(&parser);
    let updates = vec![entry("description", s("Updated description"))];
    let doc = data_doc();
    let updated = writer.update_in_ast(&doc, "user", ElementType::Person, &updates).unwrap();
    assert_eq!(get_str(&updated, "persons", "user", "description"), Some("Updated description"));
    // everything else is untouched
    assert_eq!(get_str(&updated, "persons", "user", "name"), Some("End User"));
    assert_eq!(get_str(&updated, "systems", "api", "name"), Some("API System"));
}

#[test]
fn test_writer_update_element_array_field() {
    let parser = loaded_parser();
    let writer = Writer::new(&parser);
    let updates = vec![entry("tags", list(vec![s("external"), s("verified")]))];
    let doc = data_doc();
    let updated = writer.update_in_ast(&doc, "user", ElementType::Person, &updates).unwrap();
    let df = data_file_from_yaml(&updated).unwrap();
    assert_eq!(
        df.persons[0].base.tags,
        Some(vec!["external".to_string(), "verified".to_string()])
    );
}

#[test]
fn writer_tests_test_writer_update_element_add_new_field() {
    let parser = loaded_parser();
    let writer = Writer::new(&parser);
    let updates = vec![entry("url", s("https://example.com"))];
    let doc = data_doc();
    let updated = writer.update_in_ast(&doc, "api", ElementType::System, &updates).unwrap();
    assert_eq!(get_str(&updated, "systems", "api", "url"), Some("https://example.com"));
}

#[test]
fn test_writer_update_element_multiple_fields() {
    let parser = loaded_parser();
    let writer = Writer::new(&parser);
    let updates = vec![
        entry("name", s("New Name")),
        entry("description", s("New Description")),
        entry("technology", s("Rust")),
    ];
    let doc = data_doc();
    let updated = writer.update_in_ast(&doc, "api", ElementType::System, &updates).unwrap();
    assert_eq!(get_str(&updated, "systems", "api", "name"), Some("New Name"));
    assert_eq!(get_str(&updated, "systems", "api", "description"), Some("New Description"));
    assert_eq!(get_str(&updated, "systems", "api", "technology"), Some("Rust"));
}

#[test]
fn writer_tests_test_writer_update_preserves_structure() {
    let parser = loaded_parser();
    let writer = Writer::new(&parser);
    let updates = vec![entry("name", s("Updated Name"))];
    let doc = data_doc();
    let updated = writer.update_in_ast(&doc, "user", ElementType::Person, &updates).unwrap();
    match &updated {
        Yaml::Dict(entries) => {
            assert_eq!(entries.len(), 2);
            assert_eq!(entries[0].0, "persons");
            assert_eq!(entries[1].0, "systems");
        },
        _ => panic!("expected a mapping at the root"),
    }
    assert_eq!(get_str(&updated, "persons", "user", "name"), Some("Updated Name"));
    assert_eq!(get_str(&updated, "persons", "user", "description"), Some("User of the system"));
}

#[test]
fn test_writer_update_invalid_element_type() {
    let parser = loaded_parser();
    let writer = Writer::new(&parser);
    // the document has no `containers` collection
    let doc = data_doc();
    let result = writer.update_in_ast(&doc, "user", ElementType::Container, &Vec::new());
    match result {
        Err(WriterError::CollectionNotFound(k)) => assert_eq!(k, "containers"),
        _ => panic!("expected a collection-not-found error"),
    }
}

#[test]
fn writer_tests_test_writer_update_invalid_yaml_after_update() {
    let parser = loaded_parser();
    let writer = Writer::new(&parser);
    let updates = vec![entry("name", s("Updated"))];
    let doc = data_doc();
    let updated = writer.update_in_ast(&doc, "user", ElementType::Person, &updates).unwrap();
    // the updated document serializes to YAML text that parses back
    let text = serde_yaml::to_string(&yaml_to_serde(&updated)).unwrap();
    let reparsed: serde_yaml::Value = serde_yaml::from_str(&text).unwrap();
    let roundtripped = serde_to_yaml(&reparsed);
    let df = data_file_from_yaml(&roundtripped).unwrap();
    assert_eq!(df.persons[0].base.name, "Updated");
    assert_eq!(df.systems[0].base.name, "API System");
}

#[test]
fn test_writer_contains_element() {
    let df = data_file_from_yaml(&data_doc()).unwrap();
    assert!(contains_element(&df, "user", ElementType::Person));
    assert!(contains_element(&df, "api", ElementType::System));
    assert!(!contains_element(&df, "user", ElementType::System));
    assert!(!contains_element(&df, "ghost", ElementType::Person));
}

#[test]
fn test_writer_update_in_ast() {
    let parser = loaded_parser();
    let writer = Writer::new(&parser);
    let doc = dict(vec![entry("persons", s("not a sequence"))]);
    assert!(writer.update_in_ast(&doc, "user", ElementType::Person, &Vec::new()).is_err());
    let not_mapping = list(vec![]);
    match writer.update_in_ast(&not_mapping, "user", ElementType::Person, &Vec::new()) {
        Err(WriterError::NotMapping) => {},
        _ => panic!("expected a not-a-mapping error"),
    }
}

#[test]
fn test_writer_update_element_not_in_ast() {
    let parser = loaded_parser();
    let writer = Writer::new(&parser);
    let doc = data_doc();
    match writer.update_in_ast(&doc, "ghost", ElementType::Person, &Vec::new()) {
        Err(WriterError::NotInTree(id)) => assert_eq!(id, "ghost"),
        _ => panic!("expected a not-in-tree error"),
    }
}

#[test]
fn test_writer_is_target_element() {
    let node = dict(vec![entry("id", s("user")), entry("name", s("User"))]);
    assert!(is_target_element(&node, "user"));
    assert!(!is_target_element(&node, "other"));
    assert!(!is_target_element(&s("user"), "user"));
}

#[test]
fn test_writer_update_element_node() {
    let node = vec![entry("id", s("user")), entry("name", s("User"))];
    let updates = vec![entry("name", s("New")), entry("url", s("https://example.com"))];
    let merged = update_element_node(&node, &updates);
    assert_eq!(merged.len(), 3);
    assert_eq!(merged[0].0, "id");
    assert_eq!(merged[1].0, "name");
    assert!(matches!(&merged[1].1, Yaml::Str(x) if x == "New"));
    assert_eq!(merged[2].0, "url");
}

#[test]
fn test_writer_set_node_value_string() {
    let node = vec![entry("id", s("a"))];
    let merged = update_element_node(&node, &vec![entry("note", s("hello"))]);
    assert!(matches!(&merged[1].1, Yaml::Str(x) if x == "hello"));
}

#[test]
fn test_writer_set_node_value_array() {
    let node = vec![entry("id", s("a"))];
    let merged = update_element_node(&node, &vec![entry("tags", list(vec![s("x"), s("y")]))]);
    match &merged[1].1 {
        Yaml::List(items) => assert_eq!(items.len(), 2),
        _ => panic!("expected a list value"),
    }
}

#[test]
fn test_writer_set_node_value_nested_array() {
    let node = vec![entry("id", s("a"))];
    let nested = list(vec![list(vec![s("x")]), list(vec![s("y"), s("z")])]);
    let merged = update_element_node(&node, &vec![entry("grid", nested)]);
    match &merged[1].1 {
        Yaml::List(items) => match &items[1] {
            Yaml::List(inner) => assert_eq!(inner.len(), 2),
            _ => panic!("expected a nested list"),
        },
        _ => panic!("expected a list value"),
    }
}

#[test]
fn writer_tests_test_writer_update_container() {
    let parser = loaded_parser();
    let writer = Writer::new(&parser);
    let doc = dict(vec![
        entry("systems", list(vec![dict(vec![entry("id", s("api")), entry("name", s("API"))])])),
        entry(
            "containers",
            list(vec![dict(vec![
                entry("id", s("web")),
                entry("name", s("Web App")),
                entry("systemId", s("api")),
            ])]),
        ),
    ]);
    let updates = vec![entry("name", s("Updated Web App"))];
    let updated = writer.update_in_ast(&doc, "web", ElementType::Container, &updates).unwrap();
    assert_eq!(get_str(&updated, "containers", "web", "name"), Some("Updated Web App"));
    assert_eq!(get_str(&updated, "containers", "web", "systemId"), Some("api"));
}

#[test]
fn writer_tests_test_writer_update_component() {
    let parser = loaded_parser();
    let writer = Writer::new(&parser);
    let doc = dict(vec![entry(
        "components",
        list(vec![dict(vec![
            entry("id", s("handler")),
            entry("name", s("Handler")),
            entry("systemId", s("api")),
            entry("containerId", s("backend")),
        ])]),
    )]);
    let updates = vec![entry("name", s("Updated Handler"))];
    let updated = writer.update_in_ast(&doc, "handler", ElementType::Component, &updates).unwrap();
    assert_eq!(get_str(&updated, "components", "handler", "name"), Some("Updated Handler"));
}

#[test]
fn test_writer_parser_not_initialized() {
    let parser = Parser::new("/nonexistent");
    let writer = Writer::new(&parser);
    let result = writer.find_element_file(&Vec::new(), "user", ElementType::Person);
    match result {
        Err(e) => assert!(e.message().contains("not initialized")),
        _ => panic!("expected an error"),
    }
}

#[test]
fn test_writer_unusable_file_stops_search() {
    let parser = loaded_parser();
    let writer = Writer::new(&parser);
    let files = vec![
        SourceFile { path: "/ws/data/bad.yaml".to_string(), doc: Err("boom".to_string()) },
        SourceFile { path: "/ws/data/model.yaml".to_string(), doc: Ok(data_doc()) },
    ];
    match writer.find_element_file(&files, "user", ElementType::Person) {
        Err(WriterError::UnusableFile(m)) => assert_eq!(m, "boom"),
        _ => panic!("expected an unusable-file error"),
    }
}

fn yaml_to_serde(y: &Yaml) -> serde_yaml::Value {
    match y {
        Yaml::Null => serde_yaml::Value::Null,
        Yaml::Bool(b) => serde_yaml::Value::Bool(*b),
        Yaml::Int(i) => serde_yaml::Value::Number((*i).into()),
        Yaml::Str(s) => serde_yaml::Value::String(s.clone()),
        Yaml::Other(s) => serde_yaml::from_str(s).unwrap_or(serde_yaml::Value::Null),
        Yaml::List(items) => serde_yaml::Value::Sequence(items.iter().map(yaml_to_serde).collect()),
        Yaml::Dict(entries) => serde_yaml::Value::Mapping(
            entries
                .iter()
                .map(|(k, v)| (serde_yaml::Value::String(k.clone()), yaml_to_serde(v)))
                .collect(),
        ),
    }
}

fn serde_to_yaml(v: &serde_yaml::Value) -> Yaml {
    match v {
        serde_yaml::Value::Null => Yaml::Null,
        serde_yaml::Value::Bool(b) => Yaml::Bool(*b),
        serde_yaml::Value::Number(n) => match n.as_i64() {
            Some(i) => Yaml::Int(i),
            None => Yaml::Other(n.to_string()),
        },
        serde_yaml::Value::String(s) => Yaml::Str(s.clone()),
        serde_yaml::Value::Sequence(items) => Yaml::List(items.iter().map(serde_to_yaml).collect()),
        serde_yaml::Value::Mapping(m) => Yaml::Dict(
            m.iter()
                .map(|(k, v)| {
                    let key = match k {
                        serde_yaml::Value::String(s) => s.clone(),
                        other => serde_yaml::to_string(other).unwrap().trim().to_string(),
                    };
                    (key, serde_to_yaml(v))
                })
                .collect(),
        ),
        serde_yaml::Value::Tagged(t) => serde_to_yaml(&t.value),
    }
}
