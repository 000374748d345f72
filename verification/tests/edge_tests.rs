use c4model::codec::{data_file_from_yaml, mod_file_from_yaml};
use c4model::model::Model;
use c4model::resolver::Resolver;
use c4model::file::SourceFile;
use c4model::types::{Flow, FlowStep};
use c4model::validate::validate_workspace;
use c4model::yaml::Yaml;

fn s(v: &str) -> Yaml {
    Yaml::Str(v.to_string())
}

fn entry(k: &str, v: Yaml) -> (String, Yaml) {
    (k.to_string(), v)
}

fn dict(entries: Vec<(String, Yaml)>) -> Yaml {
    Yaml::Dict(entries)
}

fn list(items: Vec<Yaml>) -> Yaml {
    Yaml::List(items)
}

#[test]
fn test_flow_step_negative_seq_label() {
    let mut model = Model::new();
    model.flows.push(Flow {
        id: "f".to_string(),
        name: "F".to_string(),
        description: None,
        steps: vec![FlowStep {
            seq: -1,
            from: "ghost".to_string(),
            to: "".to_string(),
            description: None,
            technology: None,
        }],
        tags: None,
    });
    model.build_indexes().unwrap();
    let mut resolver = Resolver::new(&model);
    let errors = resolver.resolve();
    assert_eq!(errors.len(), 2);
    assert_eq!(errors[0].path, "flow.f.step.-1.from");
    assert_eq!(errors[1].path, "flow.f.step.-1.to");
}

#[test]
fn test_decode_replicas_out_of_range() {
    let doc = dict(vec![entry(
        "deployments",
        list(vec![dict(vec![
            entry("id", s("prod")),
            entry("name", s("Prod")),
            entry(
                "nodes",
                list(vec![dict(vec![
                    entry("id", s("n")),
                    entry("name", s("N")),
                    entry(
                        "instances",
                        list(vec![dict(vec![
                            entry("container", s("a.b")),
                            entry("replicas", Yaml::Int(5_000_000_000)),
                        ])]),
                    ),
                ])]),
            ),
        ])]),
    )]);
    assert!(data_file_from_yaml(&doc).is_none());
}

#[test]
fn test_decode_step_seq_wrong_type() {
    let doc = dict(vec![entry(
        "flows",
        list(vec![dict(vec![
            entry("id", s("f")),
            entry("name", s("F")),
            entry(
                "steps",
                list(vec![dict(vec![
                    entry("seq", s("one")),
                    entry("from", s("a")),
                    entry("to", s("b")),
                ])]),
            ),
        ])]),
    )]);
    assert!(data_file_from_yaml(&doc).is_none());
}

#[test]
fn test_decode_flow_requires_steps() {
    let doc = dict(vec![entry(
        "flows",
        list(vec![dict(vec![entry("id", s("f")), entry("name", s("F"))])]),
    )]);
    assert!(data_file_from_yaml(&doc).is_none());
}

#[test]
fn test_decode_null_description_reads_as_absent() {
    let doc = dict(vec![entry(
        "persons",
        list(vec![dict(vec![
            entry("id", s("u")),
            entry("name", s("U")),
            entry("description", Yaml::Null),
        ])]),
    )]);
    let df = data_file_from_yaml(&doc).unwrap();
    assert!(df.persons[0].base.description.is_none());
}

#[test]
fn test_decode_empty_fragment() {
    let df = data_file_from_yaml(&dict(vec![])).unwrap();
    assert!(df.persons.is_empty());
    assert!(df.systems.is_empty());
    assert!(df.containers.is_empty());
    assert!(df.components.is_empty());
    assert!(df.relationships.is_empty());
    assert!(df.flows.is_empty());
    assert!(df.deployments.is_empty());
}

#[test]
fn test_decode_relationship_minimal() {
    let doc = dict(vec![entry(
        "relationships",
        list(vec![dict(vec![entry("from", s("a")), entry("to", s("b"))])]),
    )]);
    let df = data_file_from_yaml(&doc).unwrap();
    assert_eq!(df.relationships[0].from, "a");
    assert_eq!(df.relationships[0].to, "b");
    assert!(df.relationships[0].description.is_none());
    assert!(df.relationships[0].technology.is_none());
}

#[test]
fn test_mod_file_rejects_bad_imports_shape() {
    let doc = dict(vec![
        entry("version", s("1.0")),
        entry("name", s("ws")),
        entry("imports", list(vec![Yaml::Int(1)])),
    ]);
    assert!(mod_file_from_yaml(&doc).is_none());
}

#[test]
fn test_validate_duplicate_reports_path() {
    let doc = Ok(dict(vec![
        entry("version", s("1.0")),
        entry("name", s("ws")),
        entry("include", list(vec![s("*.yaml")])),
    ]));
    let sys = |n: &str| dict(vec![entry("id", s("api")), entry("name", s(n))]);
    let files = vec![
        SourceFile {
            path: "/ws/a.yaml".to_string(),
            doc: Ok(dict(vec![entry("systems", list(vec![sys("A")]))])),
        },
        SourceFile {
            path: "/ws/b.yaml".to_string(),
            doc: Ok(dict(vec![entry("systems", list(vec![sys("B")]))])),
        },
    ];
    let result = validate_workspace("/ws", &doc, &files);
    assert!(!result.valid);
    assert_eq!(result.errors.len(), 1);
    assert_eq!(result.errors[0].message, "duplicate element ID: api");
}

#[test]
fn test_validate_lists_each_fragment_error() {
    let doc = Ok(dict(vec![
        entry("version", s("1.0")),
        entry("name", s("ws")),
        entry("include", list(vec![s("*.yaml")])),
    ]));
    let files = vec![
        SourceFile { path: "/ws/a.yaml".to_string(), doc: Err("boom a".to_string()) },
        SourceFile { path: "/ws/b.yaml".to_string(), doc: Err("boom b".to_string()) },
    ];
    let result = validate_workspace("/ws", &doc, &files);
    assert!(!result.valid);
    assert_eq!(result.errors.len(), 3);
    assert_eq!(result.errors[0].message, "Parse errors: 2 errors encountered");
    assert_eq!(result.errors[1].message, "boom a");
    assert_eq!(result.errors[2].message, "boom b");
}
