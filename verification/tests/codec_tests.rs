use c4model::codec::{data_file_from_yaml, mod_file_from_yaml, model_to_document};
use c4model::file::is_yaml;
use c4model::model::Model;
use c4model::types::{
    BaseElement, Component, Container, ContainerInstance, Deployment, DeploymentNode, ElementType,
    Flow, FlowStep, Options, Person, Relationship, SoftwareSystem, Technology,
};
use c4model::yaml::Yaml;

fn s(v: &str) -> Yaml {
    Yaml::Str(v.to_string())
}

fn entry(k: &str, v: Yaml) -> (String, Yaml) {
    (k.to_string(), v)
}

fn dict(entries: Vec<(String, Yaml)>) -> Yaml {
    Yaml::Dict(entries)
}

fn list(items: Vec<Yaml>) -> Yaml {
    Yaml::List(items)
}

fn base(id: &str, name: &str) -> BaseElement {
    BaseElement {
        id: id.to_string(),
        name: name.to_string(),
        description: Some(format!("{} description", name)),
        tags: Some(vec!["core".to_string()]),
        properties: Some(vec![("color".to_string(), s("blue"))]),
    }
}

#[test]
fn test_technology_from_string() {
    let doc = dict(vec![
        entry("id", s("api")),
        entry("name", s("API")),
        entry("systemId", s("sys1")),
        entry("technology", s("Go, gRPC")),
    ]);
    let df = data_file_from_yaml(&dict(vec![entry("containers", list(vec![doc]))])).unwrap();
    let tech = df.containers[0].technology.as_ref().unwrap();
    assert_eq!(tech.as_slice(), &["Go".to_string(), "gRPC".to_string()]);
}

#[test]
fn test_technology_from_string_with_spaces() {
    let doc = dict(vec![
        entry("id", s("api")),
        entry("name", s("API")),
        entry("systemId", s("sys1")),
        entry("technology", s("  Go  ,  gRPC  ,  REST  ")),
    ]);
    let df = data_file_from_yaml(&dict(vec![entry("containers", list(vec![doc]))])).unwrap();
    let tech = df.containers[0].technology.as_ref().unwrap();
    assert_eq!(tech.as_slice(), &["Go".to_string(), "gRPC".to_string(), "REST".to_string()]);
}

#[test]
fn test_technology_from_array() {
    let doc = dict(vec![
        entry("id", s("api")),
        entry("name", s("API")),
        entry("systemId", s("sys1")),
        entry("technology", list(vec![s("Go"), s("gRPC")])),
    ]);
    let df = data_file_from_yaml(&dict(vec![entry("containers", list(vec![doc]))])).unwrap();
    let tech = df.containers[0].technology.as_ref().unwrap();
    assert_eq!(tech.as_slice(), &["Go".to_string(), "gRPC".to_string()]);
}

#[test]
fn test_technology_from_empty_string() {
    let doc = dict(vec![
        entry("id", s("api")),
        entry("name", s("API")),
        entry("systemId", s("sys1")),
        entry("technology", s("")),
    ]);
    let df = data_file_from_yaml(&dict(vec![entry("containers", list(vec![doc]))])).unwrap();
    assert!(df.containers[0].technology.as_ref().unwrap().is_empty());
}

#[test]
fn test_fragment_decode_requires_id() {
    let doc = dict(vec![entry("persons", list(vec![dict(vec![entry("name", s("User"))])]))]);
    assert!(data_file_from_yaml(&doc).is_none());
}

#[test]
fn test_fragment_decode_rejects_bad_type_name() {
    let doc = dict(vec![entry(
        "persons",
        list(vec![dict(vec![
            entry("id", s("u")),
            entry("name", s("U")),
            entry("type", s("robot")),
        ])]),
    )]);
    assert!(data_file_from_yaml(&doc).is_none());
}

#[test]
fn test_fragment_decode_keeps_declared_type_field() {
    let doc = dict(vec![entry(
        "persons",
        list(vec![dict(vec![entry("id", s("u")), entry("name", s("U"))])]),
    )]);
    let df = data_file_from_yaml(&doc).unwrap();
    assert_eq!(df.persons[0].element_type, ElementType::Person);
}

#[test]
fn test_mod_file_decode_minimal() {
    let doc = dict(vec![entry("version", s("1.0")), entry("name", s("minimal-model"))]);
    let mf = mod_file_from_yaml(&doc).unwrap();
    assert_eq!(mf.version, "1.0");
    assert_eq!(mf.name, "minimal-model");
    assert!(mf.schema.is_none());
    assert!(mf.patterns.is_empty());
    assert!(mf.imports.is_empty());
    assert!(!mf.options.show_minimap);
}

#[test]
fn test_mod_file_decode_full() {
    let doc = dict(vec![
        entry("version", s("1.0")),
        entry("name", s("test-model")),
        entry("schema", s("https://example.com/schema")),
        entry("include", list(vec![s("data/*.yaml"), s("systems/**/*.yaml")])),
        entry(
            "imports",
            dict(vec![entry(
                "external",
                dict(vec![
                    entry("source", s("git")),
                    entry("ref", s("main")),
                    entry("path", s("/models/shared")),
                ]),
            )]),
        ),
        entry("options", dict(vec![entry("showMinimap", Yaml::Bool(true))])),
    ]);
    let mf = mod_file_from_yaml(&doc).unwrap();
    assert_eq!(mf.version, "1.0");
    assert_eq!(mf.name, "test-model");
    assert_eq!(mf.schema.as_deref(), Some("https://example.com/schema"));
    assert_eq!(mf.patterns.len(), 2);
    assert_eq!(mf.patterns[0], "data/*.yaml");
    assert_eq!(mf.imports.len(), 1);
    assert_eq!(mf.imports[0].0, "external");
    assert_eq!(mf.imports[0].1.source, "git");
    assert_eq!(mf.imports[0].1.reference.as_deref(), Some("main"));
    assert_eq!(mf.imports[0].1.path.as_deref(), Some("/models/shared"));
    assert!(mf.options.show_minimap);
}

fn non_trivial_model() -> Model {
    let mut model = Model::new();
    model.options = Options { show_minimap: true };
    model.persons.push(Person { base: base("user", "End User"), element_type: ElementType::Person });
    model.persons.push(Person {
        base: BaseElement {
            id: "admin".to_string(),
            name: "Admin".to_string(),
            description: None,
            tags: None,
            properties: None,
        },
        element_type: ElementType::Person,
    });
    model.systems.push(SoftwareSystem {
        base: base("api", "API System"),
        element_type: ElementType::System,
        external: Some(false),
    });
    model.systems.push(SoftwareSystem {
        base: base("billing", "Billing"),
        element_type: ElementType::System,
        external: Some(true),
    });
    model.containers.push(Container {
        base: base("web", "Web App"),
        element_type: ElementType::Container,
        technology: Some(Technology::new(vec!["Rust".to_string(), "Axum".to_string()])),
        system_id: "api".to_string(),
    });
    model.components.push(Component {
        base: base("auth", "Auth"),
        element_type: ElementType::Component,
        technology: Some(Technology::new(vec!["JWT".to_string()])),
        system_id: "api".to_string(),
        container_id: "web".to_string(),
    });
    model.relationships.push(Relationship {
        from: "user".to_string(),
        to: "api".to_string(),
        description: Some("Uses".to_string()),
        technology: Some(Technology::new(vec!["HTTPS".to_string()])),
        tags: Some(vec!["external".to_string()]),
        properties: Some(vec![("weight".to_string(), Yaml::Int(3))]),
    });
    model.flows.push(Flow {
        id: "login".to_string(),
        name: "Login".to_string(),
        description: Some("User login".to_string()),
        steps: vec![FlowStep {
            seq: 1,
            from: "user".to_string(),
            to: "api".to_string(),
            description: Some("Authenticate".to_string()),
            technology: Some(Technology::new(vec!["HTTPS".to_string()])),
        }],
        tags: Some(vec!["auth".to_string()]),
    });
    model.deployments.push(Deployment {
        id: "prod".to_string(),
        name: "Production".to_string(),
        description: Some("Prod environment".to_string()),
        nodes: Some(vec![DeploymentNode {
            id: "cloud".to_string(),
            name: "Cloud".to_string(),
            technology: Some(Technology::new(vec!["AWS".to_string()])),
            children: Some(vec![DeploymentNode {
                id: "zone".to_string(),
                name: "Zone".to_string(),
                technology: None,
                children: None,
                instances: Some(vec![ContainerInstance {
                    container: "api.web".to_string(),
                    replicas: Some(3),
                    properties: Some(vec![("ha".to_string(), Yaml::Bool(true))]),
                }]),
                properties: None,
            }]),
            instances: None,
            properties: Some(vec![("region".to_string(), s("eu"))]),
        }]),
    });
    model
}

fn yaml_to_json(y: &Yaml) -> serde_json::Value {
    match y {
        Yaml::Null => serde_json::Value::Null,
        Yaml::Bool(b) => serde_json::Value::Bool(*b),
        Yaml::Int(i) => serde_json::Value::Number((*i).into()),
        Yaml::Str(x) => serde_json::Value::String(x.clone()),
        Yaml::Other(x) => serde_json::from_str(x).unwrap_or(serde_json::Value::Null),
        Yaml::List(items) => serde_json::Value::Array(items.iter().map(yaml_to_json).collect()),
        Yaml::Dict(entries) => serde_json::Value::Object(
            entries.iter().map(|(k, v)| (k.clone(), yaml_to_json(v))).collect(),
        ),
    }
}

fn json_to_yaml(v: &serde_json::Value) -> Yaml {
    match v {
        serde_json::Value::Null => Yaml::Null,
        serde_json::Value::Bool(b) => Yaml::Bool(*b),
        serde_json::Value::Number(n) => match n.as_i64() {
            Some(i) => Yaml::Int(i),
            None => Yaml::Other(n.to_string()),
        },
        serde_json::Value::String(x) => Yaml::Str(x.clone()),
        serde_json::Value::Array(items) => Yaml::List(items.iter().map(json_to_yaml).collect()),
        serde_json::Value::Object(m) => {
            Yaml::Dict(m.iter().map(|(k, v)| (k.clone(), json_to_yaml(v))).collect())
        },
    }
}

#[test]
fn test_model_json_round_trip() {
    let model = non_trivial_model();
    let doc = model_to_document(&model);
    // through real JSON text and back
    let text = serde_json::to_string_pretty(&yaml_to_json(&doc)).unwrap();
    let parsed: serde_json::Value = serde_json::from_str(&text).unwrap();
    let back = json_to_yaml(&parsed);
    let df = data_file_from_yaml(&back).unwrap();

    assert_eq!(df.persons.len(), 2);
    assert_eq!(df.persons[0].base.id, "user");
    assert_eq!(df.persons[0].base.name, "End User");
    assert_eq!(df.persons[0].base.description.as_deref(), Some("End User description"));
    assert_eq!(df.persons[0].base.tags, Some(vec!["core".to_string()]));
    assert_eq!(df.persons[1].base.id, "admin");
    assert!(df.persons[1].base.description.is_none());

    assert_eq!(df.systems.len(), 2);
    assert_eq!(df.systems[0].external, Some(false));
    assert_eq!(df.systems[1].external, Some(true));

    assert_eq!(df.containers.len(), 1);
    assert_eq!(df.containers[0].system_id, "api");
    assert_eq!(
        df.containers[0].technology.as_ref().unwrap().as_slice(),
        &["Rust".to_string(), "Axum".to_string()]
    );

    assert_eq!(df.components.len(), 1);
    assert_eq!(df.components[0].container_id, "web");

    assert_eq!(df.relationships.len(), 1);
    assert_eq!(df.relationships[0].from, "user");
    assert_eq!(df.relationships[0].to, "api");
    assert_eq!(df.relationships[0].description.as_deref(), Some("Uses"));

    assert_eq!(df.flows.len(), 1);
    assert_eq!(df.flows[0].steps.len(), 1);
    assert_eq!(df.flows[0].steps[0].seq, 1);
    assert_eq!(df.flows[0].steps[0].from, "user");

    assert_eq!(df.deployments.len(), 1);
    let root = &df.deployments[0].nodes.as_ref().unwrap()[0];
    assert_eq!(root.id, "cloud");
    let child = &root.children.as_ref().unwrap()[0];
    assert_eq!(child.id, "zone");
    let inst = &child.instances.as_ref().unwrap()[0];
    assert_eq!(inst.container, "api.web");
    assert_eq!(inst.replicas, Some(3));
}

#[test]
fn test_model_document_top_level_keys() {
    let model = non_trivial_model();
    let doc = model_to_document(&model);
    match &doc {
        Yaml::Dict(entries) => {
            let keys: Vec<&str> = entries.iter().map(|(k, _)| k.as_str()).collect();
            assert_eq!(
                keys,
                vec![
                    "persons",
                    "systems",
                    "containers",
                    "components",
                    "relationships",
                    "flows",
                    "deployments",
                    "options"
                ]
            );
        },
        _ => panic!("expected a mapping at the root"),
    }
}

#[test]
fn test_is_yaml() {
    assert!(is_yaml("model.yaml"));
    assert!(is_yaml("model.yml"));
    assert!(is_yaml("model.YAML"));
    assert!(is_yaml("data/model.yaml"));
    assert!(!is_yaml("model.json"));
    assert!(!is_yaml("model"));
    assert!(!is_yaml(".yaml"));
    assert!(!is_yaml("data.dir/model"));
}
