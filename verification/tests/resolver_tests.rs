use c4model::model::Model;
use c4model::resolver::{common_prefix_len, Resolver, ValidationError};
use c4model::types::{
    BaseElement, Component, Container, ContainerInstance, Deployment, DeploymentNode, ElementType,
    Flow, FlowStep, Person, Relationship, SoftwareSystem,
};

fn base_min(id: &str) -> BaseElement {
    BaseElement {
        id: id.to_string(),
        name: id.to_string(),
        description: None,
        tags: None,
        properties: None,
    }
}

fn create_person(id: &str) -> Person {
    Person { base: base_min(id), element_type: ElementType::Person }
}

fn create_system(id: &str) -> SoftwareSystem {
    SoftwareSystem { base: base_min(id), element_type: ElementType::System, external: None }
}

fn create_container(system_id: &str, id: &str) -> Container {
    Container {
        base: base_min(id),
        element_type: ElementType::Container,
        technology: None,
        system_id: system_id.to_string(),
    }
}

fn create_component(system_id: &str, container_id: &str, id: &str) -> Component {
    Component {
        base: base_min(id),
        element_type: ElementType::Component,
        technology: None,
        system_id: system_id.to_string(),
        container_id: container_id.to_string(),
    }
}

fn rel(from: &str, to: &str) -> Relationship {
    Relationship {
        from: from.to_string(),
        to: to.to_string(),
        description: Some("Uses".to_string()),
        technology: None,
        tags: None,
        properties: None,
    }
}

fn step(seq: i32, from: &str, to: &str) -> FlowStep {
    FlowStep {
        seq,
        from: from.to_string(),
        to: to.to_string(),
        description: None,
        technology: None,
    }
}

fn node(id: &str, containers: Vec<&str>, children: Vec<DeploymentNode>) -> DeploymentNode {
    DeploymentNode {
        id: id.to_string(),
        name: id.to_string(),
        technology: None,
        children: if children.is_empty() { None } else { Some(children) },
        instances: if containers.is_empty() {
            None
        } else {
            Some(
                containers
                    .into_iter()
                    .map(|c| ContainerInstance {
                        container: c.to_string(),
                        replicas: None,
                        properties: None,
                    })
                    .collect(),
            )
        },
        properties: None,
    }
}

#[test]
fn resolver_test_validation_error_format() {
    let err = ValidationError {
        path: "relationship.from".to_string(),
        message: "unresolved reference".to_string(),
        line: 42,
        file: "data/model.yaml".to_string(),
    };
    assert_eq!(err.display(), "data/model.yaml:42: relationship.from: unresolved reference");
    let err = ValidationError {
        path: "relationship.from".to_string(),
        message: "unresolved reference".to_string(),
        line: 0,
        file: String::new(),
    };
    assert_eq!(err.display(), "relationship.from: unresolved reference");
}

#[test]
fn resolver_tests_test_validation_error_format() {
    let err = ValidationError {
        path: "flow.login.step.1.from".to_string(),
        message: "empty reference".to_string(),
        line: 7,
        file: "flows.yaml".to_string(),
    };
    assert_eq!(err.display(), "flows.yaml:7: flow.login.step.1.from: empty reference");
}

#[test]
fn test_common_prefix_len() {
    assert_eq!(common_prefix_len("api-gateway", "api-gate"), 8);
    assert_eq!(common_prefix_len("api", "api"), 3);
    assert_eq!(common_prefix_len("abc", "xyz"), 0);
    assert_eq!(common_prefix_len("a", "api"), 1);
}

#[test]
fn resolver_tests_test_resolver_new() {
    let mut model = Model::new();
    model.build_indexes().unwrap();
    let mut resolver = Resolver::new(&model);
    assert_eq!(resolver.resolve().len(), 0);
}

#[test]
fn resolver_tests_test_resolver_validate_valid_relationships() {
    let mut model = Model::new();
    model.persons.push(create_person("user"));
    model.systems.push(create_system("api"));
    model.relationships.push(rel("user", "api"));
    model.build_indexes().unwrap();
    let mut resolver = Resolver::new(&model);
    assert_eq!(resolver.resolve().len(), 0);
}

#[test]
fn resolver_tests_test_resolver_validate_invalid_relationship_from() {
    let mut model = Model::new();
    model.systems.push(create_system("api"));
    model.relationships.push(rel("nonexistent", "api"));
    model.build_indexes().unwrap();
    let mut resolver = Resolver::new(&model);
    let errors = resolver.resolve();
    assert_eq!(errors.len(), 1);
    assert!(errors[0].message.contains("nonexistent"));
}

#[test]
fn test_resolver_validate_invalid_relationship_to() {
    let mut model = Model::new();
    model.persons.push(create_person("user"));
    model.relationships.push(rel("user", "nonexistent"));
    model.build_indexes().unwrap();
    let mut resolver = Resolver::new(&model);
    let errors = resolver.resolve();
    assert_eq!(errors.len(), 1);
    assert!(errors[0].message.contains("nonexistent"));
}

#[test]
fn resolver_tests_test_resolver_validate_empty_reference() {
    let mut model = Model::new();
    model.systems.push(create_system("api"));
    model.relationships.push(rel("", "api"));
    model.build_indexes().unwrap();
    let mut resolver = Resolver::new(&model);
    let errors = resolver.resolve();
    assert_eq!(errors.len(), 1);
    assert!(errors[0].message.contains("empty reference"));
    assert_eq!(errors[0].path, "relationship.from()");
}

#[test]
fn test_resolver_validate_flow_steps() {
    let mut model = Model::new();
    model.persons.push(create_person("user"));
    model.systems.push(create_system("api"));
    model.flows.push(Flow {
        id: "login".to_string(),
        name: "Login Flow".to_string(),
        description: None,
        steps: vec![step(1, "user", "api")],
        tags: None,
    });
    model.build_indexes().unwrap();
    let mut resolver = Resolver::new(&model);
    assert_eq!(resolver.resolve().len(), 0);
}

#[test]
fn test_resolver_validate_invalid_flow_steps() {
    let mut model = Model::new();
    model.flows.push(Flow {
        id: "login".to_string(),
        name: "Login Flow".to_string(),
        description: None,
        steps: vec![step(1, "nonexistent1", "nonexistent2")],
        tags: None,
    });
    model.build_indexes().unwrap();
    let mut resolver = Resolver::new(&model);
    let errors = resolver.resolve();
    assert_eq!(errors.len(), 2);
    assert_eq!(errors[0].path, "flow.login.step.1.from");
    assert_eq!(errors[1].path, "flow.login.step.1.to");
}

#[test]
fn resolver_tests_test_resolver_validate_container_parent() {
    let mut model = Model::new();
    model.systems.push(create_system("api"));
    model.containers.push(create_container("api", "web"));
    model.build_indexes().unwrap();
    let mut resolver = Resolver::new(&model);
    assert_eq!(resolver.resolve().len(), 0);
}

#[test]
fn resolver_tests_test_resolver_validate_invalid_container_parent() {
    let mut model = Model::new();
    model.containers.push(create_container("nonexistent", "web"));
    model.build_indexes().unwrap();
    let mut resolver = Resolver::new(&model);
    let errors = resolver.resolve();
    assert_eq!(errors.len(), 1);
    assert!(errors[0].message.contains("unknown system"));
}

#[test]
fn test_resolver_validate_component_parent() {
    let mut model = Model::new();
    model.systems.push(create_system("api"));
    model.containers.push(create_container("api", "backend"));
    model.components.push(create_component("api", "backend", "auth"));
    model.build_indexes().unwrap();
    let mut resolver = Resolver::new(&model);
    assert_eq!(resolver.resolve().len(), 0);
}

#[test]
fn test_resolver_validate_invalid_component_parent() {
    let mut model = Model::new();
    model.systems.push(create_system("api"));
    model.components.push(create_component("api", "nonexistent", "auth"));
    model.build_indexes().unwrap();
    let mut resolver = Resolver::new(&model);
    let errors = resolver.resolve();
    assert_eq!(errors.len(), 1);
    assert!(errors[0].message.contains("unknown container"));
}

#[test]
fn test_resolver_validate_deployment_nodes() {
    let mut model = Model::new();
    model.systems.push(create_system("api"));
    model.containers.push(create_container("api", "web"));
    model.deployments.push(Deployment {
        id: "prod".to_string(),
        name: "Production".to_string(),
        description: None,
        nodes: Some(vec![node("aws", vec!["api.web"], vec![])]),
    });
    model.build_indexes().unwrap();
    let mut resolver = Resolver::new(&model);
    assert_eq!(resolver.resolve().len(), 0);
}

#[test]
fn test_resolver_validate_invalid_deployment_instances() {
    let mut model = Model::new();
    model.deployments.push(Deployment {
        id: "prod".to_string(),
        name: "Production".to_string(),
        description: None,
        nodes: Some(vec![node("aws", vec!["nonexistent.web"], vec![])]),
    });
    model.build_indexes().unwrap();
    let mut resolver = Resolver::new(&model);
    let errors = resolver.resolve();
    assert_eq!(errors.len(), 1);
    assert_eq!(errors[0].path, "deployment.prod.node.aws.instance");
}

#[test]
fn test_resolver_validate_nested_deployment_nodes() {
    let mut model = Model::new();
    model.systems.push(create_system("api"));
    model.containers.push(create_container("api", "web"));
    model.deployments.push(Deployment {
        id: "prod".to_string(),
        name: "Production".to_string(),
        description: None,
        nodes: Some(vec![node(
            "cloud",
            vec![],
            vec![node("zone", vec![], vec![node("host", vec!["api.web", "ghost"], vec![])])],
        )]),
    });
    model.build_indexes().unwrap();
    let mut resolver = Resolver::new(&model);
    let errors = resolver.resolve();
    assert_eq!(errors.len(), 1);
    assert_eq!(errors[0].path, "deployment.prod.node.host.instance");
    assert!(errors[0].message.contains("ghost"));
}

#[test]
fn resolver_tests_test_resolver_find_similar() {
    let mut model = Model::new();
    model.systems.push(create_system("api-gateway"));
    model.build_indexes().unwrap();
    let resolver = Resolver::new(&model);
    assert_eq!(resolver.find_similar("api-gate"), Some("api-gateway".to_string()));
}

#[test]
fn resolver_tests_test_resolver_find_similar_no_match() {
    let mut model = Model::new();
    model.systems.push(create_system("api"));
    model.build_indexes().unwrap();
    let resolver = Resolver::new(&model);
    assert_eq!(resolver.find_similar("completely-different"), None);
}

#[test]
fn test_resolver_find_similar_minimum_score() {
    let mut model = Model::new();
    model.systems.push(create_system("api"));
    model.build_indexes().unwrap();
    let resolver = Resolver::new(&model);
    assert_eq!(resolver.find_similar("a"), None);
}

#[test]
fn test_resolver_find_similar_longer_prefix_wins() {
    let mut model = Model::new();
    model.systems.push(create_system("api"));
    model.systems.push(create_system("api-gateway"));
    model.build_indexes().unwrap();
    let resolver = Resolver::new(&model);
    assert_eq!(resolver.find_similar("api-gate"), Some("api-gateway".to_string()));
    assert_eq!(resolver.find_similar("xyz"), None);
}

#[test]
fn test_resolver_suggestion_in_message() {
    let mut model = Model::new();
    model.persons.push(create_person("user"));
    model.systems.push(create_system("system-b"));
    model.relationships.push(rel("user", "system-a"));
    model.build_indexes().unwrap();
    let mut resolver = Resolver::new(&model);
    let errors = resolver.resolve();
    assert_eq!(errors.len(), 1);
    assert!(errors[0].message.contains("system-a"));
    assert!(errors[0].message.contains("did you mean \"system-b\"?"));
}

#[test]
fn test_resolver_multiple_errors() {
    let mut model = Model::new();
    model.relationships.push(rel("invalid1", "invalid2"));
    model.containers.push(create_container("invalid3", "web"));
    model.build_indexes().unwrap();
    let mut resolver = Resolver::new(&model);
    let errors = resolver.resolve();
    assert!(errors.len() >= 3);
}

#[test]
fn test_resolver_clears_previous_errors() {
    let mut model = Model::new();
    model.relationships.push(rel("ghost", "ghost"));
    model.build_indexes().unwrap();
    let mut resolver = Resolver::new(&model);
    let first = resolver.resolve();
    let second = resolver.resolve();
    assert_eq!(first.len(), second.len());
}
