use c4model::model::{ElemRef, Model, ModelError};
use c4model::types::{
    BaseElement, Component, Container, ElementType, Person, Relationship, SoftwareSystem,
    Technology,
};

fn base(id: &str, name: &str, description: Option<&str>, tags: Option<Vec<&str>>) -> BaseElement {
    BaseElement {
        id: id.to_string(),
        name: name.to_string(),
        description: description.map(|d| d.to_string()),
        tags: tags.map(|ts| ts.into_iter().map(|t| t.to_string()).collect()),
        properties: None,
    }
}

fn create_test_person(id: &str) -> Person {
    Person {
        base: base(
            id,
            &format!("{} Name", id),
            Some(&format!("{} Description", id)),
            Some(vec!["tag1", "tag2"]),
        ),
        element_type: ElementType::Person,
    }
}

fn create_test_system(id: &str) -> SoftwareSystem {
    SoftwareSystem {
        base: base(
            id,
            &format!("{} System", id),
            Some(&format!("{} Description", id)),
            Some(vec!["system"]),
        ),
        element_type: ElementType::System,
        external: None,
    }
}

fn create_test_container(system_id: &str, id: &str) -> Container {
    Container {
        base: base(
            id,
            &format!("{} Container", id),
            Some(&format!("{} Description", id)),
            Some(vec!["container"]),
        ),
        element_type: ElementType::Container,
        technology: Some(Technology::new(vec!["Rust".to_string()])),
        system_id: system_id.to_string(),
    }
}

fn create_test_component(system_id: &str, container_id: &str, id: &str) -> Component {
    Component {
        base: base(
            id,
            &format!("{} Component", id),
            Some(&format!("{} Description", id)),
            Some(vec!["component"]),
        ),
        element_type: ElementType::Component,
        technology: Some(Technology::new(vec!["Rust".to_string()])),
        system_id: system_id.to_string(),
        container_id: container_id.to_string(),
    }
}

fn rel(from: &str, to: &str, description: &str) -> Relationship {
    Relationship {
        from: from.to_string(),
        to: to.to_string(),
        description: Some(description.to_string()),
        technology: None,
        tags: None,
        properties: None,
    }
}

#[test]
fn test_new_model_creates_empty_model() {
    let model = Model::new();
    assert_eq!(model.persons.len(), 0);
    assert_eq!(model.systems.len(), 0);
    assert_eq!(model.containers.len(), 0);
    assert_eq!(model.components.len(), 0);
    assert_eq!(model.relationships.len(), 0);
    assert_eq!(model.flows.len(), 0);
    assert_eq!(model.deployments.len(), 0);
}

#[test]
fn test_build_indexes_with_persons() {
    let mut model = Model::new();
    model.persons.push(create_test_person("user1"));
    model.persons.push(create_test_person("user2"));
    assert!(model.build_indexes().is_ok());
    assert!(model.get_element("user1").is_some());
    assert!(model.get_element("user2").is_some());
}

#[test]
fn test_build_indexes_with_systems() {
    let mut model = Model::new();
    model.systems.push(create_test_system("sys1"));
    model.systems.push(create_test_system("sys2"));
    assert!(model.build_indexes().is_ok());
    assert!(model.get_element("sys1").is_some());
    assert!(model.get_element("sys2").is_some());
}

#[test]
fn test_build_indexes_with_containers() {
    let mut model = Model::new();
    model.systems.push(create_test_system("sys1"));
    model.containers.push(create_test_container("sys1", "web"));
    model.containers.push(create_test_container("sys1", "api"));
    assert!(model.build_indexes().is_ok());
    assert!(model.get_element("sys1.web").is_some());
    assert!(model.get_element("sys1.api").is_some());
    assert_eq!(model.get_children("sys1").len(), 2);
}

#[test]
fn test_build_indexes_with_components() {
    let mut model = Model::new();
    model.systems.push(create_test_system("sys1"));
    model.containers.push(create_test_container("sys1", "web"));
    model.components.push(create_test_component("sys1", "web", "controller"));
    model.components.push(create_test_component("sys1", "web", "service"));
    assert!(model.build_indexes().is_ok());
    assert!(model.get_element("sys1.web.controller").is_some());
    assert!(model.get_element("sys1.web.service").is_some());
    assert_eq!(model.get_children("sys1.web").len(), 2);
}

#[test]
fn test_build_indexes_detects_duplicates() {
    let mut model = Model::new();
    model.persons.push(create_test_person("user1"));
    model.persons.push(create_test_person("user1"));
    let result = model.build_indexes();
    assert!(result.is_err());
    match result {
        Err(ModelError::DuplicateElement(path)) => assert_eq!(path, "user1"),
        _ => panic!("expected a duplicate element error"),
    }
}

#[test]
fn test_build_indexes_with_tags() {
    let mut model = Model::new();
    let mut person = create_test_person("user1");
    person.base.tags = Some(vec!["external".to_string(), "customer".to_string()]);
    model.persons.push(person);
    assert!(model.build_indexes().is_ok());
    let external = model.get_elements_by_tag("external");
    assert_eq!(external.len(), 1);
    assert_eq!(external[0].get_full_path(), "user1");
    assert_eq!(model.get_elements_by_tag("customer").len(), 1);
}

#[test]
fn test_build_indexes_with_relationships() {
    let mut model = Model::new();
    model.persons.push(create_test_person("user1"));
    model.systems.push(create_test_system("sys1"));
    model.relationships.push(rel("user1", "sys1", "Uses"));
    assert!(model.build_indexes().is_ok());
    assert_eq!(model.get_outgoing_relationships("user1").len(), 1);
    assert_eq!(model.get_incoming_relationships("sys1").len(), 1);
}

#[test]
fn test_get_element_returns_person() {
    let mut model = Model::new();
    model.persons.push(create_test_person("user1"));
    model.build_indexes().unwrap();
    let element = model.get_element("user1");
    assert!(element.is_some());
    let elem = element.unwrap();
    assert_eq!(elem.get_id(), "user1");
    assert_eq!(elem.get_type(), ElementType::Person);
}

#[test]
fn test_get_element_returns_system() {
    let mut model = Model::new();
    model.systems.push(create_test_system("sys1"));
    model.build_indexes().unwrap();
    let elem = model.get_element("sys1").unwrap();
    assert_eq!(elem.get_id(), "sys1");
    assert_eq!(elem.get_type(), ElementType::System);
}

#[test]
fn test_get_element_returns_container() {
    let mut model = Model::new();
    model.systems.push(create_test_system("sys1"));
    model.containers.push(create_test_container("sys1", "web"));
    model.build_indexes().unwrap();
    let elem = model.get_element("sys1.web").unwrap();
    assert_eq!(elem.get_id(), "web");
    assert_eq!(elem.get_type(), ElementType::Container);
}

#[test]
fn test_get_element_returns_component() {
    let mut model = Model::new();
    model.systems.push(create_test_system("sys1"));
    model.containers.push(create_test_container("sys1", "web"));
    model.components.push(create_test_component("sys1", "web", "controller"));
    model.build_indexes().unwrap();
    let elem = model.get_element("sys1.web.controller").unwrap();
    assert_eq!(elem.get_id(), "controller");
    assert_eq!(elem.get_type(), ElementType::Component);
}

#[test]
fn test_get_element_returns_none_for_missing() {
    let model = Model::new();
    assert!(model.get_element("nonexistent").is_none());
}

#[test]
fn test_get_elements_by_type_persons() {
    let mut model = Model::new();
    model.persons.push(create_test_person("user1"));
    model.persons.push(create_test_person("user2"));
    model.systems.push(create_test_system("sys1"));
    model.build_indexes().unwrap();
    assert_eq!(model.get_elements_by_type(ElementType::Person).len(), 2);
}

#[test]
fn test_get_elements_by_type_systems() {
    let mut model = Model::new();
    model.systems.push(create_test_system("sys1"));
    model.systems.push(create_test_system("sys2"));
    model.persons.push(create_test_person("user1"));
    model.build_indexes().unwrap();
    assert_eq!(model.get_elements_by_type(ElementType::System).len(), 2);
}

#[test]
fn test_get_elements_by_type_empty() {
    let model = Model::new();
    assert_eq!(model.get_elements_by_type(ElementType::Container).len(), 0);
}

#[test]
fn test_get_elements_by_tag() {
    let mut model = Model::new();
    let mut person1 = create_test_person("user1");
    person1.base.tags = Some(vec!["external".to_string()]);
    model.persons.push(person1);
    let mut person2 = create_test_person("user2");
    person2.base.tags = Some(vec!["external".to_string()]);
    model.persons.push(person2);
    let mut system = create_test_system("sys1");
    system.base.tags = Some(vec!["internal".to_string()]);
    model.systems.push(system);
    model.build_indexes().unwrap();
    assert_eq!(model.get_elements_by_tag("external").len(), 2);
    assert_eq!(model.get_elements_by_tag("internal").len(), 1);
}

#[test]
fn test_get_elements_by_tag_empty() {
    let model = Model::new();
    assert_eq!(model.get_elements_by_tag("nonexistent").len(), 0);
}

#[test]
fn test_get_children_of_system() {
    let mut model = Model::new();
    model.systems.push(create_test_system("sys1"));
    model.containers.push(create_test_container("sys1", "web"));
    model.containers.push(create_test_container("sys1", "api"));
    model.build_indexes().unwrap();
    assert_eq!(model.get_children("sys1").len(), 2);
}

#[test]
fn test_get_children_of_container() {
    let mut model = Model::new();
    model.systems.push(create_test_system("sys1"));
    model.containers.push(create_test_container("sys1", "web"));
    model.components.push(create_test_component("sys1", "web", "controller"));
    model.components.push(create_test_component("sys1", "web", "service"));
    model.build_indexes().unwrap();
    assert_eq!(model.get_children("sys1.web").len(), 2);
}

#[test]
fn test_get_children_empty() {
    let mut model = Model::new();
    model.systems.push(create_test_system("sys1"));
    model.build_indexes().unwrap();
    assert_eq!(model.get_children("sys1").len(), 0);
}

#[test]
fn test_get_outgoing_relationships() {
    let mut model = Model::new();
    model.persons.push(create_test_person("user1"));
    model.systems.push(create_test_system("sys1"));
    model.systems.push(create_test_system("sys2"));
    model.relationships.push(rel("user1", "sys1", "Uses sys1"));
    model.relationships.push(rel("user1", "sys2", "Uses sys2"));
    model.build_indexes().unwrap();
    assert_eq!(model.get_outgoing_relationships("user1").len(), 2);
}

#[test]
fn test_get_incoming_relationships() {
    let mut model = Model::new();
    model.persons.push(create_test_person("user1"));
    model.persons.push(create_test_person("user2"));
    model.systems.push(create_test_system("sys1"));
    model.relationships.push(rel("user1", "sys1", "Uses"));
    model.relationships.push(rel("user2", "sys1", "Uses"));
    model.build_indexes().unwrap();
    assert_eq!(model.get_incoming_relationships("sys1").len(), 2);
}

#[test]
fn test_get_relationships_empty() {
    let mut model = Model::new();
    model.persons.push(create_test_person("user1"));
    model.build_indexes().unwrap();
    assert_eq!(model.get_outgoing_relationships("user1").len(), 0);
    assert_eq!(model.get_incoming_relationships("user1").len(), 0);
}

#[test]
fn test_all_elements() {
    let mut model = Model::new();
    model.persons.push(create_test_person("user1"));
    model.systems.push(create_test_system("sys1"));
    model.containers.push(create_test_container("sys1", "web"));
    model.components.push(create_test_component("sys1", "web", "controller"));
    model.build_indexes().unwrap();
    assert_eq!(model.all_elements().len(), 4);
}

#[test]
fn test_all_elements_empty() {
    let model = Model::new();
    assert_eq!(model.all_elements().len(), 0);
}

#[test]
fn test_element_full_paths() {
    assert_eq!(create_test_person("user1").get_full_path(), "user1");
    assert_eq!(create_test_system("sys1").get_full_path(), "sys1");
    assert_eq!(create_test_container("sys1", "web").get_full_path(), "sys1.web");
    assert_eq!(
        create_test_component("sys1", "web", "controller").get_full_path(),
        "sys1.web.controller"
    );
}

#[test]
fn test_ensure_non_nil_slices() {
    let mut model = Model::new();
    model.ensure_non_nil_slices();
    assert_eq!(model.persons.len(), 0);
    assert_eq!(model.systems.len(), 0);
}

#[test]
fn test_multiple_tags_indexing() {
    let mut model = Model::new();
    let mut person = create_test_person("user1");
    person.base.tags = Some(vec!["tag1".to_string(), "tag2".to_string(), "tag3".to_string()]);
    model.persons.push(person);
    model.build_indexes().unwrap();
    assert_eq!(model.get_elements_by_tag("tag1").len(), 1);
    assert_eq!(model.get_elements_by_tag("tag2").len(), 1);
    assert_eq!(model.get_elements_by_tag("tag3").len(), 1);
}

#[test]
fn test_complex_hierarchy() {
    let mut model = Model::new();
    model.systems.push(create_test_system("sys1"));
    model.containers.push(create_test_container("sys1", "web"));
    model.containers.push(create_test_container("sys1", "api"));
    model.components.push(create_test_component("sys1", "web", "controller"));
    model.components.push(create_test_component("sys1", "web", "view"));
    model.components.push(create_test_component("sys1", "api", "handler"));
    model.build_indexes().unwrap();
    assert_eq!(model.get_children("sys1").len(), 2);
    assert_eq!(model.get_children("sys1.web").len(), 2);
    assert_eq!(model.get_children("sys1.api").len(), 1);
}

#[test]
fn test_rebuild_indexes() {
    let mut model = Model::new();
    model.persons.push(create_test_person("user1"));
    model.build_indexes().unwrap();
    assert!(model.get_element("user1").is_some());
    model.persons.push(create_test_person("user2"));
    model.systems.push(create_test_system("sys1"));
    model.build_indexes().unwrap();
    assert!(model.get_element("user1").is_some());
    assert!(model.get_element("user2").is_some());
    assert!(model.get_element("sys1").is_some());
}

#[test]
fn test_model_error_display() {
    let err = ModelError::DuplicateElement("sys1.web".to_string());
    assert_eq!(err.message(), "duplicate element ID: sys1.web");
}

#[test]
fn test_build_indexes_detects_duplicate_systems() {
    let mut model = Model::new();
    model.systems.push(create_test_system("sys1"));
    model.systems.push(create_test_system("sys1"));
    match model.build_indexes() {
        Err(ModelError::DuplicateElement(path)) => assert_eq!(path, "sys1"),
        _ => panic!("expected a duplicate element error"),
    }
}

#[test]
fn test_build_indexes_detects_duplicate_containers() {
    let mut model = Model::new();
    model.systems.push(create_test_system("sys1"));
    model.containers.push(create_test_container("sys1", "web"));
    model.containers.push(create_test_container("sys1", "web"));
    match model.build_indexes() {
        Err(ModelError::DuplicateElement(path)) => assert_eq!(path, "sys1.web"),
        _ => panic!("expected a duplicate element error"),
    }
}

#[test]
fn test_build_indexes_detects_duplicate_components() {
    let mut model = Model::new();
    model.systems.push(create_test_system("sys1"));
    model.containers.push(create_test_container("sys1", "web"));
    model.components.push(create_test_component("sys1", "web", "ctrl"));
    model.components.push(create_test_component("sys1", "web", "ctrl"));
    match model.build_indexes() {
        Err(ModelError::DuplicateElement(path)) => assert_eq!(path, "sys1.web.ctrl"),
        _ => panic!("expected a duplicate element error"),
    }
}

#[test]
fn test_get_element_invalid_path_depth() {
    let mut model = Model::new();
    model.systems.push(create_test_system("sys1"));
    model.build_indexes().unwrap();
    assert!(model.get_element("a.b.c.d").is_none());
}

#[test]
fn test_get_element_name_access() {
    let mut model = Model::new();
    model.persons.push(create_test_person("user1"));
    model.build_indexes().unwrap();
    match model.get_element("user1").unwrap() {
        ElemRef::Person(p) => assert_eq!(p.base.name, "user1 Name"),
        _ => panic!("expected a person"),
    }
}
