use c4model::types::{
    default_component_type, default_container_type, default_person_type, default_system_type,
    BaseElement, Component, Container, ElementType, Options, Person, SoftwareSystem, Technology,
};

fn base_min(id: &str, name: &str) -> BaseElement {
    BaseElement {
        id: id.to_string(),
        name: name.to_string(),
        description: None,
        tags: None,
        properties: None,
    }
}

#[test]
fn test_default_type_functions() {
    assert_eq!(default_person_type(), ElementType::Person);
    assert_eq!(default_system_type(), ElementType::System);
    assert_eq!(default_container_type(), ElementType::Container);
    assert_eq!(default_component_type(), ElementType::Component);
}

#[test]
fn test_options_default() {
    let options = Options::default();
    assert!(!options.show_minimap);
}

#[test]
fn test_technology_new_and_accessors() {
    let tech = Technology::new(vec!["Go".to_string(), "gRPC".to_string()]);
    assert_eq!(tech.as_slice(), &["Go".to_string(), "gRPC".to_string()]);
    assert!(!tech.is_empty());
    let empty = Technology::new(Vec::new());
    assert!(empty.is_empty());
}

#[test]
fn test_base_element_methods() {
    let base = BaseElement {
        id: "test".to_string(),
        name: "Test".to_string(),
        description: Some("Description".to_string()),
        tags: Some(vec!["tag1".to_string()]),
        properties: None,
    };
    assert_eq!(base.get_id(), "test");
    assert_eq!(base.get_name(), "Test");
    assert_eq!(base.get_description(), "Description");
    assert_eq!(base.get_tags(), &["tag1".to_string()]);
}

#[test]
fn test_base_element_methods_empty() {
    let base = base_min("test", "Test");
    assert_eq!(base.get_description(), "");
    assert!(base.get_tags().is_empty());
}

#[test]
fn test_person_element_trait() {
    let person = Person { base: base_min("user1", "John Doe"), element_type: ElementType::Person };
    assert_eq!(person.base.get_id(), "user1");
    assert_eq!(person.base.get_name(), "John Doe");
    assert_eq!(person.get_type(), ElementType::Person);
    assert_eq!(person.get_full_path(), "user1");
}

#[test]
fn test_software_system_element_trait() {
    let system = SoftwareSystem {
        base: base_min("sys1", "System"),
        element_type: ElementType::System,
        external: Some(true),
    };
    assert_eq!(system.get_type(), ElementType::System);
    assert_eq!(system.get_full_path(), "sys1");
}

#[test]
fn test_container_full_path() {
    let container = Container {
        base: base_min("api", "API"),
        element_type: ElementType::Container,
        technology: None,
        system_id: "sys1".to_string(),
    };
    assert_eq!(container.get_full_path(), "sys1.api");
    assert_eq!(container.get_type(), ElementType::Container);
}

#[test]
fn test_component_full_path() {
    let component = Component {
        base: base_min("handler", "Handler"),
        element_type: ElementType::Component,
        technology: None,
        system_id: "sys1".to_string(),
        container_id: "api".to_string(),
    };
    assert_eq!(component.get_full_path(), "sys1.api.handler");
    assert_eq!(component.get_parent_path(), "sys1.api");
    assert_eq!(component.get_type(), ElementType::Component);
}

#[test]
fn test_three_level_full_path() {
    let component = Component {
        base: base_min("auth", "Auth"),
        element_type: ElementType::Component,
        technology: None,
        system_id: "api".to_string(),
        container_id: "web".to_string(),
    };
    assert_eq!(component.get_full_path(), "api.web.auth");
}
