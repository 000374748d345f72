//! Typed records of the architecture model: persons, software systems,
//! containers, components, relationships, flows and deployments, plus the
//! path construction that gives every element its globally unique identity.

use vstd::prelude::*;
use vstd::string::StringExecFns;
use crate::yaml::{Yaml, YamlView};

verus! {

/// The kind tag shared by the four addressable element kinds.
#[derive(Debug, Clone, Copy, PartialEq, Eq, Hash, Structural)]
pub enum ElementType {
    Person,
    System,
    Container,
    Component,
}

pub fn default_person_type() -> (r: ElementType)
    ensures
        r == ElementType::Person,
{
    ElementType::Person
}

pub fn default_system_type() -> (r: ElementType)
    ensures
        r == ElementType::System,
{
    ElementType::System
}

pub fn default_container_type() -> (r: ElementType)
    ensures
        r == ElementType::Container,
{
    ElementType::Container
}

pub fn default_component_type() -> (r: ElementType)
    ensures
        r == ElementType::Component,
{
    ElementType::Component
}

/// Open key/value data carried through the model without interpretation.
pub type Properties = Vec<(String, Yaml)>;

/// A normalized list of technology names: when a record gives a single
/// comma-separated string, it is split, trimmed, and cleared of empty entries.
#[derive(Debug)]
pub struct Technology(pub Vec<String>);

impl View for Technology {
    type V = Seq<Seq<char>>;

    open spec fn view(&self) -> Seq<Seq<char>> {
        self.0.deep_view()
    }
}

impl Technology {
    pub fn new(values: Vec<String>) -> (r: Technology)
        ensures
            r@ == values.deep_view(),
    {
        Technology(values)
    }

    pub fn as_slice(&self) -> (r: &[String])
        ensures
            r.deep_view() == self@,
    {
        self.0.as_slice()
    }

    pub fn is_empty(&self) -> (r: bool)
        ensures
            r == (self@.len() == 0),
    {
        self.0.len() == 0
    }
}

/// The fields shared by every addressable element kind.
#[derive(Debug)]
pub struct BaseElement {
    pub id: String,
    pub name: String,
    pub description: Option<String>,
    pub tags: Option<Vec<String>>,
    pub properties: Option<Properties>,
}

/// The description, with an absent one reading as empty.
pub open spec fn spec_description(e: BaseElement) -> Seq<char> {
    match e.description {
        Some(d) => d@,
        None => Seq::empty(),
    }
}

/// The tags, with absent ones reading as none at all.
pub open spec fn spec_tags(e: BaseElement) -> Seq<Seq<char>> {
    match e.tags {
        Some(t) => t.deep_view(),
        None => Seq::empty(),
    }
}

impl BaseElement {
    pub fn get_id(&self) -> (r: &str)
        ensures
            r@ == self.id@,
    {
        self.id.as_str()
    }

    pub fn get_name(&self) -> (r: &str)
        ensures
            r@ == self.name@,
    {
        self.name.as_str()
    }

    pub fn get_description(&self) -> (r: &str)
        ensures
            r@ == spec_description(*self),
    {
        match &self.description {
            Some(d) => d.as_str(),
            None => {
                proof {
                    reveal_strlit("");
                    assert(""@ =~= Seq::<char>::empty());
                }
                ""
            },
        }
    }

    pub fn get_tags(&self) -> (r: &[String])
        ensures
            r.deep_view() == spec_tags(*self),
    {
        match &self.tags {
            Some(t) => t.as_slice(),
            None => empty_strings(),
        }
    }
}

fn empty_strings() -> (r: &'static [String])
    ensures
        r.deep_view() == Seq::<Seq<char>>::empty(),
        r@.len() == 0,
{
    let r: &'static [String] = &[];
    proof {
        assert(r.deep_view() =~= Seq::<Seq<char>>::empty());
    }
    r
}

/// A human actor; its full path is its bare id.
#[derive(Debug)]
pub struct Person {
    pub base: BaseElement,
    pub element_type: ElementType,
}

/// A top-level system; its full path is its bare id.
#[derive(Debug)]
pub struct SoftwareSystem {
    pub base: BaseElement,
    pub element_type: ElementType,
    pub external: Option<bool>,
}

/// A deployable unit inside a system; its full path is `system.id`.
#[derive(Debug)]
pub struct Container {
    pub base: BaseElement,
    pub element_type: ElementType,
    pub technology: Option<Technology>,
    pub system_id: String,
}

/// A part of a container; its full path is `system.container.id`.
#[derive(Debug)]
pub struct Component {
    pub base: BaseElement,
    pub element_type: ElementType,
    pub technology: Option<Technology>,
    pub system_id: String,
    pub container_id: String,
}

pub open spec fn spec_person_path(p: Person) -> Seq<char> {
    p.base.id@
}

pub open spec fn spec_system_path(s: SoftwareSystem) -> Seq<char> {
    s.base.id@
}

pub open spec fn spec_container_path(c: Container) -> Seq<char> {
    c.system_id@ + seq!['.'] + c.base.id@
}

pub open spec fn spec_component_path(c: Component) -> Seq<char> {
    c.system_id@ + seq!['.'] + c.container_id@ + seq!['.'] + c.base.id@
}

/// The parent path of a component, `system.container`.
pub open spec fn spec_component_parent(c: Component) -> Seq<char> {
    c.system_id@ + seq!['.'] + c.container_id@
}

impl Person {
    pub fn get_full_path(&self) -> (r: String)
        ensures
            r@ == spec_person_path(*self),
    {
        self.base.id.clone()
    }

    pub fn get_type(&self) -> (r: ElementType)
        ensures
            r == ElementType::Person,
    {
        ElementType::Person
    }
}

impl SoftwareSystem {
    pub fn get_full_path(&self) -> (r: String)
        ensures
            r@ == spec_system_path(*self),
    {
        self.base.id.clone()
    }

    pub fn get_type(&self) -> (r: ElementType)
        ensures
            r == ElementType::System,
    {
        ElementType::System
    }
}

impl Container {
    pub fn get_full_path(&self) -> (r: String)
        ensures
            r@ == spec_container_path(*self),
    {
        let mut s = self.system_id.clone();
        s.append(".");
        s.append(self.base.id.as_str());
        proof {
            reveal_strlit(".");
            assert(s@ =~= spec_container_path(*self));
        }
        s
    }

    pub fn get_type(&self) -> (r: ElementType)
        ensures
            r == ElementType::Container,
    {
        ElementType::Container
    }
}

impl Component {
    pub fn get_full_path(&self) -> (r: String)
        ensures
            r@ == spec_component_path(*self),
    {
        let mut s = self.system_id.clone();
        s.append(".");
        s.append(self.container_id.as_str());
        s.append(".");
        s.append(self.base.id.as_str());
        proof {
            reveal_strlit(".");
            assert(s@ =~= spec_component_path(*self));
        }
        s
    }

    /// The full path of the container this component belongs to.
    pub fn get_parent_path(&self) -> (r: String)
        ensures
            r@ == spec_component_parent(*self),
    {
        let mut s = self.system_id.clone();
        s.append(".");
        s.append(self.container_id.as_str());
        proof {
            reveal_strlit(".");
            assert(s@ =~= spec_component_parent(*self));
        }
        s
    }

    pub fn get_type(&self) -> (r: ElementType)
        ensures
            r == ElementType::Component,
    {
        ElementType::Component
    }
}

/// A directed connection between two full paths; the endpoints need not exist
/// at parse time and are checked by the resolver.
#[derive(Debug)]
pub struct Relationship {
    pub from: String,
    pub to: String,
    pub description: Option<String>,
    pub technology: Option<Technology>,
    pub tags: Option<Vec<String>>,
    pub properties: Option<Properties>,
}

/// One step of a flow, ordered by its declaration position.
#[derive(Debug)]
pub struct FlowStep {
    pub seq: i32,
    pub from: String,
    pub to: String,
    pub description: Option<String>,
    pub technology: Option<Technology>,
}

/// A named series of steps through the model.
#[derive(Debug)]
pub struct Flow {
    pub id: String,
    pub name: String,
    pub description: Option<String>,
    pub steps: Vec<FlowStep>,
    pub tags: Option<Vec<String>>,
}

/// A container placed on a deployment node.
#[derive(Debug)]
pub struct ContainerInstance {
    pub container: String,
    pub replicas: Option<i32>,
    pub properties: Option<Properties>,
}

/// One node of a deployment tree.
#[derive(Debug)]
pub struct DeploymentNode {
    pub id: String,
    pub name: String,
    pub technology: Option<Technology>,
    pub children: Option<Vec<DeploymentNode>>,
    pub instances: Option<Vec<ContainerInstance>>,
    pub properties: Option<Properties>,
}

/// A named deployment environment.
#[derive(Debug)]
pub struct Deployment {
    pub id: String,
    pub name: String,
    pub description: Option<String>,
    pub nodes: Option<Vec<DeploymentNode>>,
}

/// Presentation options carried from the manifest onto the model.
#[derive(Debug, Clone, Copy, PartialEq, Eq, Structural)]
pub struct Options {
    pub show_minimap: bool,
}

impl Default for Options {
    fn default() -> (r: Options)
        ensures
            !r.show_minimap,
    {
        Options { show_minimap: false }
    }
}


/// View of an optional string.
pub open spec fn opt_str_view(o: Option<String>) -> Option<Seq<char>> {
    match o {
        Some(s) => Some(s@),
        None => None,
    }
}

/// View of an optional string list.
pub open spec fn opt_strs_view(o: Option<Vec<String>>) -> Option<Seq<Seq<char>>> {
    match o {
        Some(v) => Some(v.deep_view()),
        None => None,
    }
}

/// View of an optional technology list.
pub open spec fn opt_tech_view(o: Option<Technology>) -> Option<Seq<Seq<char>>> {
    match o {
        Some(t) => Some(t@),
        None => None,
    }
}

/// View of optional open properties.
pub open spec fn opt_props_view(o: Option<Properties>) -> Option<Seq<(Seq<char>, YamlView)>> {
    match o {
        Some(p) => Some(crate::yaml::entry_views(p@)),
        None => None,
    }
}

/// Mathematical value of the shared element fields.
pub struct BaseV {
    pub id: Seq<char>,
    pub name: Seq<char>,
    pub description: Option<Seq<char>>,
    pub tags: Option<Seq<Seq<char>>>,
    pub properties: Option<Seq<(Seq<char>, YamlView)>>,
}

impl View for BaseElement {
    type V = BaseV;

    open spec fn view(&self) -> BaseV {
        BaseV {
            id: self.id@,
            name: self.name@,
            description: opt_str_view(self.description),
            tags: opt_strs_view(self.tags),
            properties: opt_props_view(self.properties),
        }
    }
}

pub struct PersonV {
    pub base: BaseV,
    pub element_type: ElementType,
}

impl View for Person {
    type V = PersonV;

    open spec fn view(&self) -> PersonV {
        PersonV { base: self.base@, element_type: self.element_type }
    }
}

pub struct SystemV {
    pub base: BaseV,
    pub element_type: ElementType,
    pub external: Option<bool>,
}

impl View for SoftwareSystem {
    type V = SystemV;

    open spec fn view(&self) -> SystemV {
        SystemV { base: self.base@, element_type: self.element_type, external: self.external }
    }
}

pub struct ContainerV {
    pub base: BaseV,
    pub element_type: ElementType,
    pub technology: Option<Seq<Seq<char>>>,
    pub system_id: Seq<char>,
}

impl View for Container {
    type V = ContainerV;

    open spec fn view(&self) -> ContainerV {
        ContainerV {
            base: self.base@,
            element_type: self.element_type,
            technology: opt_tech_view(self.technology),
            system_id: self.system_id@,
        }
    }
}

pub struct ComponentV {
    pub base: BaseV,
    pub element_type: ElementType,
    pub technology: Option<Seq<Seq<char>>>,
    pub system_id: Seq<char>,
    pub container_id: Seq<char>,
}

impl View for Component {
    type V = ComponentV;

    open spec fn view(&self) -> ComponentV {
        ComponentV {
            base: self.base@,
            element_type: self.element_type,
            technology: opt_tech_view(self.technology),
            system_id: self.system_id@,
            container_id: self.container_id@,
        }
    }
}

pub struct RelationshipV {
    pub from: Seq<char>,
    pub to: Seq<char>,
    pub description: Option<Seq<char>>,
    pub technology: Option<Seq<Seq<char>>>,
    pub tags: Option<Seq<Seq<char>>>,
    pub properties: Option<Seq<(Seq<char>, YamlView)>>,
}

impl View for Relationship {
    type V = RelationshipV;

    open spec fn view(&self) -> RelationshipV {
        RelationshipV {
            from: self.from@,
            to: self.to@,
            description: opt_str_view(self.description),
            technology: opt_tech_view(self.technology),
            tags: opt_strs_view(self.tags),
            properties: opt_props_view(self.properties),
        }
    }
}

pub struct FlowStepV {
    pub seq: int,
    pub from: Seq<char>,
    pub to: Seq<char>,
    pub description: Option<Seq<char>>,
    pub technology: Option<Seq<Seq<char>>>,
}

impl View for FlowStep {
    type V = FlowStepV;

    open spec fn view(&self) -> FlowStepV {
        FlowStepV {
            seq: self.seq as int,
            from: self.from@,
            to: self.to@,
            description: opt_str_view(self.description),
            technology: opt_tech_view(self.technology),
        }
    }
}

pub struct FlowV {
    pub id: Seq<char>,
    pub name: Seq<char>,
    pub description: Option<Seq<char>>,
    pub steps: Seq<FlowStepV>,
    pub tags: Option<Seq<Seq<char>>>,
}

impl View for Flow {
    type V = FlowV;

    open spec fn view(&self) -> FlowV {
        FlowV {
            id: self.id@,
            name: self.name@,
            description: opt_str_view(self.description),
            steps: self.steps@.map_values(|s: FlowStep| s@),
            tags: opt_strs_view(self.tags),
        }
    }
}

pub struct ContainerInstanceV {
    pub container: Seq<char>,
    pub replicas: Option<int>,
    pub properties: Option<Seq<(Seq<char>, YamlView)>>,
}

impl View for ContainerInstance {
    type V = ContainerInstanceV;

    open spec fn view(&self) -> ContainerInstanceV {
        ContainerInstanceV {
            container: self.container@,
            replicas: match self.replicas {
                Some(r) => Some(r as int),
                None => None,
            },
            properties: opt_props_view(self.properties),
        }
    }
}

pub struct DeploymentNodeV {
    pub id: Seq<char>,
    pub name: Seq<char>,
    pub technology: Option<Seq<Seq<char>>>,
    pub children: Option<Seq<DeploymentNodeV>>,
    pub instances: Option<Seq<ContainerInstanceV>>,
    pub properties: Option<Seq<(Seq<char>, YamlView)>>,
}

pub open spec fn node_view(n: DeploymentNode) -> DeploymentNodeV
    decreases n,
{
    DeploymentNodeV {
        id: n.id@,
        name: n.name@,
        technology: opt_tech_view(n.technology),
        children: match n.children {
            Some(children) => {
                proof {
                    assert(decreases_to!(n => n.children));
                    assert(decreases_to!(n.children => children));
                    assert(decreases_to!(children => children@));
                }
                Some(node_views(children@))
            },
            None => None,
        },
        instances: match n.instances {
            Some(insts) => Some(insts@.map_values(|i: ContainerInstance| i@)),
            None => None,
        },
        properties: opt_props_view(n.properties),
    }
}

pub open spec fn node_views(nodes: Seq<DeploymentNode>) -> Seq<DeploymentNodeV>
    decreases nodes,
{
    if nodes.len() == 0 {
        Seq::empty()
    } else {
        proof {
            assert(decreases_to!(nodes => nodes[0]));
        }
        seq![node_view(nodes[0])] + node_views(nodes.drop_first())
    }
}

pub proof fn lemma_node_views(nodes: Seq<DeploymentNode>)
    ensures
        node_views(nodes).len() == nodes.len(),
        forall|i: int|
            0 <= i < nodes.len() ==> node_views(nodes)[i] == node_view(#[trigger] nodes[i]),
    decreases nodes,
{
    if nodes.len() > 0 {
        lemma_node_views(nodes.drop_first());
        assert forall|i: int|
            0 <= i < nodes.len() implies node_views(nodes)[i] == node_view(
            #[trigger] nodes[i],
        ) by {
            if i > 0 {
                assert(nodes.drop_first()[i - 1] == nodes[i]);
                assert(node_views(nodes)[i] == node_views(nodes.drop_first())[i - 1]);
            }
        }
    }
}

impl View for DeploymentNode {
    type V = DeploymentNodeV;

    open spec fn view(&self) -> DeploymentNodeV {
        node_view(*self)
    }
}

pub struct DeploymentV {
    pub id: Seq<char>,
    pub name: Seq<char>,
    pub description: Option<Seq<char>>,
    pub nodes: Option<Seq<DeploymentNodeV>>,
}

impl View for Deployment {
    type V = DeploymentV;

    open spec fn view(&self) -> DeploymentV {
        DeploymentV {
            id: self.id@,
            name: self.name@,
            description: opt_str_view(self.description),
            nodes: match self.nodes {
                Some(nodes) => Some(node_views(nodes@)),
                None => None,
            },
        }
    }
}

} // verus!
