//! Interpretation of untyped document trees as typed records: the fragment
//! shape (persons, systems, containers, components, relationships, flows,
//! deployments) and the manifest shape (version, name, schema, include,
//! imports, options).  Field by field the rules mirror the documents the
//! loader accepts: required strings, optional scalars that may also be null,
//! collections that default to empty when absent, technology entries given
//! either as a list or as one comma-separated string, and unknown keys
//! ignored.

use vstd::prelude::*;
use vstd::string::StringExecFns;
use crate::strutil::{spec_trim, spec_split, split_char, str_eq, trim};
use crate::file::{DataFile, DataFileV, Import, ImportV, ModFile, ModFileV};
use crate::types::{
    BaseElement, BaseV, Component, ComponentV, Container, ContainerInstance, ContainerInstanceV,
    ContainerV, Deployment, DeploymentNode, DeploymentNodeV, DeploymentV, ElementType, Flow,
    FlowStep, FlowStepV, FlowV, Options, Person, PersonV, Relationship, RelationshipV,
    SoftwareSystem, SystemV, Technology, opt_props_view, opt_str_view, opt_strs_view,
    opt_tech_view,
};
use crate::yaml::{
    dict_get, entry_views, lemma_entry_views, lemma_key_index, spec_dict_get, spec_key_index,
    Yaml, YamlView,
};

verus! {

/// Entry list of a document mapping, as a mathematical value.
pub type EntriesV = Seq<(Seq<char>, YamlView)>;

/// A required string field: present and a string, or nothing.
pub open spec fn dec_req_str(es: EntriesV, k: Seq<char>) -> Option<Seq<char>> {
    match spec_dict_get(es, k) {
        Some(YamlView::Str(s)) => Some(s),
        _ => None,
    }
}

/// An optional string field: absent or null reads as `None`.
pub open spec fn dec_opt_str(es: EntriesV, k: Seq<char>) -> Option<Option<Seq<char>>> {
    match spec_dict_get(es, k) {
        None => Some(None),
        Some(YamlView::Null) => Some(None),
        Some(YamlView::Str(s)) => Some(Some(s)),
        _ => None,
    }
}

/// A string field that defaults to empty when absent.
pub open spec fn dec_def_str(es: EntriesV, k: Seq<char>) -> Option<Seq<char>> {
    match spec_dict_get(es, k) {
        None => Some(Seq::empty()),
        Some(YamlView::Str(s)) => Some(s),
        _ => None,
    }
}

/// An optional boolean field: absent or null reads as `None`.
pub open spec fn dec_opt_bool(es: EntriesV, k: Seq<char>) -> Option<Option<bool>> {
    match spec_dict_get(es, k) {
        None => Some(None),
        Some(YamlView::Null) => Some(None),
        Some(YamlView::Bool(b)) => Some(Some(b)),
        _ => None,
    }
}

/// An optional 32-bit integer field: absent or null reads as `None`.
pub open spec fn dec_opt_i32(es: EntriesV, k: Seq<char>) -> Option<Option<int>> {
    match spec_dict_get(es, k) {
        None => Some(None),
        Some(YamlView::Null) => Some(None),
        Some(YamlView::Int(i)) => if i32::MIN <= i <= i32::MAX {
            Some(Some(i))
        } else {
            None
        },
        _ => None,
    }
}

/// A required 32-bit integer field.
pub open spec fn dec_req_i32(es: EntriesV, k: Seq<char>) -> Option<int> {
    match spec_dict_get(es, k) {
        Some(YamlView::Int(i)) => if i32::MIN <= i <= i32::MAX {
            Some(i)
        } else {
            None
        },
        _ => None,
    }
}

/// The first `k` items as strings; nothing when one is not a string.
pub open spec fn dec_strs_k(items: Seq<YamlView>, k: int) -> Option<Seq<Seq<char>>>
    decreases k,
{
    if k <= 0 {
        Some(Seq::empty())
    } else {
        match (dec_strs_k(items, k - 1), items[k - 1]) {
            (Some(acc), YamlView::Str(s)) => Some(acc.push(s)),
            _ => None,
        }
    }
}

proof fn lemma_dec_strs_none(items: Seq<YamlView>, j: int, k: int)
    requires
        dec_strs_k(items, j) is None,
        j <= k,
    ensures
        dec_strs_k(items, k) is None,
    decreases k,
{
    if j < k {
        lemma_dec_strs_none(items, j, k - 1);
    }
}

/// An optional list-of-strings field (tags): absent or null reads as `None`.
pub open spec fn dec_opt_strs(es: EntriesV, k: Seq<char>) -> Option<Option<Seq<Seq<char>>>> {
    match spec_dict_get(es, k) {
        None => Some(None),
        Some(YamlView::Null) => Some(None),
        Some(YamlView::List(items)) => match dec_strs_k(items, items.len() as int) {
            Some(ss) => Some(Some(ss)),
            None => None,
        },
        _ => None,
    }
}

/// An optional open-properties field: absent or null reads as `None`.
pub open spec fn dec_opt_props(es: EntriesV, k: Seq<char>) -> Option<Option<EntriesV>> {
    match spec_dict_get(es, k) {
        None => Some(None),
        Some(YamlView::Null) => Some(None),
        Some(YamlView::Dict(d)) => Some(Some(d)),
        _ => None,
    }
}

/// The first `k` comma-separated parts, trimmed, with empty parts dropped.
pub open spec fn spec_norm_parts(parts: Seq<Seq<char>>, k: int) -> Seq<Seq<char>>
    decreases k,
{
    if k <= 0 {
        Seq::empty()
    } else {
        let t = spec_trim(parts[k - 1]);
        spec_norm_parts(parts, k - 1) + (if t.len() > 0 {
            seq![t]
        } else {
            Seq::<Seq<char>>::empty()
        })
    }
}

/// A comma-separated technology string, normalized: split on commas, each
/// part trimmed, empty parts dropped; the empty string gives no entries.
pub open spec fn spec_normalize_tech(s: Seq<char>) -> Seq<Seq<char>> {
    if s.len() == 0 {
        Seq::empty()
    } else {
        let parts = spec_split(s, ',');
        spec_norm_parts(parts, parts.len() as int)
    }
}

/// An optional technology field: one comma-separated string or a list of
/// strings; absent or null reads as `None`.
pub open spec fn dec_opt_tech(es: EntriesV, k: Seq<char>) -> Option<Option<Seq<Seq<char>>>> {
    match spec_dict_get(es, k) {
        None => Some(None),
        Some(YamlView::Null) => Some(None),
        Some(YamlView::Str(s)) => Some(Some(spec_normalize_tech(s))),
        Some(YamlView::List(items)) => match dec_strs_k(items, items.len() as int) {
            Some(ss) => Some(Some(ss)),
            None => None,
        },
        _ => None,
    }
}

/// The element kind named by the `type` field, defaulting when absent.
pub open spec fn dec_elem_type(es: EntriesV, default: ElementType) -> Option<ElementType> {
    match spec_dict_get(es, "type"@) {
        None => Some(default),
        Some(YamlView::Str(s)) => if s == "person"@ {
            Some(ElementType::Person)
        } else if s == "system"@ {
            Some(ElementType::System)
        } else if s == "container"@ {
            Some(ElementType::Container)
        } else if s == "component"@ {
            Some(ElementType::Component)
        } else {
            None
        },
        _ => None,
    }
}

/// The shared element fields: required `id` and `name`, optional
/// `description`, `tags` and `properties`.
pub open spec fn dec_base(es: EntriesV) -> Option<BaseV> {
    match (
        dec_req_str(es, "id"@),
        dec_req_str(es, "name"@),
        dec_opt_str(es, "description"@),
        dec_opt_strs(es, "tags"@),
        dec_opt_props(es, "properties"@),
    ) {
        (Some(id), Some(name), Some(description), Some(tags), Some(properties)) => Some(
            BaseV { id, name, description, tags, properties },
        ),
        _ => None,
    }
}

fn get_req_str(entries: &Vec<(String, Yaml)>, key: &str) -> (r: Option<String>)
    ensures
        match r {
            Some(s) => dec_req_str(entry_views(entries@), key@) == Some(s@),
            None => dec_req_str(entry_views(entries@), key@) is None,
        },
{
    match dict_get(entries, key) {
        Some(Yaml::Str(s)) => Some(s.clone()),
        _ => None,
    }
}

fn get_opt_str(entries: &Vec<(String, Yaml)>, key: &str) -> (r: Option<Option<String>>)
    ensures
        match r {
            Some(o) => dec_opt_str(entry_views(entries@), key@) == Some(opt_str_view(o)),
            None => dec_opt_str(entry_views(entries@), key@) is None,
        },
{
    match dict_get(entries, key) {
        None => Some(None),
        Some(Yaml::Null) => Some(None),
        Some(Yaml::Str(s)) => Some(Some(s.clone())),
        Some(_) => None,
    }
}

fn get_def_str(entries: &Vec<(String, Yaml)>, key: &str) -> (r: Option<String>)
    ensures
        match r {
            Some(s) => dec_def_str(entry_views(entries@), key@) == Some(s@),
            None => dec_def_str(entry_views(entries@), key@) is None,
        },
{
    match dict_get(entries, key) {
        None => {
            let s = String::new();
            Some(s)
        },
        Some(Yaml::Str(s)) => Some(s.clone()),
        Some(_) => None,
    }
}

fn get_opt_bool(entries: &Vec<(String, Yaml)>, key: &str) -> (r: Option<Option<bool>>)
    ensures
        match r {
            Some(o) => dec_opt_bool(entry_views(entries@), key@) == Some(o),
            None => dec_opt_bool(entry_views(entries@), key@) is None,
        },
{
    match dict_get(entries, key) {
        None => Some(None),
        Some(Yaml::Null) => Some(None),
        Some(Yaml::Bool(b)) => Some(Some(*b)),
        Some(_) => None,
    }
}

fn get_opt_i32(entries: &Vec<(String, Yaml)>, key: &str) -> (r: Option<Option<i32>>)
    ensures
        match r {
            Some(o) => dec_opt_i32(entry_views(entries@), key@) == Some(
                match o {
                    Some(i) => Some(i as int),
                    None => None,
                },
            ),
            None => dec_opt_i32(entry_views(entries@), key@) is None,
        },
{
    match dict_get(entries, key) {
        None => Some(None),
        Some(Yaml::Null) => Some(None),
        Some(Yaml::Int(i)) => {
            let i = *i;
            if i32::MIN as i64 <= i && i <= i32::MAX as i64 {
                Some(Some(i as i32))
            } else {
                None
            }
        },
        Some(_) => None,
    }
}

fn get_req_i32(entries: &Vec<(String, Yaml)>, key: &str) -> (r: Option<i32>)
    ensures
        match r {
            Some(i) => dec_req_i32(entry_views(entries@), key@) == Some(i as int),
            None => dec_req_i32(entry_views(entries@), key@) is None,
        },
{
    match dict_get(entries, key) {
        Some(Yaml::Int(i)) => {
            let i = *i;
            if i32::MIN as i64 <= i && i <= i32::MAX as i64 {
                Some(i as i32)
            } else {
                None
            }
        },
        _ => None,
    }
}

fn strings_of_list(items: &Vec<Yaml>) -> (r: Option<Vec<String>>)
    ensures
        match r {
            Some(v) => dec_strs_k(crate::yaml::yaml_views(items@), items@.len() as int) == Some(
                v.deep_view(),
            ),
            None => dec_strs_k(crate::yaml::yaml_views(items@), items@.len() as int) is None,
        },
{
    let ghost views = crate::yaml::yaml_views(items@);
    proof {
        crate::yaml::lemma_yaml_views(items@);
    }
    let mut out: Vec<String> = Vec::new();
    let mut i: usize = 0;
    while i < items.len()
        invariant
            i <= items@.len(),
            views == crate::yaml::yaml_views(items@),
            views.len() == items@.len(),
            forall|j: int|
                0 <= j < items@.len() ==> views[j] == crate::yaml::yaml_view(
                    #[trigger] items@[j],
                ),
            dec_strs_k(views, i as int) == Some(out.deep_view()),
        decreases items@.len() - i,
    {
        match &items[i] {
            Yaml::Str(s) => {
                out.push(s.clone());
                proof {
                    assert(out.deep_view() =~= dec_strs_k(views, i + 1).unwrap());
                }
            },
            _ => {
                proof {
                    assert(dec_strs_k(views, i + 1) is None);
                    lemma_dec_strs_none(views, i + 1, items@.len() as int);
                }
                return None;
            },
        }
        i += 1;
    }
    Some(out)
}

fn get_opt_tags(entries: &Vec<(String, Yaml)>, key: &str) -> (r: Option<Option<Vec<String>>>)
    ensures
        match r {
            Some(o) => dec_opt_strs(entry_views(entries@), key@) == Some(opt_strs_view(o)),
            None => dec_opt_strs(entry_views(entries@), key@) is None,
        },
{
    match dict_get(entries, key) {
        None => Some(None),
        Some(Yaml::Null) => Some(None),
        Some(Yaml::List(items)) => {
            proof {
                crate::yaml::lemma_yaml_views(items@);
            }
            match strings_of_list(items) {
                Some(v) => Some(Some(v)),
                None => None,
            }
        },
        Some(_) => None,
    }
}

/// A fresh copy of an entry list, with the same mathematical value.
pub fn dup_entries(entries: &Vec<(String, Yaml)>) -> (r: Vec<(String, Yaml)>)
    ensures
        entry_views(r@) == entry_views(entries@),
{
    let mut out: Vec<(String, Yaml)> = Vec::new();
    let mut i: usize = 0;
    while i < entries.len()
        invariant
            i <= entries@.len(),
            out@.len() == i,
            forall|j: int|
                0 <= j < i ==> (#[trigger] out@[j]).0@ == entries@[j].0@ && out@[j].1@
                    == entries@[j].1@,
        decreases entries@.len() - i,
    {
        let key = entries[i].0.clone();
        let val = entries[i].1.duplicate();
        out.push((key, val));
        i += 1;
    }
    proof {
        lemma_entry_views(out@);
        lemma_entry_views(entries@);
        assert forall|j: int| 0 <= j < entries@.len() implies entry_views(out@)[j] == entry_views(
            entries@,
        )[j] by {
            assert((out@[j]).0@ == entries@[j].0@ && (out@[j]).1@ == entries@[j].1@);
        }
        assert(entry_views(out@) =~= entry_views(entries@));
    }
    out
}

fn get_opt_props(entries: &Vec<(String, Yaml)>, key: &str) -> (r: Option<
    Option<Vec<(String, Yaml)>>,
>)
    ensures
        match r {
            Some(o) => dec_opt_props(entry_views(entries@), key@) == Some(
                match o {
                    Some(p) => Some(entry_views(p@)),
                    None => None,
                },
            ),
            None => dec_opt_props(entry_views(entries@), key@) is None,
        },
{
    match dict_get(entries, key) {
        None => Some(None),
        Some(Yaml::Null) => Some(None),
        Some(Yaml::Dict(d)) => Some(Some(dup_entries(d))),
        Some(_) => None,
    }
}

/// Normalizes one comma-separated technology string.
fn normalize_tech(s: &str) -> (r: Vec<String>)
    ensures
        r.deep_view() == spec_normalize_tech(s@),
{
    let mut out: Vec<String> = Vec::new();
    if s.unicode_len() == 0 {
        proof {
            assert(out.deep_view() =~= spec_normalize_tech(s@));
        }
        return out;
    }
    let parts = split_char(s, ',');
    let ghost pv = spec_split(s@, ',');
    let mut i: usize = 0;
    while i < parts.len()
        invariant
            i <= parts@.len(),
            parts.deep_view() == pv,
            pv.len() == parts@.len(),
            out.deep_view() == spec_norm_parts(pv, i as int),
        decreases parts@.len() - i,
    {
        proof {
            assert(parts@[i as int]@ == pv[i as int]);
        }
        let t = trim(parts[i].as_str());
        if t.as_str().unicode_len() > 0 {
            out.push(t);
            proof {
                assert(out.deep_view() =~= spec_norm_parts(pv, i + 1));
            }
        } else {
            proof {
                assert(out.deep_view() =~= spec_norm_parts(pv, i + 1));
            }
        }
        i += 1;
    }
    out
}

fn get_opt_tech(entries: &Vec<(String, Yaml)>, key: &str) -> (r: Option<Option<Technology>>)
    ensures
        match r {
            Some(o) => dec_opt_tech(entry_views(entries@), key@) == Some(opt_tech_view(o)),
            None => dec_opt_tech(entry_views(entries@), key@) is None,
        },
{
    match dict_get(entries, key) {
        None => Some(None),
        Some(Yaml::Null) => Some(None),
        Some(Yaml::Str(s)) => Some(Some(Technology::new(normalize_tech(s.as_str())))),
        Some(Yaml::List(items)) => {
            proof {
                crate::yaml::lemma_yaml_views(items@);
            }
            match strings_of_list(items) {
                Some(v) => Some(Some(Technology::new(v))),
                None => None,
            }
        },
        Some(_) => None,
    }
}

fn get_elem_type(entries: &Vec<(String, Yaml)>, default: ElementType) -> (r: Option<ElementType>)
    ensures
        match r {
            Some(t) => dec_elem_type(entry_views(entries@), default) == Some(t),
            None => dec_elem_type(entry_views(entries@), default) is None,
        },
{
    match dict_get(entries, "type") {
        None => Some(default),
        Some(Yaml::Str(s)) => {
            if str_eq(s.as_str(), "person") {
                Some(ElementType::Person)
            } else if str_eq(s.as_str(), "system") {
                Some(ElementType::System)
            } else if str_eq(s.as_str(), "container") {
                Some(ElementType::Container)
            } else if str_eq(s.as_str(), "component") {
                Some(ElementType::Component)
            } else {
                None
            }
        },
        Some(_) => None,
    }
}

fn get_base(entries: &Vec<(String, Yaml)>) -> (r: Option<BaseElement>)
    ensures
        match r {
            Some(b) => dec_base(entry_views(entries@)) == Some(b@),
            None => dec_base(entry_views(entries@)) is None,
        },
{
    let id = match get_req_str(entries, "id") {
        Some(x) => x,
        None => {
            return None;
        },
    };
    let name = match get_req_str(entries, "name") {
        Some(x) => x,
        None => {
            return None;
        },
    };
    let description = match get_opt_str(entries, "description") {
        Some(x) => x,
        None => {
            return None;
        },
    };
    let tags = match get_opt_tags(entries, "tags") {
        Some(x) => x,
        None => {
            return None;
        },
    };
    let properties = match get_opt_props(entries, "properties") {
        Some(x) => x,
        None => {
            return None;
        },
    };
    Some(BaseElement { id, name, description, tags, properties })
}


/// The first `k` items decoded by `f`; nothing when any of them fails.
pub open spec fn dec_items_k<T>(
    items: Seq<YamlView>,
    f: spec_fn(YamlView) -> Option<T>,
    k: int,
) -> Option<Seq<T>>
    decreases k,
{
    if k <= 0 {
        Some(Seq::empty())
    } else {
        match (dec_items_k(items, f, k - 1), f(items[k - 1])) {
            (Some(acc), Some(x)) => Some(acc.push(x)),
            _ => None,
        }
    }
}

pub proof fn lemma_dec_items_none<T>(
    items: Seq<YamlView>,
    f: spec_fn(YamlView) -> Option<T>,
    j: int,
    k: int,
)
    requires
        dec_items_k(items, f, j) is None,
        j <= k,
    ensures
        dec_items_k(items, f, k) is None,
    decreases k,
{
    if j < k {
        lemma_dec_items_none(items, f, j, k - 1);
    }
}

/// A collection field: absent reads as empty, a list is decoded item by
/// item, anything else fails.
pub open spec fn dec_coll<T>(es: EntriesV, k: Seq<char>, f: spec_fn(YamlView) -> Option<T>) -> Option<
    Seq<T>,
> {
    match spec_dict_get(es, k) {
        None => Some(Seq::empty()),
        Some(YamlView::List(items)) => dec_items_k(items, f, items.len() as int),
        _ => None,
    }
}

/// One person record.
pub open spec fn dec_person(v: YamlView) -> Option<PersonV> {
    match v {
        YamlView::Dict(es) => match (dec_base(es), dec_elem_type(es, ElementType::Person)) {
            (Some(base), Some(element_type)) => Some(PersonV { base, element_type }),
            _ => None,
        },
        _ => None,
    }
}

/// One software-system record.
pub open spec fn dec_system(v: YamlView) -> Option<SystemV> {
    match v {
        YamlView::Dict(es) => match (
            dec_base(es),
            dec_elem_type(es, ElementType::System),
            dec_opt_bool(es, "external"@),
        ) {
            (Some(base), Some(element_type), Some(external)) => Some(
                SystemV { base, element_type, external },
            ),
            _ => None,
        },
        _ => None,
    }
}

/// One container record; `systemId` defaults to empty for later context
/// inference.
pub open spec fn dec_container(v: YamlView) -> Option<ContainerV> {
    match v {
        YamlView::Dict(es) => match (
            dec_base(es),
            dec_elem_type(es, ElementType::Container),
            dec_opt_tech(es, "technology"@),
            dec_def_str(es, "systemId"@),
        ) {
            (Some(base), Some(element_type), Some(technology), Some(system_id)) => Some(
                ContainerV { base, element_type, technology, system_id },
            ),
            _ => None,
        },
        _ => None,
    }
}

/// One component record; `systemId` and `containerId` default to empty for
/// later context inference.
pub open spec fn dec_component(v: YamlView) -> Option<ComponentV> {
    match v {
        YamlView::Dict(es) => match (
            dec_base(es),
            dec_elem_type(es, ElementType::Component),
            dec_opt_tech(es, "technology"@),
            dec_def_str(es, "systemId"@),
            dec_def_str(es, "containerId"@),
        ) {
            (
                Some(base),
                Some(element_type),
                Some(technology),
                Some(system_id),
                Some(container_id),
            ) => Some(ComponentV { base, element_type, technology, system_id, container_id }),
            _ => None,
        },
        _ => None,
    }
}

/// One relationship record.
pub open spec fn dec_relationship(v: YamlView) -> Option<RelationshipV> {
    match v {
        YamlView::Dict(es) => match (
            dec_req_str(es, "from"@),
            dec_req_str(es, "to"@),
            dec_opt_str(es, "description"@),
            dec_opt_tech(es, "technology"@),
            dec_opt_strs(es, "tags"@),
            dec_opt_props(es, "properties"@),
        ) {
            (
                Some(from),
                Some(to),
                Some(description),
                Some(technology),
                Some(tags),
                Some(properties),
            ) => Some(RelationshipV { from, to, description, technology, tags, properties }),
            _ => None,
        },
        _ => None,
    }
}

/// One flow step.
pub open spec fn dec_flow_step(v: YamlView) -> Option<FlowStepV> {
    match v {
        YamlView::Dict(es) => match (
            dec_req_i32(es, "seq"@),
            dec_req_str(es, "from"@),
            dec_req_str(es, "to"@),
            dec_opt_str(es, "description"@),
            dec_opt_tech(es, "technology"@),
        ) {
            (Some(seq), Some(from), Some(to), Some(description), Some(technology)) => Some(
                FlowStepV { seq, from, to, description, technology },
            ),
            _ => None,
        },
        _ => None,
    }
}

/// One flow record; its `steps` list is required.
pub open spec fn dec_flow(v: YamlView) -> Option<FlowV> {
    match v {
        YamlView::Dict(es) => match (
            dec_req_str(es, "id"@),
            dec_req_str(es, "name"@),
            dec_opt_str(es, "description"@),
            spec_dict_get(es, "steps"@),
            dec_opt_strs(es, "tags"@),
        ) {
            (Some(id), Some(name), Some(description), Some(YamlView::List(items)), Some(tags)) => {
                match dec_items_k(items, |x: YamlView| dec_flow_step(x), items.len() as int) {
                    Some(steps) => Some(FlowV { id, name, description, steps, tags }),
                    None => None,
                }
            },
            _ => None,
        },
        _ => None,
    }
}

/// One container instance of a deployment node.
pub open spec fn dec_instance(v: YamlView) -> Option<ContainerInstanceV> {
    match v {
        YamlView::Dict(es) => match (
            dec_req_str(es, "container"@),
            dec_opt_i32(es, "replicas"@),
            dec_opt_props(es, "properties"@),
        ) {
            (Some(container), Some(replicas), Some(properties)) => Some(
                ContainerInstanceV { container, replicas, properties },
            ),
            _ => None,
        },
        _ => None,
    }
}

/// One deployment node, with its nested children.
pub open spec fn dec_node(v: YamlView) -> Option<DeploymentNodeV>
    decreases v, 1int, 0int,
{
    match v {
        YamlView::Dict(es) => {
            let children = match spec_dict_get(es, "children"@) {
                None => Some(None),
                Some(YamlView::Null) => Some(None),
                Some(YamlView::List(items)) => {
                    proof {
                        lemma_key_index(es, "children"@);
                        let i = spec_key_index(es, "children"@);
                        assert(decreases_to!(v => es));
                        assert(decreases_to!(es => es[i]));
                        assert(decreases_to!(es[i] => es[i].1));
                        assert(es[i].1 == YamlView::List(items));
                        assert(decreases_to!(es[i].1 => items));
                    }
                    match dec_nodes_k(items, items.len() as int) {
                        Some(ns) => Some(Some(ns)),
                        None => None,
                    }
                },
                _ => None,
            };
            let instances = match spec_dict_get(es, "instances"@) {
                None => Some(None),
                Some(YamlView::Null) => Some(None),
                Some(YamlView::List(items)) => {
                    match dec_items_k(items, |x: YamlView| dec_instance(x), items.len() as int) {
                        Some(is) => Some(Some(is)),
                        None => None,
                    }
                },
                _ => None,
            };
            match (
                dec_req_str(es, "id"@),
                dec_req_str(es, "name"@),
                dec_opt_tech(es, "technology"@),
                children,
                instances,
                dec_opt_props(es, "properties"@),
            ) {
                (
                    Some(id),
                    Some(name),
                    Some(technology),
                    Some(children),
                    Some(instances),
                    Some(properties),
                ) => Some(
                    DeploymentNodeV { id, name, technology, children, instances, properties },
                ),
                _ => None,
            }
        },
        _ => None,
    }
}

/// The first `k` deployment nodes of a list.
pub open spec fn dec_nodes_k(items: Seq<YamlView>, k: int) -> Option<Seq<DeploymentNodeV>>
    decreases items, 0int, k,
{
    if k <= 0 {
        Some(Seq::empty())
    } else if k > items.len() {
        None
    } else {
        proof {
            assert(decreases_to!(items => items[k - 1]));
        }
        match (dec_nodes_k(items, k - 1), dec_node(items[k - 1])) {
            (Some(acc), Some(x)) => Some(acc.push(x)),
            _ => None,
        }
    }
}

pub proof fn lemma_dec_nodes_none(items: Seq<YamlView>, j: int, k: int)
    requires
        dec_nodes_k(items, j) is None,
        j <= k,
    ensures
        dec_nodes_k(items, k) is None,
    decreases k,
{
    if j < k {
        lemma_dec_nodes_none(items, j, k - 1);
    }
}

/// One deployment record.
pub open spec fn dec_deployment(v: YamlView) -> Option<DeploymentV> {
    match v {
        YamlView::Dict(es) => {
            let nodes = match spec_dict_get(es, "nodes"@) {
                None => Some(None),
                Some(YamlView::Null) => Some(None),
                Some(YamlView::List(items)) => match dec_nodes_k(items, items.len() as int) {
                    Some(ns) => Some(Some(ns)),
                    None => None,
                },
                _ => None,
            };
            match (
                dec_req_str(es, "id"@),
                dec_req_str(es, "name"@),
                dec_opt_str(es, "description"@),
                nodes,
            ) {
                (Some(id), Some(name), Some(description), Some(nodes)) => Some(
                    DeploymentV { id, name, description, nodes },
                ),
                _ => None,
            }
        },
        _ => None,
    }
}

/// A whole fragment document: a mapping with any subset of the seven
/// collections, each defaulting to empty when absent.
pub open spec fn dec_data_file(v: YamlView) -> Option<DataFileV> {
    match v {
        YamlView::Dict(es) => {
            let nodes_field = match spec_dict_get(es, "deployments"@) {
                None => Some(Seq::<DeploymentV>::empty()),
                Some(YamlView::List(items)) => dec_items_k(
                    items,
                    |x: YamlView| dec_deployment(x),
                    items.len() as int,
                ),
                _ => None,
            };
            match (
                dec_coll(es, "persons"@, |x: YamlView| dec_person(x)),
                dec_coll(es, "systems"@, |x: YamlView| dec_system(x)),
                dec_coll(es, "containers"@, |x: YamlView| dec_container(x)),
                dec_coll(es, "components"@, |x: YamlView| dec_component(x)),
                dec_coll(es, "relationships"@, |x: YamlView| dec_relationship(x)),
                dec_coll(es, "flows"@, |x: YamlView| dec_flow(x)),
                nodes_field,
            ) {
                (
                    Some(persons),
                    Some(systems),
                    Some(containers),
                    Some(components),
                    Some(relationships),
                    Some(flows),
                    Some(deployments),
                ) => Some(
                    DataFileV {
                        persons,
                        systems,
                        containers,
                        components,
                        relationships,
                        flows,
                        deployments,
                    },
                ),
                _ => None,
            }
        },
        _ => None,
    }
}


/// The manifest key that lists the fragment glob patterns.
pub open spec fn spec_patterns_key() -> Seq<char> {
    seq!['i', 'n', 'c', 'l', 'u', 'd', 'e']
}

fn patterns_key() -> (r: String)
    ensures
        r@ == spec_patterns_key(),
{
    let mut k = String::from_str("inclu");
    k.append("de");
    proof {
        reveal_strlit("inclu");
        reveal_strlit("de");
        assert(k@ =~= spec_patterns_key());
    }
    k
}

/// A list-of-strings field: absent reads as empty.
pub open spec fn dec_str_coll(es: EntriesV, k: Seq<char>) -> Option<Seq<Seq<char>>> {
    match spec_dict_get(es, k) {
        None => Some(Seq::empty()),
        Some(YamlView::List(items)) => dec_strs_k(items, items.len() as int),
        _ => None,
    }
}

/// One import declaration: a required `source` and optional `ref` and
/// `path`.
pub open spec fn dec_import(v: YamlView) -> Option<ImportV> {
    match v {
        YamlView::Dict(es) => match (
            dec_req_str(es, "source"@),
            dec_opt_str(es, "ref"@),
            dec_opt_str(es, "path"@),
        ) {
            (Some(source), Some(reference), Some(path)) => Some(
                ImportV { source, reference, path },
            ),
            _ => None,
        },
        _ => None,
    }
}

/// The first `k` entries of the imports mapping, each value an import.
pub open spec fn dec_imports_k(d: EntriesV, k: int) -> Option<Seq<(Seq<char>, ImportV)>>
    decreases k,
{
    if k <= 0 {
        Some(Seq::empty())
    } else {
        match (dec_imports_k(d, k - 1), dec_import(d[k - 1].1)) {
            (Some(acc), Some(imp)) => Some(acc.push((d[k - 1].0, imp))),
            _ => None,
        }
    }
}

proof fn lemma_dec_imports_none(d: EntriesV, j: int, k: int)
    requires
        dec_imports_k(d, j) is None,
        j <= k,
    ensures
        dec_imports_k(d, k) is None,
    decreases k,
{
    if j < k {
        lemma_dec_imports_none(d, j, k - 1);
    }
}

/// The imports mapping: absent reads as empty.
pub open spec fn dec_imports(es: EntriesV) -> Option<Seq<(Seq<char>, ImportV)>> {
    match spec_dict_get(es, "imports"@) {
        None => Some(Seq::empty()),
        Some(YamlView::Dict(d)) => dec_imports_k(d, d.len() as int),
        _ => None,
    }
}

/// The options mapping: absent reads as the defaults; `showMinimap`
/// defaults to off.
pub open spec fn dec_options(es: EntriesV) -> Option<Options> {
    match spec_dict_get(es, "options"@) {
        None => Some(Options { show_minimap: false }),
        Some(YamlView::Dict(d)) => match spec_dict_get(d, "showMinimap"@) {
            None => Some(Options { show_minimap: false }),
            Some(YamlView::Bool(b)) => Some(Options { show_minimap: b }),
            _ => None,
        },
        _ => None,
    }
}

/// A whole manifest document.  `version` and `name` must be strings (their
/// non-emptiness is checked separately by the loader); the pattern list and
/// imports default to empty, the options to their defaults.
pub open spec fn dec_mod_file(v: YamlView) -> Option<ModFileV> {
    match v {
        YamlView::Dict(es) => match (
            dec_req_str(es, "version"@),
            dec_req_str(es, "name"@),
            dec_opt_str(es, "schema"@),
            dec_str_coll(es, spec_patterns_key()),
            dec_imports(es),
            dec_options(es),
        ) {
            (
                Some(version),
                Some(name),
                Some(schema),
                Some(patterns),
                Some(imports),
                Some(options),
            ) => Some(ModFileV { version, name, schema, patterns, imports, options }),
            _ => None,
        },
        _ => None,
    }
}

fn person_from_yaml(v: &Yaml) -> (r: Option<Person>)
    ensures
        match r {
            Some(p) => dec_person(v@) == Some(p@),
            None => dec_person(v@) is None,
        },
{
    match v {
        Yaml::Dict(entries) => {
            let base = match get_base(entries) {
                Some(b) => b,
                None => {
                    return None;
                },
            };
            let element_type = match get_elem_type(entries, ElementType::Person) {
                Some(t) => t,
                None => {
                    return None;
                },
            };
            Some(Person { base, element_type })
        },
        _ => None,
    }
}

fn system_from_yaml(v: &Yaml) -> (r: Option<SoftwareSystem>)
    ensures
        match r {
            Some(x) => dec_system(v@) == Some(x@),
            None => dec_system(v@) is None,
        },
{
    match v {
        Yaml::Dict(entries) => {
            let base = match get_base(entries) {
                Some(b) => b,
                None => {
                    return None;
                },
            };
            let element_type = match get_elem_type(entries, ElementType::System) {
                Some(t) => t,
                None => {
                    return None;
                },
            };
            let external = match get_opt_bool(entries, "external") {
                Some(e) => e,
                None => {
                    return None;
                },
            };
            Some(SoftwareSystem { base, element_type, external })
        },
        _ => None,
    }
}

fn container_from_yaml(v: &Yaml) -> (r: Option<Container>)
    ensures
        match r {
            Some(x) => dec_container(v@) == Some(x@),
            None => dec_container(v@) is None,
        },
{
    match v {
        Yaml::Dict(entries) => {
            let base = match get_base(entries) {
                Some(b) => b,
                None => {
                    return None;
                },
            };
            let element_type = match get_elem_type(entries, ElementType::Container) {
                Some(t) => t,
                None => {
                    return None;
                },
            };
            let technology = match get_opt_tech(entries, "technology") {
                Some(t) => t,
                None => {
                    return None;
                },
            };
            let system_id = match get_def_str(entries, "systemId") {
                Some(s) => s,
                None => {
                    return None;
                },
            };
            Some(Container { base, element_type, technology, system_id })
        },
        _ => None,
    }
}

fn component_from_yaml(v: &Yaml) -> (r: Option<Component>)
    ensures
        match r {
            Some(x) => dec_component(v@) == Some(x@),
            None => dec_component(v@) is None,
        },
{
    match v {
        Yaml::Dict(entries) => {
            let base = match get_base(entries) {
                Some(b) => b,
                None => {
                    return None;
                },
            };
            let element_type = match get_elem_type(entries, ElementType::Component) {
                Some(t) => t,
                None => {
                    return None;
                },
            };
            let technology = match get_opt_tech(entries, "technology") {
                Some(t) => t,
                None => {
                    return None;
                },
            };
            let system_id = match get_def_str(entries, "systemId") {
                Some(s) => s,
                None => {
                    return None;
                },
            };
            let container_id = match get_def_str(entries, "containerId") {
                Some(s) => s,
                None => {
                    return None;
                },
            };
            Some(Component { base, element_type, technology, system_id, container_id })
        },
        _ => None,
    }
}

fn relationship_from_yaml(v: &Yaml) -> (r: Option<Relationship>)
    ensures
        match r {
            Some(x) => dec_relationship(v@) == Some(x@),
            None => dec_relationship(v@) is None,
        },
{
    match v {
        Yaml::Dict(entries) => {
            let from = match get_req_str(entries, "from") {
                Some(s) => s,
                None => {
                    return None;
                },
            };
            let to = match get_req_str(entries, "to") {
                Some(s) => s,
                None => {
                    return None;
                },
            };
            let description = match get_opt_str(entries, "description") {
                Some(d) => d,
                None => {
                    return None;
                },
            };
            let technology = match get_opt_tech(entries, "technology") {
                Some(t) => t,
                None => {
                    return None;
                },
            };
            let tags = match get_opt_tags(entries, "tags") {
                Some(t) => t,
                None => {
                    return None;
                },
            };
            let properties = match get_opt_props(entries, "properties") {
                Some(p) => p,
                None => {
                    return None;
                },
            };
            Some(Relationship { from, to, description, technology, tags, properties })
        },
        _ => None,
    }
}

fn flow_step_from_yaml(v: &Yaml) -> (r: Option<FlowStep>)
    ensures
        match r {
            Some(x) => dec_flow_step(v@) == Some(x@),
            None => dec_flow_step(v@) is None,
        },
{
    match v {
        Yaml::Dict(entries) => {
            let seq = match get_req_i32(entries, "seq") {
                Some(s) => s,
                None => {
                    return None;
                },
            };
            let from = match get_req_str(entries, "from") {
                Some(s) => s,
                None => {
                    return None;
                },
            };
            let to = match get_req_str(entries, "to") {
                Some(s) => s,
                None => {
                    return None;
                },
            };
            let description = match get_opt_str(entries, "description") {
                Some(d) => d,
                None => {
                    return None;
                },
            };
            let technology = match get_opt_tech(entries, "technology") {
                Some(t) => t,
                None => {
                    return None;
                },
            };
            Some(FlowStep { seq, from, to, description, technology })
        },
        _ => None,
    }
}

fn steps_from_list(items: &Vec<Yaml>) -> (r: Option<Vec<FlowStep>>)
    ensures
        match r {
            Some(v) => dec_items_k(
                crate::yaml::yaml_views(items@),
                |x: YamlView| dec_flow_step(x),
                items@.len() as int,
            ) == Some(v@.map_values(|st: FlowStep| st@)),
            None => dec_items_k(
                crate::yaml::yaml_views(items@),
                |x: YamlView| dec_flow_step(x),
                items@.len() as int,
            ) is None,
        },
{
    let ghost views = crate::yaml::yaml_views(items@);
    let ghost f = |x: YamlView| dec_flow_step(x);
    proof {
        crate::yaml::lemma_yaml_views(items@);
    }
    let mut out: Vec<FlowStep> = Vec::new();
    let mut i: usize = 0;
    while i < items.len()
        invariant
            i <= items@.len(),
            views == crate::yaml::yaml_views(items@),
            views.len() == items@.len(),
            forall|j: int|
                0 <= j < items@.len() ==> views[j] == crate::yaml::yaml_view(
                    #[trigger] items@[j],
                ),
            dec_items_k(views, f, i as int) == Some(out@.map_values(|st: FlowStep| st@)),
        decreases items@.len() - i,
    {
        match flow_step_from_yaml(&items[i]) {
            Some(st) => {
                out.push(st);
                proof {
                    assert(out@.map_values(|st: FlowStep| st@) =~= dec_items_k(
                        views,
                        f,
                        i + 1,
                    ).unwrap());
                }
            },
            None => {
                proof {
                    assert(dec_items_k(views, f, i + 1) is None);
                    lemma_dec_items_none(views, f, i + 1, items@.len() as int);
                }
                return None;
            },
        }
        i += 1;
    }
    Some(out)
}

fn flow_from_yaml(v: &Yaml) -> (r: Option<Flow>)
    ensures
        match r {
            Some(x) => dec_flow(v@) == Some(x@),
            None => dec_flow(v@) is None,
        },
{
    match v {
        Yaml::Dict(entries) => {
            let id = match get_req_str(entries, "id") {
                Some(s) => s,
                None => {
                    return None;
                },
            };
            let name = match get_req_str(entries, "name") {
                Some(s) => s,
                None => {
                    return None;
                },
            };
            let description = match get_opt_str(entries, "description") {
                Some(d) => d,
                None => {
                    return None;
                },
            };
            let tags = match get_opt_tags(entries, "tags") {
                Some(t) => t,
                None => {
                    return None;
                },
            };
            let steps = match dict_get(entries, "steps") {
                Some(Yaml::List(items)) => {
                    proof {
                        crate::yaml::lemma_yaml_views(items@);
                    }
                    match steps_from_list(items) {
                        Some(v) => v,
                        None => {
                            return None;
                        },
                    }
                },
                _ => {
                    return None;
                },
            };
            Some(Flow { id, name, description, steps, tags })
        },
        _ => None,
    }
}

fn persons_from_list(items: &Vec<Yaml>) -> (r: Option<Vec<Person>>)
    ensures
        match r {
            Some(v) => dec_items_k(
                crate::yaml::yaml_views(items@),
                |x: YamlView| dec_person(x),
                items@.len() as int,
            ) == Some(v@.map_values(|e: Person| e@)),
            None => dec_items_k(
                crate::yaml::yaml_views(items@),
                |x: YamlView| dec_person(x),
                items@.len() as int,
            ) is None,
        },
{
    let ghost views = crate::yaml::yaml_views(items@);
    let ghost f = |x: YamlView| dec_person(x);
    proof {
        crate::yaml::lemma_yaml_views(items@);
    }
    let mut out: Vec<Person> = Vec::new();
    let mut i: usize = 0;
    while i < items.len()
        invariant
            i <= items@.len(),
            views == crate::yaml::yaml_views(items@),
            views.len() == items@.len(),
            forall|j: int|
                0 <= j < items@.len() ==> views[j] == crate::yaml::yaml_view(
                    #[trigger] items@[j],
                ),
            dec_items_k(views, f, i as int) == Some(out@.map_values(|e: Person| e@)),
        decreases items@.len() - i,
    {
        match person_from_yaml(&items[i]) {
            Some(e) => {
                out.push(e);
                proof {
                    assert(out@.map_values(|e: Person| e@) =~= dec_items_k(views, f, i + 1).unwrap());
                }
            },
            None => {
                proof {
                    assert(dec_items_k(views, f, i + 1) is None);
                    lemma_dec_items_none(views, f, i + 1, items@.len() as int);
                }
                return None;
            },
        }
        i += 1;
    }
    Some(out)
}

fn systems_from_list(items: &Vec<Yaml>) -> (r: Option<Vec<SoftwareSystem>>)
    ensures
        match r {
            Some(v) => dec_items_k(
                crate::yaml::yaml_views(items@),
                |x: YamlView| dec_system(x),
                items@.len() as int,
            ) == Some(v@.map_values(|e: SoftwareSystem| e@)),
            None => dec_items_k(
                crate::yaml::yaml_views(items@),
                |x: YamlView| dec_system(x),
                items@.len() as int,
            ) is None,
        },
{
    let ghost views = crate::yaml::yaml_views(items@);
    let ghost f = |x: YamlView| dec_system(x);
    proof {
        crate::yaml::lemma_yaml_views(items@);
    }
    let mut out: Vec<SoftwareSystem> = Vec::new();
    let mut i: usize = 0;
    while i < items.len()
        invariant
            i <= items@.len(),
            views == crate::yaml::yaml_views(items@),
            views.len() == items@.len(),
            forall|j: int|
                0 <= j < items@.len() ==> views[j] == crate::yaml::yaml_view(
                    #[trigger] items@[j],
                ),
            dec_items_k(views, f, i as int) == Some(out@.map_values(|e: SoftwareSystem| e@)),
        decreases items@.len() - i,
    {
        match system_from_yaml(&items[i]) {
            Some(e) => {
                out.push(e);
                proof {
                    assert(out@.map_values(|e: SoftwareSystem| e@) =~= dec_items_k(views, f, i + 1).unwrap());
                }
            },
            None => {
                proof {
                    assert(dec_items_k(views, f, i + 1) is None);
                    lemma_dec_items_none(views, f, i + 1, items@.len() as int);
                }
                return None;
            },
        }
        i += 1;
    }
    Some(out)
}

fn containers_from_list(items: &Vec<Yaml>) -> (r: Option<Vec<Container>>)
    ensures
        match r {
            Some(v) => dec_items_k(
                crate::yaml::yaml_views(items@),
                |x: YamlView| dec_container(x),
                items@.len() as int,
            ) == Some(v@.map_values(|e: Container| e@)),
            None => dec_items_k(
                crate::yaml::yaml_views(items@),
                |x: YamlView| dec_container(x),
                items@.len() as int,
            ) is None,
        },
{
    let ghost views = crate::yaml::yaml_views(items@);
    let ghost f = |x: YamlView| dec_container(x);
    proof {
        crate::yaml::lemma_yaml_views(items@);
    }
    let mut out: Vec<Container> = Vec::new();
    let mut i: usize = 0;
    while i < items.len()
        invariant
            i <= items@.len(),
            views == crate::yaml::yaml_views(items@),
            views.len() == items@.len(),
            forall|j: int|
                0 <= j < items@.len() ==> views[j] == crate::yaml::yaml_view(
                    #[trigger] items@[j],
                ),
            dec_items_k(views, f, i as int) == Some(out@.map_values(|e: Container| e@)),
        decreases items@.len() - i,
    {
        match container_from_yaml(&items[i]) {
            Some(e) => {
                out.push(e);
                proof {
                    assert(out@.map_values(|e: Container| e@) =~= dec_items_k(views, f, i + 1).unwrap());
                }
            },
            None => {
                proof {
                    assert(dec_items_k(views, f, i + 1) is None);
                    lemma_dec_items_none(views, f, i + 1, items@.len() as int);
                }
                return None;
            },
        }
        i += 1;
    }
    Some(out)
}

fn components_from_list(items: &Vec<Yaml>) -> (r: Option<Vec<Component>>)
    ensures
        match r {
            Some(v) => dec_items_k(
                crate::yaml::yaml_views(items@),
                |x: YamlView| dec_component(x),
                items@.len() as int,
            ) == Some(v@.map_values(|e: Component| e@)),
            None => dec_items_k(
                crate::yaml::yaml_views(items@),
                |x: YamlView| dec_component(x),
                items@.len() as int,
            ) is None,
        },
{
    let ghost views = crate::yaml::yaml_views(items@);
    let ghost f = |x: YamlView| dec_component(x);
    proof {
        crate::yaml::lemma_yaml_views(items@);
    }
    let mut out: Vec<Component> = Vec::new();
    let mut i: usize = 0;
    while i < items.len()
        invariant
            i <= items@.len(),
            views == crate::yaml::yaml_views(items@),
            views.len() == items@.len(),
            forall|j: int|
                0 <= j < items@.len() ==> views[j] == crate::yaml::yaml_view(
                    #[trigger] items@[j],
                ),
            dec_items_k(views, f, i as int) == Some(out@.map_values(|e: Component| e@)),
        decreases items@.len() - i,
    {
        match component_from_yaml(&items[i]) {
            Some(e) => {
                out.push(e);
                proof {
                    assert(out@.map_values(|e: Component| e@) =~= dec_items_k(views, f, i + 1).unwrap());
                }
            },
            None => {
                proof {
                    assert(dec_items_k(views, f, i + 1) is None);
                    lemma_dec_items_none(views, f, i + 1, items@.len() as int);
                }
                return None;
            },
        }
        i += 1;
    }
    Some(out)
}

fn relationships_from_list(items: &Vec<Yaml>) -> (r: Option<Vec<Relationship>>)
    ensures
        match r {
            Some(v) => dec_items_k(
                crate::yaml::yaml_views(items@),
                |x: YamlView| dec_relationship(x),
                items@.len() as int,
            ) == Some(v@.map_values(|e: Relationship| e@)),
            None => dec_items_k(
                crate::yaml::yaml_views(items@),
                |x: YamlView| dec_relationship(x),
                items@.len() as int,
            ) is None,
        },
{
    let ghost views = crate::yaml::yaml_views(items@);
    let ghost f = |x: YamlView| dec_relationship(x);
    proof {
        crate::yaml::lemma_yaml_views(items@);
    }
    let mut out: Vec<Relationship> = Vec::new();
    let mut i: usize = 0;
    while i < items.len()
        invariant
            i <= items@.len(),
            views == crate::yaml::yaml_views(items@),
            views.len() == items@.len(),
            forall|j: int|
                0 <= j < items@.len() ==> views[j] == crate::yaml::yaml_view(
                    #[trigger] items@[j],
                ),
            dec_items_k(views, f, i as int) == Some(out@.map_values(|e: Relationship| e@)),
        decreases items@.len() - i,
    {
        match relationship_from_yaml(&items[i]) {
            Some(e) => {
                out.push(e);
                proof {
                    assert(out@.map_values(|e: Relationship| e@) =~= dec_items_k(views, f, i + 1).unwrap());
                }
            },
            None => {
                proof {
                    assert(dec_items_k(views, f, i + 1) is None);
                    lemma_dec_items_none(views, f, i + 1, items@.len() as int);
                }
                return None;
            },
        }
        i += 1;
    }
    Some(out)
}

fn flows_from_list(items: &Vec<Yaml>) -> (r: Option<Vec<Flow>>)
    ensures
        match r {
            Some(v) => dec_items_k(
                crate::yaml::yaml_views(items@),
                |x: YamlView| dec_flow(x),
                items@.len() as int,
            ) == Some(v@.map_values(|e: Flow| e@)),
            None => dec_items_k(
                crate::yaml::yaml_views(items@),
                |x: YamlView| dec_flow(x),
                items@.len() as int,
            ) is None,
        },
{
    let ghost views = crate::yaml::yaml_views(items@);
    let ghost f = |x: YamlView| dec_flow(x);
    proof {
        crate::yaml::lemma_yaml_views(items@);
    }
    let mut out: Vec<Flow> = Vec::new();
    let mut i: usize = 0;
    while i < items.len()
        invariant
            i <= items@.len(),
            views == crate::yaml::yaml_views(items@),
            views.len() == items@.len(),
            forall|j: int|
                0 <= j < items@.len() ==> views[j] == crate::yaml::yaml_view(
                    #[trigger] items@[j],
                ),
            dec_items_k(views, f, i as int) == Some(out@.map_values(|e: Flow| e@)),
        decreases items@.len() - i,
    {
        match flow_from_yaml(&items[i]) {
            Some(e) => {
                out.push(e);
                proof {
                    assert(out@.map_values(|e: Flow| e@) =~= dec_items_k(views, f, i + 1).unwrap());
                }
            },
            None => {
                proof {
                    assert(dec_items_k(views, f, i + 1) is None);
                    lemma_dec_items_none(views, f, i + 1, items@.len() as int);
                }
                return None;
            },
        }
        i += 1;
    }
    Some(out)
}

fn instances_from_list(items: &Vec<Yaml>) -> (r: Option<Vec<ContainerInstance>>)
    ensures
        match r {
            Some(v) => dec_items_k(
                crate::yaml::yaml_views(items@),
                |x: YamlView| dec_instance(x),
                items@.len() as int,
            ) == Some(v@.map_values(|e: ContainerInstance| e@)),
            None => dec_items_k(
                crate::yaml::yaml_views(items@),
                |x: YamlView| dec_instance(x),
                items@.len() as int,
            ) is None,
        },
{
    let ghost views = crate::yaml::yaml_views(items@);
    let ghost f = |x: YamlView| dec_instance(x);
    proof {
        crate::yaml::lemma_yaml_views(items@);
    }
    let mut out: Vec<ContainerInstance> = Vec::new();
    let mut i: usize = 0;
    while i < items.len()
        invariant
            i <= items@.len(),
            views == crate::yaml::yaml_views(items@),
            views.len() == items@.len(),
            forall|j: int|
                0 <= j < items@.len() ==> views[j] == crate::yaml::yaml_view(
                    #[trigger] items@[j],
                ),
            dec_items_k(views, f, i as int) == Some(out@.map_values(|e: ContainerInstance| e@)),
        decreases items@.len() - i,
    {
        match instance_from_yaml(&items[i]) {
            Some(e) => {
                out.push(e);
                proof {
                    assert(out@.map_values(|e: ContainerInstance| e@) =~= dec_items_k(views, f, i + 1).unwrap());
                }
            },
            None => {
                proof {
                    assert(dec_items_k(views, f, i + 1) is None);
                    lemma_dec_items_none(views, f, i + 1, items@.len() as int);
                }
                return None;
            },
        }
        i += 1;
    }
    Some(out)
}

fn deployments_from_list(items: &Vec<Yaml>) -> (r: Option<Vec<Deployment>>)
    ensures
        match r {
            Some(v) => dec_items_k(
                crate::yaml::yaml_views(items@),
                |x: YamlView| dec_deployment(x),
                items@.len() as int,
            ) == Some(v@.map_values(|e: Deployment| e@)),
            None => dec_items_k(
                crate::yaml::yaml_views(items@),
                |x: YamlView| dec_deployment(x),
                items@.len() as int,
            ) is None,
        },
{
    let ghost views = crate::yaml::yaml_views(items@);
    let ghost f = |x: YamlView| dec_deployment(x);
    proof {
        crate::yaml::lemma_yaml_views(items@);
    }
    let mut out: Vec<Deployment> = Vec::new();
    let mut i: usize = 0;
    while i < items.len()
        invariant
            i <= items@.len(),
            views == crate::yaml::yaml_views(items@),
            views.len() == items@.len(),
            forall|j: int|
                0 <= j < items@.len() ==> views[j] == crate::yaml::yaml_view(
                    #[trigger] items@[j],
                ),
            dec_items_k(views, f, i as int) == Some(out@.map_values(|e: Deployment| e@)),
        decreases items@.len() - i,
    {
        match deployment_from_yaml(&items[i]) {
            Some(e) => {
                out.push(e);
                proof {
                    assert(out@.map_values(|e: Deployment| e@) =~= dec_items_k(views, f, i + 1).unwrap());
                }
            },
            None => {
                proof {
                    assert(dec_items_k(views, f, i + 1) is None);
                    lemma_dec_items_none(views, f, i + 1, items@.len() as int);
                }
                return None;
            },
        }
        i += 1;
    }
    Some(out)
}

fn instance_from_yaml(v: &Yaml) -> (r: Option<ContainerInstance>)
    ensures
        match r {
            Some(x) => dec_instance(v@) == Some(x@),
            None => dec_instance(v@) is None,
        },
{
    match v {
        Yaml::Dict(entries) => {
            let container = match get_req_str(entries, "container") {
                Some(s) => s,
                None => {
                    return None;
                },
            };
            let replicas = match get_opt_i32(entries, "replicas") {
                Some(x) => x,
                None => {
                    return None;
                },
            };
            let properties = match get_opt_props(entries, "properties") {
                Some(p) => p,
                None => {
                    return None;
                },
            };
            Some(ContainerInstance { container, replicas, properties })
        },
        _ => None,
    }
}

fn node_from_yaml(v: &Yaml) -> (r: Option<DeploymentNode>)
    ensures
        match r {
            Some(x) => dec_node(v@) == Some(x@),
            None => dec_node(v@) is None,
        },
    decreases *v,
{
    match v {
        Yaml::Dict(entries) => {
            let ghost es = entry_views(entries@);
            let id = match get_req_str(entries, "id") {
                Some(s) => s,
                None => {
                    return None;
                },
            };
            let name = match get_req_str(entries, "name") {
                Some(s) => s,
                None => {
                    return None;
                },
            };
            let technology = match get_opt_tech(entries, "technology") {
                Some(t) => t,
                None => {
                    return None;
                },
            };
            let children: Option<Vec<DeploymentNode>> = match dict_get(entries, "children") {
                None => None,
                Some(Yaml::Null) => None,
                Some(cv) => {
                    match cv {
                        Yaml::List(citems) => {
                            proof {
                                crate::yaml::lemma_yaml_views(citems@);
                            }
                            let ghost cviews = crate::yaml::yaml_views(citems@);
                            let mut out: Vec<DeploymentNode> = Vec::new();
                            let mut i: usize = 0;
                            while i < citems.len()
                                invariant
                                    i <= citems@.len(),
                                    cviews == crate::yaml::yaml_views(citems@),
                                    cviews.len() == citems@.len(),
                                    forall|j: int|
                                        0 <= j < citems@.len() ==> cviews[j]
                                            == crate::yaml::yaml_view(#[trigger] citems@[j]),
                                    dec_nodes_k(cviews, i as int) == Some(
                                        out@.map_values(|e: DeploymentNode| e@),
                                    ),
                                decreases citems@.len() - i,
                            {
                                proof {
                                    assert(decreases_to!(*v => v->Dict_0));
                                    assert(v->Dict_0 == *entries);
                                    assert(decreases_to!(*entries => entries@));
                                    let ghost w = choose|w: int|
                                        0 <= w < entries@.len() && *cv == (
                                        #[trigger] entries@[w]).1;
                                    assert(decreases_to!(entries@ => entries@[w]));
                                    assert(decreases_to!(entries@[w] => entries@[w].1));
                                    assert(decreases_to!(*cv => cv->List_0));
                                    assert(cv->List_0 == *citems);
                                    assert(decreases_to!(*citems => citems@));
                                    assert(decreases_to!(citems@ => citems@[i as int]));
                                }
                                match node_from_yaml(&citems[i]) {
                                    Some(n) => {
                                        out.push(n);
                                        proof {
                                            assert(out@.map_values(|e: DeploymentNode| e@)
                                                =~= dec_nodes_k(cviews, i + 1).unwrap());
                                        }
                                    },
                                    None => {
                                        proof {
                                            assert(dec_nodes_k(cviews, i + 1) is None);
                                            lemma_dec_nodes_none(
                                                cviews,
                                                i + 1,
                                                citems@.len() as int,
                                            );
                                        }
                                        return None;
                                    },
                                }
                                i += 1;
                            }
                            Some(out)
                        },
                        _ => {
                            return None;
                        },
                    }
                },
            };
            let instances: Option<Vec<ContainerInstance>> = match dict_get(
                entries,
                "instances",
            ) {
                None => None,
                Some(Yaml::Null) => None,
                Some(Yaml::List(items)) => {
                    proof {
                        crate::yaml::lemma_yaml_views(items@);
                    }
                    match instances_from_list(items) {
                        Some(v) => Some(v),
                        None => {
                            return None;
                        },
                    }
                },
                Some(_) => {
                    return None;
                },
            };
            let properties = match get_opt_props(entries, "properties") {
                Some(p) => p,
                None => {
                    return None;
                },
            };
            let node = DeploymentNode { id, name, technology, children, instances, properties };
            proof {
                match &node.children {
                    Some(c) => {
                        crate::types::lemma_node_views(c@);
                        assert(crate::types::node_views(c@) =~= c@.map_values(
                            |e: DeploymentNode| e@,
                        ));
                    },
                    None => {},
                }
            }
            Some(node)
        },
        _ => None,
    }
}

fn deployment_from_yaml(v: &Yaml) -> (r: Option<Deployment>)
    ensures
        match r {
            Some(x) => dec_deployment(v@) == Some(x@),
            None => dec_deployment(v@) is None,
        },
{
    match v {
        Yaml::Dict(entries) => {
            let id = match get_req_str(entries, "id") {
                Some(s) => s,
                None => {
                    return None;
                },
            };
            let name = match get_req_str(entries, "name") {
                Some(s) => s,
                None => {
                    return None;
                },
            };
            let description = match get_opt_str(entries, "description") {
                Some(d) => d,
                None => {
                    return None;
                },
            };
            let nodes: Option<Vec<DeploymentNode>> = match dict_get(entries, "nodes") {
                None => None,
                Some(Yaml::Null) => None,
                Some(Yaml::List(items)) => {
                    proof {
                        crate::yaml::lemma_yaml_views(items@);
                    }
                    match nodes_from_list(items) {
                        Some(v) => Some(v),
                        None => {
                            return None;
                        },
                    }
                },
                Some(_) => {
                    return None;
                },
            };
            let dep = Deployment { id, name, description, nodes };
            proof {
                match &dep.nodes {
                    Some(ns) => {
                        crate::types::lemma_node_views(ns@);
                        assert(crate::types::node_views(ns@) =~= ns@.map_values(
                            |e: DeploymentNode| e@,
                        ));
                    },
                    None => {},
                }
            }
            Some(dep)
        },
        _ => None,
    }
}

fn nodes_from_list(items: &Vec<Yaml>) -> (r: Option<Vec<DeploymentNode>>)
    ensures
        match r {
            Some(v) => dec_nodes_k(crate::yaml::yaml_views(items@), items@.len() as int) == Some(
                v@.map_values(|e: DeploymentNode| e@),
            ),
            None => dec_nodes_k(crate::yaml::yaml_views(items@), items@.len() as int) is None,
        },
{
    let ghost views = crate::yaml::yaml_views(items@);
    proof {
        crate::yaml::lemma_yaml_views(items@);
    }
    let mut out: Vec<DeploymentNode> = Vec::new();
    let mut i: usize = 0;
    while i < items.len()
        invariant
            i <= items@.len(),
            views == crate::yaml::yaml_views(items@),
            views.len() == items@.len(),
            forall|j: int|
                0 <= j < items@.len() ==> views[j] == crate::yaml::yaml_view(
                    #[trigger] items@[j],
                ),
            dec_nodes_k(views, i as int) == Some(out@.map_values(|e: DeploymentNode| e@)),
        decreases items@.len() - i,
    {
        match node_from_yaml(&items[i]) {
            Some(n) => {
                out.push(n);
                proof {
                    assert(out@.map_values(|e: DeploymentNode| e@) =~= dec_nodes_k(
                        views,
                        i + 1,
                    ).unwrap());
                }
            },
            None => {
                proof {
                    assert(dec_nodes_k(views, i + 1) is None);
                    lemma_dec_nodes_none(views, i + 1, items@.len() as int);
                }
                return None;
            },
        }
        i += 1;
    }
    Some(out)
}

/// Decodes a whole fragment document into typed records, exactly when the
/// document has the fragment shape.
pub fn data_file_from_yaml(v: &Yaml) -> (r: Option<DataFile>)
    ensures
        match r {
            Some(df) => dec_data_file(v@) == Some(df@),
            None => dec_data_file(v@) is None,
        },
{
    match v {
        Yaml::Dict(entries) => {
            let persons = match dict_get(entries, "persons") {
                None => Vec::new(),
                Some(Yaml::List(items)) => {
                    proof {
                        crate::yaml::lemma_yaml_views(items@);
                    }
                    match persons_from_list(items) {
                        Some(x) => x,
                        None => {
                            return None;
                        },
                    }
                },
                Some(_) => {
                    return None;
                },
            };
            let systems = match dict_get(entries, "systems") {
                None => Vec::new(),
                Some(Yaml::List(items)) => {
                    proof {
                        crate::yaml::lemma_yaml_views(items@);
                    }
                    match systems_from_list(items) {
                        Some(x) => x,
                        None => {
                            return None;
                        },
                    }
                },
                Some(_) => {
                    return None;
                },
            };
            let containers = match dict_get(entries, "containers") {
                None => Vec::new(),
                Some(Yaml::List(items)) => {
                    proof {
                        crate::yaml::lemma_yaml_views(items@);
                    }
                    match containers_from_list(items) {
                        Some(x) => x,
                        None => {
                            return None;
                        },
                    }
                },
                Some(_) => {
                    return None;
                },
            };
            let components = match dict_get(entries, "components") {
                None => Vec::new(),
                Some(Yaml::List(items)) => {
                    proof {
                        crate::yaml::lemma_yaml_views(items@);
                    }
                    match components_from_list(items) {
                        Some(x) => x,
                        None => {
                            return None;
                        },
                    }
                },
                Some(_) => {
                    return None;
                },
            };
            let relationships = match dict_get(entries, "relationships") {
                None => Vec::new(),
                Some(Yaml::List(items)) => {
                    proof {
                        crate::yaml::lemma_yaml_views(items@);
                    }
                    match relationships_from_list(items) {
                        Some(x) => x,
                        None => {
                            return None;
                        },
                    }
                },
                Some(_) => {
                    return None;
                },
            };
            let flows = match dict_get(entries, "flows") {
                None => Vec::new(),
                Some(Yaml::List(items)) => {
                    proof {
                        crate::yaml::lemma_yaml_views(items@);
                    }
                    match flows_from_list(items) {
                        Some(x) => x,
                        None => {
                            return None;
                        },
                    }
                },
                Some(_) => {
                    return None;
                },
            };
            let deployments = match dict_get(entries, "deployments") {
                None => Vec::new(),
                Some(Yaml::List(items)) => {
                    proof {
                        crate::yaml::lemma_yaml_views(items@);
                    }
                    match deployments_from_list(items) {
                        Some(x) => x,
                        None => {
                            return None;
                        },
                    }
                },
                Some(_) => {
                    return None;
                },
            };
            let df = DataFile {
                persons,
                systems,
                containers,
                components,
                relationships,
                flows,
                deployments,
            };
            proof {
                if df.persons@.len() == 0 {
                    assert(df.persons@.map_values(|e: Person| e@) =~= Seq::<PersonV>::empty());
                }
                if df.systems@.len() == 0 {
                    assert(df.systems@.map_values(|e: SoftwareSystem| e@) =~= Seq::<
                        SystemV,
                    >::empty());
                }
                if df.containers@.len() == 0 {
                    assert(df.containers@.map_values(|e: Container| e@) =~= Seq::<
                        ContainerV,
                    >::empty());
                }
                if df.components@.len() == 0 {
                    assert(df.components@.map_values(|e: Component| e@) =~= Seq::<
                        ComponentV,
                    >::empty());
                }
                if df.relationships@.len() == 0 {
                    assert(df.relationships@.map_values(|e: Relationship| e@) =~= Seq::<
                        RelationshipV,
                    >::empty());
                }
                if df.flows@.len() == 0 {
                    assert(df.flows@.map_values(|e: Flow| e@) =~= Seq::<FlowV>::empty());
                }
                if df.deployments@.len() == 0 {
                    assert(df.deployments@.map_values(|e: Deployment| e@) =~= Seq::<
                        DeploymentV,
                    >::empty());
                }
            }
            Some(df)
        },
        _ => None,
    }
}

fn import_from_yaml(v: &Yaml) -> (r: Option<Import>)
    ensures
        match r {
            Some(x) => dec_import(v@) == Some(x@),
            None => dec_import(v@) is None,
        },
{
    match v {
        Yaml::Dict(entries) => {
            let source = match get_req_str(entries, "source") {
                Some(s) => s,
                None => {
                    return None;
                },
            };
            let reference = match get_opt_str(entries, "ref") {
                Some(s) => s,
                None => {
                    return None;
                },
            };
            let path = match get_opt_str(entries, "path") {
                Some(s) => s,
                None => {
                    return None;
                },
            };
            Some(Import { source, reference, path })
        },
        _ => None,
    }
}

fn imports_from_dict(d: &Vec<(String, Yaml)>) -> (r: Option<Vec<(String, Import)>>)
    ensures
        match r {
            Some(v) => dec_imports_k(entry_views(d@), d@.len() as int) == Some(
                Seq::new(v@.len(), |i: int| (v@[i].0@, v@[i].1@)),
            ),
            None => dec_imports_k(entry_views(d@), d@.len() as int) is None,
        },
{
    let ghost es = entry_views(d@);
    proof {
        lemma_entry_views(d@);
    }
    let mut out: Vec<(String, Import)> = Vec::new();
    let mut i: usize = 0;
    while i < d.len()
        invariant
            i <= d@.len(),
            es == entry_views(d@),
            es.len() == d@.len(),
            forall|j: int|
                0 <= j < d@.len() ==> es[j] == ((#[trigger] d@[j]).0@, crate::yaml::yaml_view(
                    d@[j].1,
                )),
            dec_imports_k(es, i as int) == Some(
                Seq::new(out@.len(), |j: int| (out@[j].0@, out@[j].1@)),
            ),
            out@.len() == i,
        decreases d@.len() - i,
    {
        match import_from_yaml(&d[i].1) {
            Some(imp) => {
                let key = d[i].0.clone();
                out.push((key, imp));
                proof {
                    assert(Seq::new(out@.len(), |j: int| (out@[j].0@, out@[j].1@))
                        =~= dec_imports_k(es, i + 1).unwrap());
                }
            },
            None => {
                proof {
                    assert(dec_imports_k(es, i + 1) is None);
                    lemma_dec_imports_none(es, i + 1, d@.len() as int);
                }
                return None;
            },
        }
        i += 1;
    }
    Some(out)
}

/// Decodes a manifest document, exactly when it has the manifest shape.
/// Emptiness of `version` and `name` is the loader's concern, not a shape
/// error.
pub fn mod_file_from_yaml(v: &Yaml) -> (r: Option<ModFile>)
    ensures
        match r {
            Some(mf) => dec_mod_file(v@) == Some(mf@),
            None => dec_mod_file(v@) is None,
        },
{
    match v {
        Yaml::Dict(entries) => {
            let version = match get_req_str(entries, "version") {
                Some(s) => s,
                None => {
                    return None;
                },
            };
            let name = match get_req_str(entries, "name") {
                Some(s) => s,
                None => {
                    return None;
                },
            };
            let schema = match get_opt_str(entries, "schema") {
                Some(s) => s,
                None => {
                    return None;
                },
            };
            let pkey = patterns_key();
            let patterns = match dict_get(entries, pkey.as_str()) {
                None => Vec::new(),
                Some(Yaml::List(items)) => {
                    proof {
                        crate::yaml::lemma_yaml_views(items@);
                    }
                    match strings_of_list(items) {
                        Some(x) => x,
                        None => {
                            return None;
                        },
                    }
                },
                Some(_) => {
                    return None;
                },
            };
            let imports = match dict_get(entries, "imports") {
                None => Vec::new(),
                Some(Yaml::Dict(d)) => {
                    proof {
                        lemma_entry_views(d@);
                    }
                    match imports_from_dict(d) {
                        Some(x) => x,
                        None => {
                            return None;
                        },
                    }
                },
                Some(_) => {
                    return None;
                },
            };
            let options = match dict_get(entries, "options") {
                None => Options { show_minimap: false },
                Some(Yaml::Dict(d)) => {
                    match dict_get(d, "showMinimap") {
                        None => Options { show_minimap: false },
                        Some(Yaml::Bool(b)) => Options { show_minimap: *b },
                        Some(_) => {
                            return None;
                        },
                    }
                },
                Some(_) => {
                    return None;
                },
            };
            let mf = ModFile { version, name, schema, patterns, imports, options };
            proof {
                if mf.patterns@.len() == 0 {
                    assert(mf.patterns.deep_view() =~= Seq::<Seq<char>>::empty());
                }
                if mf.imports@.len() == 0 {
                    assert(Seq::new(
                        mf.imports@.len(),
                        |i: int| (mf.imports@[i].0@, mf.imports@[i].1@),
                    ) =~= Seq::<(Seq<char>, ImportV)>::empty());
                }
            }
            Some(mf)
        },
        _ => None,
    }
}


/// The serialized name of an element kind.
pub open spec fn spec_type_name(t: ElementType) -> Seq<char> {
    match t {
        ElementType::Person => "person"@,
        ElementType::System => "system"@,
        ElementType::Container => "container"@,
        ElementType::Component => "component"@,
    }
}

/// A technology list as a document node.
pub open spec fn enc_strs(ts: Seq<Seq<char>>) -> YamlView {
    YamlView::List(ts.map_values(|t: Seq<char>| YamlView::Str(t)))
}

/// The shared element fields in serialization order; absent options emit no
/// key.
pub open spec fn enc_base(b: BaseV) -> EntriesV {
    seq![("id"@, YamlView::Str(b.id)), ("name"@, YamlView::Str(b.name))] + (match b.description {
        Some(d) => seq![("description"@, YamlView::Str(d))],
        None => Seq::<(Seq<char>, YamlView)>::empty(),
    }) + (match b.tags {
        Some(ts) => seq![("tags"@, enc_strs(ts))],
        None => Seq::<(Seq<char>, YamlView)>::empty(),
    }) + (match b.properties {
        Some(ps) => seq![("properties"@, YamlView::Dict(ps))],
        None => Seq::<(Seq<char>, YamlView)>::empty(),
    })
}

pub open spec fn enc_person(p: PersonV) -> YamlView {
    YamlView::Dict(
        enc_base(p.base) + seq![("type"@, YamlView::Str(spec_type_name(p.element_type)))],
    )
}

pub open spec fn enc_system(x: SystemV) -> YamlView {
    YamlView::Dict(
        enc_base(x.base) + seq![("type"@, YamlView::Str(spec_type_name(x.element_type)))] + (
        match x.external {
            Some(b) => seq![("external"@, YamlView::Bool(b))],
            None => Seq::<(Seq<char>, YamlView)>::empty(),
        }),
    )
}

pub open spec fn enc_container(x: ContainerV) -> YamlView {
    YamlView::Dict(
        enc_base(x.base) + seq![("type"@, YamlView::Str(spec_type_name(x.element_type)))] + (
        match x.technology {
            Some(ts) => seq![("technology"@, enc_strs(ts))],
            None => Seq::<(Seq<char>, YamlView)>::empty(),
        }) + seq![("systemId"@, YamlView::Str(x.system_id))],
    )
}

pub open spec fn enc_component(x: ComponentV) -> YamlView {
    YamlView::Dict(
        enc_base(x.base) + seq![("type"@, YamlView::Str(spec_type_name(x.element_type)))] + (
        match x.technology {
            Some(ts) => seq![("technology"@, enc_strs(ts))],
            None => Seq::<(Seq<char>, YamlView)>::empty(),
        }) + seq![
            ("systemId"@, YamlView::Str(x.system_id)),
            ("containerId"@, YamlView::Str(x.container_id)),
        ],
    )
}

pub open spec fn enc_relationship(x: RelationshipV) -> YamlView {
    YamlView::Dict(
        seq![("from"@, YamlView::Str(x.from)), ("to"@, YamlView::Str(x.to))] + (
        match x.description {
            Some(d) => seq![("description"@, YamlView::Str(d))],
            None => Seq::<(Seq<char>, YamlView)>::empty(),
        }) + (match x.technology {
            Some(ts) => seq![("technology"@, enc_strs(ts))],
            None => Seq::<(Seq<char>, YamlView)>::empty(),
        }) + (match x.tags {
            Some(ts) => seq![("tags"@, enc_strs(ts))],
            None => Seq::<(Seq<char>, YamlView)>::empty(),
        }) + (match x.properties {
            Some(ps) => seq![("properties"@, YamlView::Dict(ps))],
            None => Seq::<(Seq<char>, YamlView)>::empty(),
        }),
    )
}

pub open spec fn enc_flow_step(x: FlowStepV) -> YamlView {
    YamlView::Dict(
        seq![
            ("seq"@, YamlView::Int(x.seq)),
            ("from"@, YamlView::Str(x.from)),
            ("to"@, YamlView::Str(x.to)),
        ] + (match x.description {
            Some(d) => seq![("description"@, YamlView::Str(d))],
            None => Seq::<(Seq<char>, YamlView)>::empty(),
        }) + (match x.technology {
            Some(ts) => seq![("technology"@, enc_strs(ts))],
            None => Seq::<(Seq<char>, YamlView)>::empty(),
        }),
    )
}

pub open spec fn enc_flow(x: FlowV) -> YamlView {
    YamlView::Dict(
        seq![("id"@, YamlView::Str(x.id)), ("name"@, YamlView::Str(x.name))] + (
        match x.description {
            Some(d) => seq![("description"@, YamlView::Str(d))],
            None => Seq::<(Seq<char>, YamlView)>::empty(),
        }) + seq![
            ("steps"@, YamlView::List(x.steps.map_values(|s: FlowStepV| enc_flow_step(s)))),
        ] + (match x.tags {
            Some(ts) => seq![("tags"@, enc_strs(ts))],
            None => Seq::<(Seq<char>, YamlView)>::empty(),
        }),
    )
}

pub open spec fn enc_instance(x: ContainerInstanceV) -> YamlView {
    YamlView::Dict(
        seq![("container"@, YamlView::Str(x.container))] + (match x.replicas {
            Some(n) => seq![("replicas"@, YamlView::Int(n))],
            None => Seq::<(Seq<char>, YamlView)>::empty(),
        }) + (match x.properties {
            Some(ps) => seq![("properties"@, YamlView::Dict(ps))],
            None => Seq::<(Seq<char>, YamlView)>::empty(),
        }),
    )
}

pub open spec fn enc_node(x: DeploymentNodeV) -> YamlView
    decreases x, 1int,
{
    YamlView::Dict(
        seq![("id"@, YamlView::Str(x.id)), ("name"@, YamlView::Str(x.name))] + (
        match x.technology {
            Some(ts) => seq![("technology"@, enc_strs(ts))],
            None => Seq::<(Seq<char>, YamlView)>::empty(),
        }) + (match x.children {
            Some(children) => {
                proof {
                    assert(decreases_to!(x => x.children));
                    assert(decreases_to!(x.children => children));
                }
                seq![("children"@, YamlView::List(enc_nodes(children)))]
            },
            None => Seq::<(Seq<char>, YamlView)>::empty(),
        }) + (match x.instances {
            Some(insts) => seq![
                (
                    "instances"@,
                    YamlView::List(insts.map_values(|i: ContainerInstanceV| enc_instance(i))),
                ),
            ],
            None => Seq::<(Seq<char>, YamlView)>::empty(),
        }) + (match x.properties {
            Some(ps) => seq![("properties"@, YamlView::Dict(ps))],
            None => Seq::<(Seq<char>, YamlView)>::empty(),
        }),
    )
}

pub open spec fn enc_nodes(xs: Seq<DeploymentNodeV>) -> Seq<YamlView>
    decreases xs, 0int,
{
    if xs.len() == 0 {
        Seq::empty()
    } else {
        proof {
            assert(decreases_to!(xs => xs[0]));
        }
        seq![enc_node(xs[0])] + enc_nodes(xs.drop_first())
    }
}

pub proof fn lemma_enc_nodes(xs: Seq<DeploymentNodeV>)
    ensures
        enc_nodes(xs).len() == xs.len(),
        forall|i: int| 0 <= i < xs.len() ==> enc_nodes(xs)[i] == enc_node(#[trigger] xs[i]),
    decreases xs,
{
    if xs.len() > 0 {
        lemma_enc_nodes(xs.drop_first());
        assert forall|i: int|
            0 <= i < xs.len() implies enc_nodes(xs)[i] == enc_node(#[trigger] xs[i]) by {
            if i > 0 {
                assert(xs.drop_first()[i - 1] == xs[i]);
                assert(enc_nodes(xs)[i] == enc_nodes(xs.drop_first())[i - 1]);
            }
        }
    }
}

pub open spec fn enc_deployment(x: DeploymentV) -> YamlView {
    YamlView::Dict(
        seq![("id"@, YamlView::Str(x.id)), ("name"@, YamlView::Str(x.name))] + (
        match x.description {
            Some(d) => seq![("description"@, YamlView::Str(d))],
            None => Seq::<(Seq<char>, YamlView)>::empty(),
        }) + (match x.nodes {
            Some(ns) => seq![("nodes"@, YamlView::List(enc_nodes(ns)))],
            None => Seq::<(Seq<char>, YamlView)>::empty(),
        }),
    )
}

/// The whole model as one document: top-level keys `persons`, `systems`,
/// `containers`, `components`, `relationships`, `flows`, `deployments` and
/// `options`, each collection in declaration order.
pub open spec fn spec_model_doc(m: crate::model::Model) -> YamlView {
    YamlView::Dict(
        seq![
            (
                "persons"@,
                YamlView::List(m.persons@.map_values(|p: Person| enc_person(p@))),
            ),
            (
                "systems"@,
                YamlView::List(m.systems@.map_values(|x: SoftwareSystem| enc_system(x@))),
            ),
            (
                "containers"@,
                YamlView::List(m.containers@.map_values(|x: Container| enc_container(x@))),
            ),
            (
                "components"@,
                YamlView::List(m.components@.map_values(|x: Component| enc_component(x@))),
            ),
            (
                "relationships"@,
                YamlView::List(
                    m.relationships@.map_values(|x: Relationship| enc_relationship(x@)),
                ),
            ),
            ("flows"@, YamlView::List(m.flows@.map_values(|x: Flow| enc_flow(x@)))),
            (
                "deployments"@,
                YamlView::List(m.deployments@.map_values(|x: Deployment| enc_deployment(x@))),
            ),
            (
                "options"@,
                YamlView::Dict(
                    seq![("showMinimap"@, YamlView::Bool(m.options.show_minimap))],
                ),
            ),
        ],
    )
}


/// All document keys used by the fragment encoding are pairwise distinct.
pub proof fn lemma_keys_distinct()
    ensures
        "id"@ != "name"@,
        "id"@ != "description"@,
        "id"@ != "tags"@,
        "id"@ != "properties"@,
        "id"@ != "type"@,
        "id"@ != "external"@,
        "id"@ != "technology"@,
        "id"@ != "systemId"@,
        "id"@ != "containerId"@,
        "id"@ != "from"@,
        "id"@ != "to"@,
        "id"@ != "seq"@,
        "id"@ != "steps"@,
        "id"@ != "container"@,
        "id"@ != "replicas"@,
        "id"@ != "children"@,
        "id"@ != "instances"@,
        "id"@ != "nodes"@,
        "id"@ != "persons"@,
        "id"@ != "systems"@,
        "id"@ != "containers"@,
        "id"@ != "components"@,
        "id"@ != "relationships"@,
        "id"@ != "flows"@,
        "id"@ != "deployments"@,
        "id"@ != "options"@,
        "id"@ != "showMinimap"@,
        "id"@ != "person"@,
        "id"@ != "system"@,
        "id"@ != "component"@,
        "name"@ != "description"@,
        "name"@ != "tags"@,
        "name"@ != "properties"@,
        "name"@ != "type"@,
        "name"@ != "external"@,
        "name"@ != "technology"@,
        "name"@ != "systemId"@,
        "name"@ != "containerId"@,
        "name"@ != "from"@,
        "name"@ != "to"@,
        "name"@ != "seq"@,
        "name"@ != "steps"@,
        "name"@ != "container"@,
        "name"@ != "replicas"@,
        "name"@ != "children"@,
        "name"@ != "instances"@,
        "name"@ != "nodes"@,
        "name"@ != "persons"@,
        "name"@ != "systems"@,
        "name"@ != "containers"@,
        "name"@ != "components"@,
        "name"@ != "relationships"@,
        "name"@ != "flows"@,
        "name"@ != "deployments"@,
        "name"@ != "options"@,
        "name"@ != "showMinimap"@,
        "name"@ != "person"@,
        "name"@ != "system"@,
        "name"@ != "component"@,
        "description"@ != "tags"@,
        "description"@ != "properties"@,
        "description"@ != "type"@,
        "description"@ != "external"@,
        "description"@ != "technology"@,
        "description"@ != "systemId"@,
        "description"@ != "containerId"@,
        "description"@ != "from"@,
        "description"@ != "to"@,
        "description"@ != "seq"@,
        "description"@ != "steps"@,
        "description"@ != "container"@,
        "description"@ != "replicas"@,
        "description"@ != "children"@,
        "description"@ != "instances"@,
        "description"@ != "nodes"@,
        "description"@ != "persons"@,
        "description"@ != "systems"@,
        "description"@ != "containers"@,
        "description"@ != "components"@,
        "description"@ != "relationships"@,
        "description"@ != "flows"@,
        "description"@ != "deployments"@,
        "description"@ != "options"@,
        "description"@ != "showMinimap"@,
        "description"@ != "person"@,
        "description"@ != "system"@,
        "description"@ != "component"@,
        "tags"@ != "properties"@,
        "tags"@ != "type"@,
        "tags"@ != "external"@,
        "tags"@ != "technology"@,
        "tags"@ != "systemId"@,
        "tags"@ != "containerId"@,
        "tags"@ != "from"@,
        "tags"@ != "to"@,
        "tags"@ != "seq"@,
        "tags"@ != "steps"@,
        "tags"@ != "container"@,
        "tags"@ != "replicas"@,
        "tags"@ != "children"@,
        "tags"@ != "instances"@,
        "tags"@ != "nodes"@,
        "tags"@ != "persons"@,
        "tags"@ != "systems"@,
        "tags"@ != "containers"@,
        "tags"@ != "components"@,
        "tags"@ != "relationships"@,
        "tags"@ != "flows"@,
        "tags"@ != "deployments"@,
        "tags"@ != "options"@,
        "tags"@ != "showMinimap"@,
        "tags"@ != "person"@,
        "tags"@ != "system"@,
        "tags"@ != "component"@,
        "properties"@ != "type"@,
        "properties"@ != "external"@,
        "properties"@ != "technology"@,
        "properties"@ != "systemId"@,
        "properties"@ != "containerId"@,
        "properties"@ != "from"@,
        "properties"@ != "to"@,
        "properties"@ != "seq"@,
        "properties"@ != "steps"@,
        "properties"@ != "container"@,
        "properties"@ != "replicas"@,
        "properties"@ != "children"@,
        "properties"@ != "instances"@,
        "properties"@ != "nodes"@,
        "properties"@ != "persons"@,
        "properties"@ != "systems"@,
        "properties"@ != "containers"@,
        "properties"@ != "components"@,
        "properties"@ != "relationships"@,
        "properties"@ != "flows"@,
        "properties"@ != "deployments"@,
        "properties"@ != "options"@,
        "properties"@ != "showMinimap"@,
        "properties"@ != "person"@,
        "properties"@ != "system"@,
        "properties"@ != "component"@,
        "type"@ != "external"@,
        "type"@ != "technology"@,
        "type"@ != "systemId"@,
        "type"@ != "containerId"@,
        "type"@ != "from"@,
        "type"@ != "to"@,
        "type"@ != "seq"@,
        "type"@ != "steps"@,
        "type"@ != "container"@,
        "type"@ != "replicas"@,
        "type"@ != "children"@,
        "type"@ != "instances"@,
        "type"@ != "nodes"@,
        "type"@ != "persons"@,
        "type"@ != "systems"@,
        "type"@ != "containers"@,
        "type"@ != "components"@,
        "type"@ != "relationships"@,
        "type"@ != "flows"@,
        "type"@ != "deployments"@,
        "type"@ != "options"@,
        "type"@ != "showMinimap"@,
        "type"@ != "person"@,
        "type"@ != "system"@,
        "type"@ != "component"@,
        "external"@ != "technology"@,
        "external"@ != "systemId"@,
        "external"@ != "containerId"@,
        "external"@ != "from"@,
        "external"@ != "to"@,
        "external"@ != "seq"@,
        "external"@ != "steps"@,
        "external"@ != "container"@,
        "external"@ != "replicas"@,
        "external"@ != "children"@,
        "external"@ != "instances"@,
        "external"@ != "nodes"@,
        "external"@ != "persons"@,
        "external"@ != "systems"@,
        "external"@ != "containers"@,
        "external"@ != "components"@,
        "external"@ != "relationships"@,
        "external"@ != "flows"@,
        "external"@ != "deployments"@,
        "external"@ != "options"@,
        "external"@ != "showMinimap"@,
        "external"@ != "person"@,
        "external"@ != "system"@,
        "external"@ != "component"@,
        "technology"@ != "systemId"@,
        "technology"@ != "containerId"@,
        "technology"@ != "from"@,
        "technology"@ != "to"@,
        "technology"@ != "seq"@,
        "technology"@ != "steps"@,
        "technology"@ != "container"@,
        "technology"@ != "replicas"@,
        "technology"@ != "children"@,
        "technology"@ != "instances"@,
        "technology"@ != "nodes"@,
        "technology"@ != "persons"@,
        "technology"@ != "systems"@,
        "technology"@ != "containers"@,
        "technology"@ != "components"@,
        "technology"@ != "relationships"@,
        "technology"@ != "flows"@,
        "technology"@ != "deployments"@,
        "technology"@ != "options"@,
        "technology"@ != "showMinimap"@,
        "technology"@ != "person"@,
        "technology"@ != "system"@,
        "technology"@ != "component"@,
        "systemId"@ != "containerId"@,
        "systemId"@ != "from"@,
        "systemId"@ != "to"@,
        "systemId"@ != "seq"@,
        "systemId"@ != "steps"@,
        "systemId"@ != "container"@,
        "systemId"@ != "replicas"@,
        "systemId"@ != "children"@,
        "systemId"@ != "instances"@,
        "systemId"@ != "nodes"@,
        "systemId"@ != "persons"@,
        "systemId"@ != "systems"@,
        "systemId"@ != "containers"@,
        "systemId"@ != "components"@,
        "systemId"@ != "relationships"@,
        "systemId"@ != "flows"@,
        "systemId"@ != "deployments"@,
        "systemId"@ != "options"@,
        "systemId"@ != "showMinimap"@,
        "systemId"@ != "person"@,
        "systemId"@ != "system"@,
        "systemId"@ != "component"@,
        "containerId"@ != "from"@,
        "containerId"@ != "to"@,
        "containerId"@ != "seq"@,
        "containerId"@ != "steps"@,
        "containerId"@ != "container"@,
        "containerId"@ != "replicas"@,
        "containerId"@ != "children"@,
        "containerId"@ != "instances"@,
        "containerId"@ != "nodes"@,
        "containerId"@ != "persons"@,
        "containerId"@ != "systems"@,
        "containerId"@ != "containers"@,
        "containerId"@ != "components"@,
        "containerId"@ != "relationships"@,
        "containerId"@ != "flows"@,
        "containerId"@ != "deployments"@,
        "containerId"@ != "options"@,
        "containerId"@ != "showMinimap"@,
        "containerId"@ != "person"@,
        "containerId"@ != "system"@,
        "containerId"@ != "component"@,
        "from"@ != "to"@,
        "from"@ != "seq"@,
        "from"@ != "steps"@,
        "from"@ != "container"@,
        "from"@ != "replicas"@,
        "from"@ != "children"@,
        "from"@ != "instances"@,
        "from"@ != "nodes"@,
        "from"@ != "persons"@,
        "from"@ != "systems"@,
        "from"@ != "containers"@,
        "from"@ != "components"@,
        "from"@ != "relationships"@,
        "from"@ != "flows"@,
        "from"@ != "deployments"@,
        "from"@ != "options"@,
        "from"@ != "showMinimap"@,
        "from"@ != "person"@,
        "from"@ != "system"@,
        "from"@ != "component"@,
        "to"@ != "seq"@,
        "to"@ != "steps"@,
        "to"@ != "container"@,
        "to"@ != "replicas"@,
        "to"@ != "children"@,
        "to"@ != "instances"@,
        "to"@ != "nodes"@,
        "to"@ != "persons"@,
        "to"@ != "systems"@,
        "to"@ != "containers"@,
        "to"@ != "components"@,
        "to"@ != "relationships"@,
        "to"@ != "flows"@,
        "to"@ != "deployments"@,
        "to"@ != "options"@,
        "to"@ != "showMinimap"@,
        "to"@ != "person"@,
        "to"@ != "system"@,
        "to"@ != "component"@,
        "seq"@ != "steps"@,
        "seq"@ != "container"@,
        "seq"@ != "replicas"@,
        "seq"@ != "children"@,
        "seq"@ != "instances"@,
        "seq"@ != "nodes"@,
        "seq"@ != "persons"@,
        "seq"@ != "systems"@,
        "seq"@ != "containers"@,
        "seq"@ != "components"@,
        "seq"@ != "relationships"@,
        "seq"@ != "flows"@,
        "seq"@ != "deployments"@,
        "seq"@ != "options"@,
        "seq"@ != "showMinimap"@,
        "seq"@ != "person"@,
        "seq"@ != "system"@,
        "seq"@ != "component"@,
        "steps"@ != "container"@,
        "steps"@ != "replicas"@,
        "steps"@ != "children"@,
        "steps"@ != "instances"@,
        "steps"@ != "nodes"@,
        "steps"@ != "persons"@,
        "steps"@ != "systems"@,
        "steps"@ != "containers"@,
        "steps"@ != "components"@,
        "steps"@ != "relationships"@,
        "steps"@ != "flows"@,
        "steps"@ != "deployments"@,
        "steps"@ != "options"@,
        "steps"@ != "showMinimap"@,
        "steps"@ != "person"@,
        "steps"@ != "system"@,
        "steps"@ != "component"@,
        "container"@ != "replicas"@,
        "container"@ != "children"@,
        "container"@ != "instances"@,
        "container"@ != "nodes"@,
        "container"@ != "persons"@,
        "container"@ != "systems"@,
        "container"@ != "containers"@,
        "container"@ != "components"@,
        "container"@ != "relationships"@,
        "container"@ != "flows"@,
        "container"@ != "deployments"@,
        "container"@ != "options"@,
        "container"@ != "showMinimap"@,
        "container"@ != "person"@,
        "container"@ != "system"@,
        "container"@ != "component"@,
        "replicas"@ != "children"@,
        "replicas"@ != "instances"@,
        "replicas"@ != "nodes"@,
        "replicas"@ != "persons"@,
        "replicas"@ != "systems"@,
        "replicas"@ != "containers"@,
        "replicas"@ != "components"@,
        "replicas"@ != "relationships"@,
        "replicas"@ != "flows"@,
        "replicas"@ != "deployments"@,
        "replicas"@ != "options"@,
        "replicas"@ != "showMinimap"@,
        "replicas"@ != "person"@,
        "replicas"@ != "system"@,
        "replicas"@ != "component"@,
        "children"@ != "instances"@,
        "children"@ != "nodes"@,
        "children"@ != "persons"@,
        "children"@ != "systems"@,
        "children"@ != "containers"@,
        "children"@ != "components"@,
        "children"@ != "relationships"@,
        "children"@ != "flows"@,
        "children"@ != "deployments"@,
        "children"@ != "options"@,
        "children"@ != "showMinimap"@,
        "children"@ != "person"@,
        "children"@ != "system"@,
        "children"@ != "component"@,
        "instances"@ != "nodes"@,
        "instances"@ != "persons"@,
        "instances"@ != "systems"@,
        "instances"@ != "containers"@,
        "instances"@ != "components"@,
        "instances"@ != "relationships"@,
        "instances"@ != "flows"@,
        "instances"@ != "deployments"@,
        "instances"@ != "options"@,
        "instances"@ != "showMinimap"@,
        "instances"@ != "person"@,
        "instances"@ != "system"@,
        "instances"@ != "component"@,
        "nodes"@ != "persons"@,
        "nodes"@ != "systems"@,
        "nodes"@ != "containers"@,
        "nodes"@ != "components"@,
        "nodes"@ != "relationships"@,
        "nodes"@ != "flows"@,
        "nodes"@ != "deployments"@,
        "nodes"@ != "options"@,
        "nodes"@ != "showMinimap"@,
        "nodes"@ != "person"@,
        "nodes"@ != "system"@,
        "nodes"@ != "component"@,
        "persons"@ != "systems"@,
        "persons"@ != "containers"@,
        "persons"@ != "components"@,
        "persons"@ != "relationships"@,
        "persons"@ != "flows"@,
        "persons"@ != "deployments"@,
        "persons"@ != "options"@,
        "persons"@ != "showMinimap"@,
        "persons"@ != "person"@,
        "persons"@ != "system"@,
        "persons"@ != "component"@,
        "systems"@ != "containers"@,
        "systems"@ != "components"@,
        "systems"@ != "relationships"@,
        "systems"@ != "flows"@,
        "systems"@ != "deployments"@,
        "systems"@ != "options"@,
        "systems"@ != "showMinimap"@,
        "systems"@ != "person"@,
        "systems"@ != "system"@,
        "systems"@ != "component"@,
        "containers"@ != "components"@,
        "containers"@ != "relationships"@,
        "containers"@ != "flows"@,
        "containers"@ != "deployments"@,
        "containers"@ != "options"@,
        "containers"@ != "showMinimap"@,
        "containers"@ != "person"@,
        "containers"@ != "system"@,
        "containers"@ != "component"@,
        "components"@ != "relationships"@,
        "components"@ != "flows"@,
        "components"@ != "deployments"@,
        "components"@ != "options"@,
        "components"@ != "showMinimap"@,
        "components"@ != "person"@,
        "components"@ != "system"@,
        "components"@ != "component"@,
        "relationships"@ != "flows"@,
        "relationships"@ != "deployments"@,
        "relationships"@ != "options"@,
        "relationships"@ != "showMinimap"@,
        "relationships"@ != "person"@,
        "relationships"@ != "system"@,
        "relationships"@ != "component"@,
        "flows"@ != "deployments"@,
        "flows"@ != "options"@,
        "flows"@ != "showMinimap"@,
        "flows"@ != "person"@,
        "flows"@ != "system"@,
        "flows"@ != "component"@,
        "deployments"@ != "options"@,
        "deployments"@ != "showMinimap"@,
        "deployments"@ != "person"@,
        "deployments"@ != "system"@,
        "deployments"@ != "component"@,
        "options"@ != "showMinimap"@,
        "options"@ != "person"@,
        "options"@ != "system"@,
        "options"@ != "component"@,
        "showMinimap"@ != "person"@,
        "showMinimap"@ != "system"@,
        "showMinimap"@ != "component"@,
        "person"@ != "system"@,
        "person"@ != "component"@,
        "system"@ != "component"@,
{
    reveal_strlit("id");
    reveal_strlit("name");
    reveal_strlit("description");
    reveal_strlit("tags");
    reveal_strlit("properties");
    reveal_strlit("type");
    reveal_strlit("external");
    reveal_strlit("technology");
    reveal_strlit("systemId");
    reveal_strlit("containerId");
    reveal_strlit("from");
    reveal_strlit("to");
    reveal_strlit("seq");
    reveal_strlit("steps");
    reveal_strlit("container");
    reveal_strlit("replicas");
    reveal_strlit("children");
    reveal_strlit("instances");
    reveal_strlit("nodes");
    reveal_strlit("persons");
    reveal_strlit("systems");
    reveal_strlit("containers");
    reveal_strlit("components");
    reveal_strlit("relationships");
    reveal_strlit("flows");
    reveal_strlit("deployments");
    reveal_strlit("options");
    reveal_strlit("showMinimap");
    reveal_strlit("person");
    reveal_strlit("system");
    reveal_strlit("component");
    assert("id"@.len() == 2);
    assert("name"@.len() == 4);
    assert("description"@.len() == 11);
    assert("tags"@.len() == 4);
    assert("properties"@.len() == 10);
    assert("type"@.len() == 4);
    assert("external"@.len() == 8);
    assert("technology"@.len() == 10);
    assert("systemId"@.len() == 8);
    assert("containerId"@.len() == 11);
    assert("from"@.len() == 4);
    assert("to"@.len() == 2);
    assert("seq"@.len() == 3);
    assert("steps"@.len() == 5);
    assert("container"@.len() == 9);
    assert("replicas"@.len() == 8);
    assert("children"@.len() == 8);
    assert("instances"@.len() == 9);
    assert("nodes"@.len() == 5);
    assert("persons"@.len() == 7);
    assert("systems"@.len() == 7);
    assert("containers"@.len() == 10);
    assert("components"@.len() == 10);
    assert("relationships"@.len() == 13);
    assert("flows"@.len() == 5);
    assert("deployments"@.len() == 11);
    assert("options"@.len() == 7);
    assert("showMinimap"@.len() == 11);
    assert("person"@.len() == 6);
    assert("system"@.len() == 6);
    assert("component"@.len() == 9);
    assert("id"@[0] != "to"@[0]);
    assert("name"@[0] != "tags"@[0]);
    assert("name"@[0] != "type"@[0]);
    assert("name"@[0] != "from"@[0]);
    assert("description"@[0] != "containerId"@[0]);
    assert("description"@[2] != "deployments"@[2]);
    assert("description"@[0] != "showMinimap"@[0]);
    assert("tags"@[1] != "type"@[1]);
    assert("tags"@[0] != "from"@[0]);
    assert("properties"@[0] != "technology"@[0]);
    assert("properties"@[0] != "containers"@[0]);
    assert("properties"@[0] != "components"@[0]);
    assert("type"@[0] != "from"@[0]);
    assert("external"@[0] != "systemId"@[0]);
    assert("external"@[0] != "replicas"@[0]);
    assert("external"@[0] != "children"@[0]);
    assert("technology"@[0] != "containers"@[0]);
    assert("technology"@[0] != "components"@[0]);
    assert("systemId"@[0] != "replicas"@[0]);
    assert("systemId"@[0] != "children"@[0]);
    assert("containerId"@[0] != "deployments"@[0]);
    assert("containerId"@[0] != "showMinimap"@[0]);
    assert("steps"@[0] != "nodes"@[0]);
    assert("steps"@[0] != "flows"@[0]);
    assert("container"@[0] != "instances"@[0]);
    assert("container"@[2] != "component"@[2]);
    assert("replicas"@[0] != "children"@[0]);
    assert("instances"@[0] != "component"@[0]);
    assert("nodes"@[0] != "flows"@[0]);
    assert("persons"@[0] != "systems"@[0]);
    assert("persons"@[0] != "options"@[0]);
    assert("systems"@[0] != "options"@[0]);
    assert("containers"@[2] != "components"@[2]);
    assert("deployments"@[0] != "showMinimap"@[0]);
    assert("person"@[0] != "system"@[0]);
}

/// Every key of the shared fields' encoding is one of the five base keys.
pub proof fn lemma_enc_base_keys(b: BaseV)
    ensures
        forall|j: int|
            0 <= j < enc_base(b).len() ==> {
                let k = (#[trigger] enc_base(b)[j]).0;
                k == "id"@ || k == "name"@ || k == "description"@ || k == "tags"@ || k
                    == "properties"@
            },
{
}

/// Decoding the shared fields from their encoding, possibly followed by
/// further entries under other keys, gives the fields back exactly.
pub proof fn lemma_rt_base(b: BaseV, rest: EntriesV)
    requires
        forall|j: int|
            0 <= j < rest.len() ==> {
                let k = (#[trigger] rest[j]).0;
                k != "id"@ && k != "name"@ && k != "description"@ && k != "tags"@ && k
                    != "properties"@
            },
    ensures
        dec_base(enc_base(b) + rest) == Some(b),
{
    reveal_strlit("id");
    reveal_strlit("name");
    reveal_strlit("description");
    reveal_strlit("tags");
    reveal_strlit("properties");
    lemma_keys_distinct();
    let es = enc_base(b) + rest;
    let nb = enc_base(b).len() as int;
    let nd: int = if b.description is Some { 1 } else { 0 };
    let nt: int = if b.tags is Some { 1 } else { 0 };
    assert(nb == 2 + nd + nt + (if b.properties is Some { 1int } else { 0 }));
    lemma_enc_base_keys(b);
    assert(es[0] == ("id"@, YamlView::Str(b.id)));
    crate::yaml::lemma_key_index_is(es, "id"@, 0);
    assert(es[1] == ("name"@, YamlView::Str(b.name)));
    crate::yaml::lemma_key_index_is(es, "name"@, 1);
    match b.description {
        Some(d) => {
            assert(es[2] == ("description"@, YamlView::Str(d)));
            crate::yaml::lemma_key_index_is(es, "description"@, 2);
        },
        None => {
            assert forall|j: int| 0 <= j < es.len() implies (#[trigger] es[j]).0
                != "description"@ by {
                if j < nb {
                    assert(enc_base(b)[j] == es[j]);
                }
            }
            crate::yaml::lemma_dict_get_none(es, "description"@);
        },
    }
    match b.tags {
        Some(ts) => {
            assert(es[2 + nd] == ("tags"@, enc_strs(ts)));
            crate::yaml::lemma_key_index_is(es, "tags"@, 2 + nd);
            lemma_dec_strs_of_enc(ts, ts.len() as int);
            assert(ts.take(ts.len() as int) =~= ts);
        },
        None => {
            assert forall|j: int| 0 <= j < es.len() implies (#[trigger] es[j]).0 != "tags"@ by {
                if j < nb {
                    assert(enc_base(b)[j] == es[j]);
                }
            }
            crate::yaml::lemma_dict_get_none(es, "tags"@);
        },
    }
    match b.properties {
        Some(ps) => {
            assert(es[2 + nd + nt] == ("properties"@, YamlView::Dict(ps)));
            crate::yaml::lemma_key_index_is(es, "properties"@, 2 + nd + nt);
        },
        None => {
            assert forall|j: int| 0 <= j < es.len() implies (#[trigger] es[j]).0
                != "properties"@ by {
                if j < nb {
                    assert(enc_base(b)[j] == es[j]);
                }
            }
            crate::yaml::lemma_dict_get_none(es, "properties"@);
        },
    }
}

/// Decoding an encoded list of plain strings gives the strings back.
pub proof fn lemma_dec_strs_of_enc(ts: Seq<Seq<char>>, k: int)
    requires
        0 <= k <= ts.len(),
    ensures
        dec_strs_k(ts.map_values(|t: Seq<char>| YamlView::Str(t)), k) == Some(ts.take(k)),
    decreases k,
{
    if k > 0 {
        lemma_dec_strs_of_enc(ts, k - 1);
        assert(ts.take(k) =~= ts.take(k - 1).push(ts[k - 1]));
    } else {
        assert(ts.take(0) =~= Seq::<Seq<char>>::empty());
    }
}

/// Looks up the `type` entry appended after the shared fields.
proof fn lemma_type_lookup(b: BaseV, t: ElementType, rest: EntriesV)
    requires
        forall|j: int| 0 <= j < rest.len() ==> (#[trigger] rest[j]).0 != "type"@,
    ensures
        spec_dict_get(
            enc_base(b) + seq![("type"@, YamlView::Str(spec_type_name(t)))] + rest,
            "type"@,
        ) == Some(YamlView::Str(spec_type_name(t))),
        dec_elem_type(
            enc_base(b) + seq![("type"@, YamlView::Str(spec_type_name(t)))] + rest,
            t,
        ) == Some(t),
{
    reveal_strlit("id");
    reveal_strlit("name");
    reveal_strlit("description");
    reveal_strlit("tags");
    reveal_strlit("properties");
    reveal_strlit("type");
    reveal_strlit("person");
    reveal_strlit("system");
    reveal_strlit("container");
    reveal_strlit("component");
    lemma_keys_distinct();
    let es = enc_base(b) + seq![("type"@, YamlView::Str(spec_type_name(t)))] + rest;
    let nb = enc_base(b).len() as int;
    lemma_enc_base_keys(b);
    assert forall|j: int| 0 <= j < nb implies (#[trigger] es[j]).0 != "type"@ by {
        assert(es[j] == enc_base(b)[j]);
    }
    assert(es[nb] == ("type"@, YamlView::Str(spec_type_name(t))));
    crate::yaml::lemma_key_index_is(es, "type"@, nb);
}

/// Round trip of one person record.
pub proof fn lemma_rt_person(p: PersonV)
    ensures
        dec_person(enc_person(p)) == Some(p),
{
    reveal_strlit("id");
    reveal_strlit("name");
    reveal_strlit("description");
    reveal_strlit("tags");
    reveal_strlit("properties");
    reveal_strlit("type");
    lemma_keys_distinct();
    let rest = seq![("type"@, YamlView::Str(spec_type_name(p.element_type)))];
    lemma_rt_base(p.base, rest);
    lemma_type_lookup(p.base, p.element_type, Seq::empty());
    assert(enc_base(p.base) + seq![("type"@, YamlView::Str(spec_type_name(p.element_type)))]
        + Seq::<(Seq<char>, YamlView)>::empty() =~= enc_base(p.base) + rest);
}

/// Round trip of one software-system record.
pub proof fn lemma_rt_system(x: SystemV)
    ensures
        dec_system(enc_system(x)) == Some(x),
{
    reveal_strlit("id");
    reveal_strlit("name");
    reveal_strlit("description");
    reveal_strlit("tags");
    reveal_strlit("properties");
    reveal_strlit("type");
    reveal_strlit("external");
    lemma_keys_distinct();
    let ext = match x.external {
        Some(bb) => seq![("external"@, YamlView::Bool(bb))],
        None => Seq::<(Seq<char>, YamlView)>::empty(),
    };
    let rest = seq![("type"@, YamlView::Str(spec_type_name(x.element_type)))] + ext;
    lemma_rt_base(x.base, rest);
    lemma_type_lookup(x.base, x.element_type, ext);
    let es = enc_base(x.base) + seq![("type"@, YamlView::Str(spec_type_name(x.element_type)))]
        + ext;
    assert(es =~= enc_base(x.base) + rest);
    let nb = enc_base(x.base).len() as int;
    lemma_enc_base_keys(x.base);
    match x.external {
        Some(bb) => {
            assert(es[nb + 1] == ("external"@, YamlView::Bool(bb)));
            assert forall|j: int| 0 <= j < nb + 1 implies (#[trigger] es[j]).0 != "external"@ by {
                if j < nb {
                    assert(es[j] == enc_base(x.base)[j]);
                }
            }
            crate::yaml::lemma_key_index_is(es, "external"@, nb + 1);
        },
        None => {
            assert forall|j: int| 0 <= j < es.len() implies (#[trigger] es[j]).0 != "external"@ by {
                if j < nb {
                    assert(es[j] == enc_base(x.base)[j]);
                }
            }
            crate::yaml::lemma_dict_get_none(es, "external"@);
        },
    }
}

/// Round trip of one container record.
pub proof fn lemma_rt_container(x: ContainerV)
    ensures
        dec_container(enc_container(x)) == Some(x),
{
    reveal_strlit("id");
    reveal_strlit("name");
    reveal_strlit("description");
    reveal_strlit("tags");
    reveal_strlit("properties");
    reveal_strlit("type");
    reveal_strlit("technology");
    reveal_strlit("systemId");
    lemma_keys_distinct();
    let tech = match x.technology {
        Some(ts) => seq![("technology"@, enc_strs(ts))],
        None => Seq::<(Seq<char>, YamlView)>::empty(),
    };
    let tail = seq![("systemId"@, YamlView::Str(x.system_id))];
    let rest = seq![("type"@, YamlView::Str(spec_type_name(x.element_type)))] + tech + tail;
    lemma_rt_base(x.base, rest);
    lemma_type_lookup(x.base, x.element_type, tech + tail);
    let es = enc_base(x.base) + seq![("type"@, YamlView::Str(spec_type_name(x.element_type)))]
        + tech + tail;
    assert(es =~= enc_base(x.base) + rest);
    assert(es =~= enc_base(x.base) + seq![
        ("type"@, YamlView::Str(spec_type_name(x.element_type))),
    ] + (tech + tail));
    let nb = enc_base(x.base).len() as int;
    let ntc: int = if x.technology is Some { 1 } else { 0 };
    lemma_enc_base_keys(x.base);
    match x.technology {
        Some(ts) => {
            assert(es[nb + 1] == ("technology"@, enc_strs(ts)));
            assert forall|j: int|
                0 <= j < nb + 1 implies (#[trigger] es[j]).0 != "technology"@ by {
                if j < nb {
                    assert(es[j] == enc_base(x.base)[j]);
                }
            }
            crate::yaml::lemma_key_index_is(es, "technology"@, nb + 1);
            lemma_dec_strs_of_enc(ts, ts.len() as int);
            assert(ts.take(ts.len() as int) =~= ts);
        },
        None => {
            assert forall|j: int|
                0 <= j < es.len() implies (#[trigger] es[j]).0 != "technology"@ by {
                if j < nb {
                    assert(es[j] == enc_base(x.base)[j]);
                }
            }
            crate::yaml::lemma_dict_get_none(es, "technology"@);
        },
    }
    assert(es[nb + 1 + ntc] == ("systemId"@, YamlView::Str(x.system_id)));
    assert forall|j: int| 0 <= j < nb + 1 + ntc implies (#[trigger] es[j]).0 != "systemId"@ by {
        if j < nb {
            assert(es[j] == enc_base(x.base)[j]);
        }
    }
    crate::yaml::lemma_key_index_is(es, "systemId"@, nb + 1 + ntc);
    assert(dec_base(es) == Some(x.base));
    assert(dec_elem_type(es, ElementType::Container) == Some(x.element_type));
    assert(dec_opt_tech(es, "technology"@) == Some(x.technology));
    assert(dec_def_str(es, "systemId"@) == Some(x.system_id));
    assert(enc_container(x) == YamlView::Dict(es));
}

/// Round trip of one component record.
pub proof fn lemma_rt_component(x: ComponentV)
    ensures
        dec_component(enc_component(x)) == Some(x),
{
    reveal_strlit("id");
    reveal_strlit("name");
    reveal_strlit("description");
    reveal_strlit("tags");
    reveal_strlit("properties");
    reveal_strlit("type");
    reveal_strlit("technology");
    reveal_strlit("systemId");
    reveal_strlit("containerId");
    lemma_keys_distinct();
    let tech = match x.technology {
        Some(ts) => seq![("technology"@, enc_strs(ts))],
        None => Seq::<(Seq<char>, YamlView)>::empty(),
    };
    let tail = seq![
        ("systemId"@, YamlView::Str(x.system_id)),
        ("containerId"@, YamlView::Str(x.container_id)),
    ];
    let rest = seq![("type"@, YamlView::Str(spec_type_name(x.element_type)))] + tech + tail;
    lemma_rt_base(x.base, rest);
    lemma_type_lookup(x.base, x.element_type, tech + tail);
    let es = enc_base(x.base) + seq![("type"@, YamlView::Str(spec_type_name(x.element_type)))]
        + tech + tail;
    assert(es =~= enc_base(x.base) + rest);
    assert(es =~= enc_base(x.base) + seq![
        ("type"@, YamlView::Str(spec_type_name(x.element_type))),
    ] + (tech + tail));
    let nb = enc_base(x.base).len() as int;
    let ntc: int = if x.technology is Some { 1 } else { 0 };
    lemma_enc_base_keys(x.base);
    match x.technology {
        Some(ts) => {
            assert(es[nb + 1] == ("technology"@, enc_strs(ts)));
            assert forall|j: int|
                0 <= j < nb + 1 implies (#[trigger] es[j]).0 != "technology"@ by {
                if j < nb {
                    assert(es[j] == enc_base(x.base)[j]);
                }
            }
            crate::yaml::lemma_key_index_is(es, "technology"@, nb + 1);
            lemma_dec_strs_of_enc(ts, ts.len() as int);
            assert(ts.take(ts.len() as int) =~= ts);
        },
        None => {
            assert forall|j: int|
                0 <= j < es.len() implies (#[trigger] es[j]).0 != "technology"@ by {
                if j < nb {
                    assert(es[j] == enc_base(x.base)[j]);
                }
            }
            crate::yaml::lemma_dict_get_none(es, "technology"@);
        },
    }
    assert(es[nb + 1 + ntc] == ("systemId"@, YamlView::Str(x.system_id)));
    assert forall|j: int| 0 <= j < nb + 1 + ntc implies (#[trigger] es[j]).0 != "systemId"@ by {
        if j < nb {
            assert(es[j] == enc_base(x.base)[j]);
        }
    }
    crate::yaml::lemma_key_index_is(es, "systemId"@, nb + 1 + ntc);
    assert(es[nb + 2 + ntc] == ("containerId"@, YamlView::Str(x.container_id)));
    assert forall|j: int|
        0 <= j < nb + 2 + ntc implies (#[trigger] es[j]).0 != "containerId"@ by {
        if j < nb {
            assert(es[j] == enc_base(x.base)[j]);
        }
    }
    crate::yaml::lemma_key_index_is(es, "containerId"@, nb + 2 + ntc);
}


/// Round trip of one relationship record.
pub proof fn lemma_rt_relationship(x: RelationshipV)
    ensures
        dec_relationship(enc_relationship(x)) == Some(x),
{
    lemma_keys_distinct();
    let a = seq![("from"@, YamlView::Str(x.from)), ("to"@, YamlView::Str(x.to))];
    let db = match x.description {
        Some(d) => seq![("description"@, YamlView::Str(d))],
        None => Seq::<(Seq<char>, YamlView)>::empty(),
    };
    let tc = match x.technology {
        Some(ts) => seq![("technology"@, enc_strs(ts))],
        None => Seq::<(Seq<char>, YamlView)>::empty(),
    };
    let tg = match x.tags {
        Some(ts) => seq![("tags"@, enc_strs(ts))],
        None => Seq::<(Seq<char>, YamlView)>::empty(),
    };
    let pr = match x.properties {
        Some(ps) => seq![("properties"@, YamlView::Dict(ps))],
        None => Seq::<(Seq<char>, YamlView)>::empty(),
    };
    let es = a + db + tc + tg + pr;
    assert(enc_relationship(x) == YamlView::Dict(es));
    let nd: int = if x.description is Some { 1 } else { 0 };
    let ntc: int = if x.technology is Some { 1 } else { 0 };
    let ntg: int = if x.tags is Some { 1 } else { 0 };
    assert(es[0] == ("from"@, YamlView::Str(x.from)));
    crate::yaml::lemma_key_index_is(es, "from"@, 0);
    assert(es[1] == ("to"@, YamlView::Str(x.to)));
    crate::yaml::lemma_key_index_is(es, "to"@, 1);
    match x.description {
        Some(d) => {
            assert(es[2] == ("description"@, YamlView::Str(d)));
            crate::yaml::lemma_key_index_is(es, "description"@, 2);
        },
        None => {
            crate::yaml::lemma_dict_get_none(es, "description"@);
        },
    }
    match x.technology {
        Some(ts) => {
            assert(es[2 + nd] == ("technology"@, enc_strs(ts)));
            crate::yaml::lemma_key_index_is(es, "technology"@, 2 + nd);
            lemma_dec_strs_of_enc(ts, ts.len() as int);
            assert(ts.take(ts.len() as int) =~= ts);
        },
        None => {
            crate::yaml::lemma_dict_get_none(es, "technology"@);
        },
    }
    match x.tags {
        Some(ts) => {
            assert(es[2 + nd + ntc] == ("tags"@, enc_strs(ts)));
            crate::yaml::lemma_key_index_is(es, "tags"@, 2 + nd + ntc);
            lemma_dec_strs_of_enc(ts, ts.len() as int);
            assert(ts.take(ts.len() as int) =~= ts);
        },
        None => {
            crate::yaml::lemma_dict_get_none(es, "tags"@);
        },
    }
    match x.properties {
        Some(ps) => {
            assert(es[2 + nd + ntc + ntg] == ("properties"@, YamlView::Dict(ps)));
            crate::yaml::lemma_key_index_is(es, "properties"@, 2 + nd + ntc + ntg);
        },
        None => {
            crate::yaml::lemma_dict_get_none(es, "properties"@);
        },
    }
}

/// An in-range step sequence number.
pub open spec fn wf_step(s: FlowStepV) -> bool {
    i32::MIN <= s.seq <= i32::MAX
}

/// Round trip of one flow step.
pub proof fn lemma_rt_flow_step(x: FlowStepV)
    requires
        wf_step(x),
    ensures
        dec_flow_step(enc_flow_step(x)) == Some(x),
{
    lemma_keys_distinct();
    let a = seq![
        ("seq"@, YamlView::Int(x.seq)),
        ("from"@, YamlView::Str(x.from)),
        ("to"@, YamlView::Str(x.to)),
    ];
    let db = match x.description {
        Some(d) => seq![("description"@, YamlView::Str(d))],
        None => Seq::<(Seq<char>, YamlView)>::empty(),
    };
    let tc = match x.technology {
        Some(ts) => seq![("technology"@, enc_strs(ts))],
        None => Seq::<(Seq<char>, YamlView)>::empty(),
    };
    let es = a + db + tc;
    assert(enc_flow_step(x) == YamlView::Dict(es));
    let nd: int = if x.description is Some { 1 } else { 0 };
    assert(es[0] == ("seq"@, YamlView::Int(x.seq)));
    crate::yaml::lemma_key_index_is(es, "seq"@, 0);
    assert(es[1] == ("from"@, YamlView::Str(x.from)));
    crate::yaml::lemma_key_index_is(es, "from"@, 1);
    assert(es[2] == ("to"@, YamlView::Str(x.to)));
    crate::yaml::lemma_key_index_is(es, "to"@, 2);
    match x.description {
        Some(d) => {
            assert(es[3] == ("description"@, YamlView::Str(d)));
            crate::yaml::lemma_key_index_is(es, "description"@, 3);
        },
        None => {
            crate::yaml::lemma_dict_get_none(es, "description"@);
        },
    }
    match x.technology {
        Some(ts) => {
            assert(es[3 + nd] == ("technology"@, enc_strs(ts)));
            crate::yaml::lemma_key_index_is(es, "technology"@, 3 + nd);
            lemma_dec_strs_of_enc(ts, ts.len() as int);
            assert(ts.take(ts.len() as int) =~= ts);
        },
        None => {
            crate::yaml::lemma_dict_get_none(es, "technology"@);
        },
    }
}

/// Round trip of an encoded step list.
pub proof fn lemma_rt_steps(ss: Seq<FlowStepV>, k: int)
    requires
        0 <= k <= ss.len(),
        forall|i: int| 0 <= i < ss.len() ==> wf_step(#[trigger] ss[i]),
    ensures
        dec_items_k(
            ss.map_values(|s: FlowStepV| enc_flow_step(s)),
            |x: YamlView| dec_flow_step(x),
            k,
        ) == Some(ss.take(k)),
    decreases k,
{
    if k > 0 {
        lemma_rt_steps(ss, k - 1);
        lemma_rt_flow_step(ss[k - 1]);
        assert(ss.map_values(|s: FlowStepV| enc_flow_step(s))[k - 1] == enc_flow_step(ss[k - 1]));
        assert(ss.take(k) =~= ss.take(k - 1).push(ss[k - 1]));
    } else {
        assert(ss.take(0) =~= Seq::<FlowStepV>::empty());
    }
}

/// A flow whose steps carry in-range sequence numbers.
pub open spec fn wf_flow(f: FlowV) -> bool {
    forall|i: int| 0 <= i < f.steps.len() ==> wf_step(#[trigger] f.steps[i])
}

/// Round trip of one flow record.
pub proof fn lemma_rt_flow(x: FlowV)
    requires
        wf_flow(x),
    ensures
        dec_flow(enc_flow(x)) == Some(x),
{
    lemma_keys_distinct();
    let a = seq![("id"@, YamlView::Str(x.id)), ("name"@, YamlView::Str(x.name))];
    let db = match x.description {
        Some(d) => seq![("description"@, YamlView::Str(d))],
        None => Seq::<(Seq<char>, YamlView)>::empty(),
    };
    let st = seq![
        ("steps"@, YamlView::List(x.steps.map_values(|s: FlowStepV| enc_flow_step(s)))),
    ];
    let tg = match x.tags {
        Some(ts) => seq![("tags"@, enc_strs(ts))],
        None => Seq::<(Seq<char>, YamlView)>::empty(),
    };
    let es = a + db + st + tg;
    assert(enc_flow(x) == YamlView::Dict(es));
    let nd: int = if x.description is Some { 1 } else { 0 };
    assert(es[0] == ("id"@, YamlView::Str(x.id)));
    crate::yaml::lemma_key_index_is(es, "id"@, 0);
    assert(es[1] == ("name"@, YamlView::Str(x.name)));
    crate::yaml::lemma_key_index_is(es, "name"@, 1);
    match x.description {
        Some(d) => {
            assert(es[2] == ("description"@, YamlView::Str(d)));
            crate::yaml::lemma_key_index_is(es, "description"@, 2);
        },
        None => {
            crate::yaml::lemma_dict_get_none(es, "description"@);
        },
    }
    assert(es[2 + nd] == (
        "steps"@,
        YamlView::List(x.steps.map_values(|s: FlowStepV| enc_flow_step(s))),
    ));
    crate::yaml::lemma_key_index_is(es, "steps"@, 2 + nd);
    lemma_rt_steps(x.steps, x.steps.len() as int);
    assert(x.steps.take(x.steps.len() as int) =~= x.steps);
    match x.tags {
        Some(ts) => {
            assert(es[3 + nd] == ("tags"@, enc_strs(ts)));
            crate::yaml::lemma_key_index_is(es, "tags"@, 3 + nd);
            lemma_dec_strs_of_enc(ts, ts.len() as int);
            assert(ts.take(ts.len() as int) =~= ts);
        },
        None => {
            crate::yaml::lemma_dict_get_none(es, "tags"@);
        },
    }
}

/// An in-range replica count.
pub open spec fn wf_instance(x: ContainerInstanceV) -> bool {
    match x.replicas {
        Some(n) => i32::MIN <= n <= i32::MAX,
        None => true,
    }
}

/// Round trip of one container instance.
pub proof fn lemma_rt_instance(x: ContainerInstanceV)
    requires
        wf_instance(x),
    ensures
        dec_instance(enc_instance(x)) == Some(x),
{
    lemma_keys_distinct();
    let a = seq![("container"@, YamlView::Str(x.container))];
    let rp = match x.replicas {
        Some(n) => seq![("replicas"@, YamlView::Int(n))],
        None => Seq::<(Seq<char>, YamlView)>::empty(),
    };
    let pr = match x.properties {
        Some(ps) => seq![("properties"@, YamlView::Dict(ps))],
        None => Seq::<(Seq<char>, YamlView)>::empty(),
    };
    let es = a + rp + pr;
    assert(enc_instance(x) == YamlView::Dict(es));
    let nr: int = if x.replicas is Some { 1 } else { 0 };
    assert(es[0] == ("container"@, YamlView::Str(x.container)));
    crate::yaml::lemma_key_index_is(es, "container"@, 0);
    match x.replicas {
        Some(n) => {
            assert(es[1] == ("replicas"@, YamlView::Int(n)));
            crate::yaml::lemma_key_index_is(es, "replicas"@, 1);
        },
        None => {
            crate::yaml::lemma_dict_get_none(es, "replicas"@);
        },
    }
    match x.properties {
        Some(ps) => {
            assert(es[1 + nr] == ("properties"@, YamlView::Dict(ps)));
            crate::yaml::lemma_key_index_is(es, "properties"@, 1 + nr);
        },
        None => {
            crate::yaml::lemma_dict_get_none(es, "properties"@);
        },
    }
}

/// Round trip of an encoded instance list.
pub proof fn lemma_rt_instances(xs: Seq<ContainerInstanceV>, k: int)
    requires
        0 <= k <= xs.len(),
        forall|i: int| 0 <= i < xs.len() ==> wf_instance(#[trigger] xs[i]),
    ensures
        dec_items_k(
            xs.map_values(|x: ContainerInstanceV| enc_instance(x)),
            |v: YamlView| dec_instance(v),
            k,
        ) == Some(xs.take(k)),
    decreases k,
{
    if k > 0 {
        lemma_rt_instances(xs, k - 1);
        lemma_rt_instance(xs[k - 1]);
        assert(xs.map_values(|x: ContainerInstanceV| enc_instance(x))[k - 1] == enc_instance(
            xs[k - 1],
        ));
        assert(xs.take(k) =~= xs.take(k - 1).push(xs[k - 1]));
    } else {
        assert(xs.take(0) =~= Seq::<ContainerInstanceV>::empty());
    }
}

/// A deployment node whose replica counts are in range, recursively.
pub open spec fn wf_node(x: DeploymentNodeV) -> bool
    decreases x, 1int, 0int,
{
    (match x.instances {
        Some(insts) => forall|i: int| 0 <= i < insts.len() ==> wf_instance(#[trigger] insts[i]),
        None => true,
    }) && (match x.children {
        Some(children) => {
            proof {
                assert(decreases_to!(x => x.children));
                assert(decreases_to!(x.children => children));
            }
            wf_nodes(children, children.len() as int)
        },
        None => true,
    })
}

/// The first `k` nodes of a list are well formed.
pub open spec fn wf_nodes(xs: Seq<DeploymentNodeV>, k: int) -> bool
    decreases xs, 0int, k,
{
    k <= 0 || k > xs.len() || {
        proof {
            assert(decreases_to!(xs => xs[k - 1]));
        }
        wf_nodes(xs, k - 1) && wf_node(xs[k - 1])
    }
}

/// Round trip of one deployment node, recursively through its children.
pub proof fn lemma_rt_node(x: DeploymentNodeV)
    requires
        wf_node(x),
    ensures
        dec_node(enc_node(x)) == Some(x),
    decreases x, 1int, 0int,
{
    lemma_keys_distinct();
    let a = seq![("id"@, YamlView::Str(x.id)), ("name"@, YamlView::Str(x.name))];
    let tc = match x.technology {
        Some(ts) => seq![("technology"@, enc_strs(ts))],
        None => Seq::<(Seq<char>, YamlView)>::empty(),
    };
    let ch = match x.children {
        Some(children) => seq![("children"@, YamlView::List(enc_nodes(children)))],
        None => Seq::<(Seq<char>, YamlView)>::empty(),
    };
    let ins = match x.instances {
        Some(insts) => seq![
            (
                "instances"@,
                YamlView::List(insts.map_values(|i: ContainerInstanceV| enc_instance(i))),
            ),
        ],
        None => Seq::<(Seq<char>, YamlView)>::empty(),
    };
    let pr = match x.properties {
        Some(ps) => seq![("properties"@, YamlView::Dict(ps))],
        None => Seq::<(Seq<char>, YamlView)>::empty(),
    };
    let es = a + tc + ch + ins + pr;
    assert(enc_node(x) == YamlView::Dict(es));
    let ntc: int = if x.technology is Some { 1 } else { 0 };
    let nch: int = if x.children is Some { 1 } else { 0 };
    let nin: int = if x.instances is Some { 1 } else { 0 };
    assert(es[0] == ("id"@, YamlView::Str(x.id)));
    crate::yaml::lemma_key_index_is(es, "id"@, 0);
    assert(es[1] == ("name"@, YamlView::Str(x.name)));
    crate::yaml::lemma_key_index_is(es, "name"@, 1);
    match x.technology {
        Some(ts) => {
            assert(es[2] == ("technology"@, enc_strs(ts)));
            crate::yaml::lemma_key_index_is(es, "technology"@, 2);
            lemma_dec_strs_of_enc(ts, ts.len() as int);
            assert(ts.take(ts.len() as int) =~= ts);
        },
        None => {
            crate::yaml::lemma_dict_get_none(es, "technology"@);
        },
    }
    match x.children {
        Some(children) => {
            assert(es[2 + ntc] == ("children"@, YamlView::List(enc_nodes(children))));
            crate::yaml::lemma_key_index_is(es, "children"@, 2 + ntc);
            assert(decreases_to!(x => x.children));
            assert(decreases_to!(x.children => children));
            lemma_enc_nodes(children);
            lemma_rt_nodes(children, children.len() as int);
            assert(children.take(children.len() as int) =~= children);
        },
        None => {
            crate::yaml::lemma_dict_get_none(es, "children"@);
        },
    }
    match x.instances {
        Some(insts) => {
            assert(es[2 + ntc + nch] == (
                "instances"@,
                YamlView::List(insts.map_values(|i: ContainerInstanceV| enc_instance(i))),
            ));
            crate::yaml::lemma_key_index_is(es, "instances"@, 2 + ntc + nch);
            lemma_rt_instances(insts, insts.len() as int);
            assert(insts.take(insts.len() as int) =~= insts);
        },
        None => {
            crate::yaml::lemma_dict_get_none(es, "instances"@);
        },
    }
    match x.properties {
        Some(ps) => {
            assert(es[2 + ntc + nch + nin] == ("properties"@, YamlView::Dict(ps)));
            crate::yaml::lemma_key_index_is(es, "properties"@, 2 + ntc + nch + nin);
        },
        None => {
            crate::yaml::lemma_dict_get_none(es, "properties"@);
        },
    }
}

/// Round trip of an encoded node list.
pub proof fn lemma_rt_nodes(xs: Seq<DeploymentNodeV>, k: int)
    requires
        0 <= k <= xs.len(),
        wf_nodes(xs, xs.len() as int),
    ensures
        dec_nodes_k(enc_nodes(xs), k) == Some(xs.take(k)),
    decreases xs, 0int, k,
{
    lemma_enc_nodes(xs);
    lemma_wf_nodes_prefix(xs, k, xs.len() as int);
    if k > 0 {
        assert(decreases_to!(xs => xs[k - 1]));
        lemma_rt_nodes(xs, k - 1);
        lemma_rt_node(xs[k - 1]);
        assert(enc_nodes(xs)[k - 1] == enc_node(xs[k - 1]));
        assert(xs.take(k) =~= xs.take(k - 1).push(xs[k - 1]));
    } else {
        assert(xs.take(0) =~= Seq::<DeploymentNodeV>::empty());
    }
}

/// Well-formedness of a longer prefix carries down to a shorter one, and
/// gives well-formedness of each covered node.
pub proof fn lemma_wf_nodes_prefix(xs: Seq<DeploymentNodeV>, k: int, n: int)
    requires
        0 <= k <= n <= xs.len(),
        wf_nodes(xs, n),
    ensures
        wf_nodes(xs, k),
        forall|i: int| 0 <= i < n ==> wf_node(#[trigger] xs[i]),
    decreases n,
{
    if k < n || n > 0 {
        if n > 0 {
            lemma_wf_nodes_prefix(xs, if k < n { k } else { n - 1 }, n - 1);
        }
    }
}

/// A deployment whose nodes are well formed.
pub open spec fn wf_deployment(x: DeploymentV) -> bool {
    match x.nodes {
        Some(ns) => wf_nodes(ns, ns.len() as int),
        None => true,
    }
}

/// Round trip of one deployment record.
pub proof fn lemma_rt_deployment(x: DeploymentV)
    requires
        wf_deployment(x),
    ensures
        dec_deployment(enc_deployment(x)) == Some(x),
{
    lemma_keys_distinct();
    let a = seq![("id"@, YamlView::Str(x.id)), ("name"@, YamlView::Str(x.name))];
    let db = match x.description {
        Some(d) => seq![("description"@, YamlView::Str(d))],
        None => Seq::<(Seq<char>, YamlView)>::empty(),
    };
    let no = match x.nodes {
        Some(ns) => seq![("nodes"@, YamlView::List(enc_nodes(ns)))],
        None => Seq::<(Seq<char>, YamlView)>::empty(),
    };
    let es = a + db + no;
    assert(enc_deployment(x) == YamlView::Dict(es));
    let nd: int = if x.description is Some { 1 } else { 0 };
    assert(es[0] == ("id"@, YamlView::Str(x.id)));
    crate::yaml::lemma_key_index_is(es, "id"@, 0);
    assert(es[1] == ("name"@, YamlView::Str(x.name)));
    crate::yaml::lemma_key_index_is(es, "name"@, 1);
    match x.description {
        Some(d) => {
            assert(es[2] == ("description"@, YamlView::Str(d)));
            crate::yaml::lemma_key_index_is(es, "description"@, 2);
        },
        None => {
            crate::yaml::lemma_dict_get_none(es, "description"@);
        },
    }
    match x.nodes {
        Some(ns) => {
            assert(es[2 + nd] == ("nodes"@, YamlView::List(enc_nodes(ns))));
            crate::yaml::lemma_key_index_is(es, "nodes"@, 2 + nd);
            lemma_enc_nodes(ns);
            lemma_rt_nodes(ns, ns.len() as int);
            assert(ns.take(ns.len() as int) =~= ns);
        },
        None => {
            crate::yaml::lemma_dict_get_none(es, "nodes"@);
        },
    }
}

/// Round trip of an encoded person list.
pub proof fn lemma_rt_persons(xs: Seq<PersonV>, k: int)
    requires
        0 <= k <= xs.len(),
    ensures
        dec_items_k(
            xs.map_values(|x: PersonV| enc_person(x)),
            |v: YamlView| dec_person(v),
            k,
        ) == Some(xs.take(k)),
    decreases k,
{
    if k > 0 {
        lemma_rt_persons(xs, k - 1);
        lemma_rt_person(xs[k - 1]);
        assert(xs.map_values(|x: PersonV| enc_person(x))[k - 1] == enc_person(xs[k - 1]));
        assert(xs.take(k) =~= xs.take(k - 1).push(xs[k - 1]));
    } else {
        assert(xs.take(0) =~= Seq::<PersonV>::empty());
    }
}

/// Round trip of an encoded system list.
pub proof fn lemma_rt_systems(xs: Seq<SystemV>, k: int)
    requires
        0 <= k <= xs.len(),
    ensures
        dec_items_k(
            xs.map_values(|x: SystemV| enc_system(x)),
            |v: YamlView| dec_system(v),
            k,
        ) == Some(xs.take(k)),
    decreases k,
{
    if k > 0 {
        lemma_rt_systems(xs, k - 1);
        lemma_rt_system(xs[k - 1]);
        assert(xs.map_values(|x: SystemV| enc_system(x))[k - 1] == enc_system(xs[k - 1]));
        assert(xs.take(k) =~= xs.take(k - 1).push(xs[k - 1]));
    } else {
        assert(xs.take(0) =~= Seq::<SystemV>::empty());
    }
}

/// Round trip of an encoded container list.
pub proof fn lemma_rt_containers(xs: Seq<ContainerV>, k: int)
    requires
        0 <= k <= xs.len(),
    ensures
        dec_items_k(
            xs.map_values(|x: ContainerV| enc_container(x)),
            |v: YamlView| dec_container(v),
            k,
        ) == Some(xs.take(k)),
    decreases k,
{
    if k > 0 {
        lemma_rt_containers(xs, k - 1);
        lemma_rt_container(xs[k - 1]);
        assert(xs.map_values(|x: ContainerV| enc_container(x))[k - 1] == enc_container(xs[k - 1]));
        assert(xs.take(k) =~= xs.take(k - 1).push(xs[k - 1]));
    } else {
        assert(xs.take(0) =~= Seq::<ContainerV>::empty());
    }
}

/// Round trip of an encoded component list.
pub proof fn lemma_rt_components(xs: Seq<ComponentV>, k: int)
    requires
        0 <= k <= xs.len(),
    ensures
        dec_items_k(
            xs.map_values(|x: ComponentV| enc_component(x)),
            |v: YamlView| dec_component(v),
            k,
        ) == Some(xs.take(k)),
    decreases k,
{
    if k > 0 {
        lemma_rt_components(xs, k - 1);
        lemma_rt_component(xs[k - 1]);
        assert(xs.map_values(|x: ComponentV| enc_component(x))[k - 1] == enc_component(xs[k - 1]));
        assert(xs.take(k) =~= xs.take(k - 1).push(xs[k - 1]));
    } else {
        assert(xs.take(0) =~= Seq::<ComponentV>::empty());
    }
}

/// Round trip of an encoded relationship list.
pub proof fn lemma_rt_relationships(xs: Seq<RelationshipV>, k: int)
    requires
        0 <= k <= xs.len(),
    ensures
        dec_items_k(
            xs.map_values(|x: RelationshipV| enc_relationship(x)),
            |v: YamlView| dec_relationship(v),
            k,
        ) == Some(xs.take(k)),
    decreases k,
{
    if k > 0 {
        lemma_rt_relationships(xs, k - 1);
        lemma_rt_relationship(xs[k - 1]);
        assert(xs.map_values(|x: RelationshipV| enc_relationship(x))[k - 1] == enc_relationship(xs[k - 1]));
        assert(xs.take(k) =~= xs.take(k - 1).push(xs[k - 1]));
    } else {
        assert(xs.take(0) =~= Seq::<RelationshipV>::empty());
    }
}

/// Round trip of an encoded flow list.
pub proof fn lemma_rt_flows(xs: Seq<FlowV>, k: int)
    requires
        0 <= k <= xs.len(),
        forall|i: int| 0 <= i < xs.len() ==> wf_flow(#[trigger] xs[i]),
    ensures
        dec_items_k(
            xs.map_values(|x: FlowV| enc_flow(x)),
            |v: YamlView| dec_flow(v),
            k,
        ) == Some(xs.take(k)),
    decreases k,
{
    if k > 0 {
        lemma_rt_flows(xs, k - 1);
        lemma_rt_flow(xs[k - 1]);
        assert(xs.map_values(|x: FlowV| enc_flow(x))[k - 1] == enc_flow(xs[k - 1]));
        assert(xs.take(k) =~= xs.take(k - 1).push(xs[k - 1]));
    } else {
        assert(xs.take(0) =~= Seq::<FlowV>::empty());
    }
}

/// Round trip of an encoded deployment list.
pub proof fn lemma_rt_deployments(xs: Seq<DeploymentV>, k: int)
    requires
        0 <= k <= xs.len(),
        forall|i: int| 0 <= i < xs.len() ==> wf_deployment(#[trigger] xs[i]),
    ensures
        dec_items_k(
            xs.map_values(|x: DeploymentV| enc_deployment(x)),
            |v: YamlView| dec_deployment(v),
            k,
        ) == Some(xs.take(k)),
    decreases k,
{
    if k > 0 {
        lemma_rt_deployments(xs, k - 1);
        lemma_rt_deployment(xs[k - 1]);
        assert(xs.map_values(|x: DeploymentV| enc_deployment(x))[k - 1] == enc_deployment(xs[k - 1]));
        assert(xs.take(k) =~= xs.take(k - 1).push(xs[k - 1]));
    } else {
        assert(xs.take(0) =~= Seq::<DeploymentV>::empty());
    }
}

/// Views of executable deployment nodes are well formed.
pub proof fn lemma_node_wf(n: DeploymentNode)
    ensures
        wf_node(n@),
    decreases n, 1int, 0int,
{
    match &n.children {
        Some(children) => {
            assert(decreases_to!(n => n.children));
            lemma_nodes_wf(children@, children@.len() as int);
            crate::types::lemma_node_views(children@);
            assert(n@.children == Some(crate::types::node_views(children@)));
        },
        None => {},
    }
}

/// Views of a list of executable deployment nodes are well formed, up to `k`.
pub proof fn lemma_nodes_wf(ns: Seq<DeploymentNode>, k: int)
    requires
        k <= ns.len(),
    ensures
        wf_nodes(crate::types::node_views(ns), k),
    decreases ns, 0int, k,
{
    crate::types::lemma_node_views(ns);
    if k > 0 {
        lemma_nodes_wf(ns, k - 1);
        assert(decreases_to!(ns => ns[k - 1]));
        lemma_node_wf(ns[k - 1]);
        assert(crate::types::node_views(ns)[k - 1] == ns[k - 1]@);
    }
}

/// Serializing a model to its document form and reading the document back as
/// a fragment reproduces every record exactly: the typed collections of the
/// fragment equal the model's collections, field for field.
pub proof fn lemma_model_round_trip(m: crate::model::Model)
    ensures
        dec_data_file(spec_model_doc(m)) == Some(
            DataFileV {
                persons: m.persons@.map_values(|x: Person| x@),
                systems: m.systems@.map_values(|x: SoftwareSystem| x@),
                containers: m.containers@.map_values(|x: Container| x@),
                components: m.components@.map_values(|x: Component| x@),
                relationships: m.relationships@.map_values(|x: Relationship| x@),
                flows: m.flows@.map_values(|x: Flow| x@),
                deployments: m.deployments@.map_values(|x: Deployment| x@),
            },
        ),
{
    lemma_keys_distinct();
    let pv = m.persons@.map_values(|x: Person| x@);
    let sv = m.systems@.map_values(|x: SoftwareSystem| x@);
    let cv = m.containers@.map_values(|x: Container| x@);
    let mv = m.components@.map_values(|x: Component| x@);
    let rv = m.relationships@.map_values(|x: Relationship| x@);
    let fv = m.flows@.map_values(|x: Flow| x@);
    let dv = m.deployments@.map_values(|x: Deployment| x@);
    let es = spec_model_doc(m)->Dict_0;
    assert(es.len() == 8);
    crate::yaml::lemma_key_index_is(es, "persons"@, 0);
    crate::yaml::lemma_key_index_is(es, "systems"@, 1);
    crate::yaml::lemma_key_index_is(es, "containers"@, 2);
    crate::yaml::lemma_key_index_is(es, "components"@, 3);
    crate::yaml::lemma_key_index_is(es, "relationships"@, 4);
    crate::yaml::lemma_key_index_is(es, "flows"@, 5);
    crate::yaml::lemma_key_index_is(es, "deployments"@, 6);

    assert(m.persons@.map_values(|p: Person| enc_person(p@)) =~= pv.map_values(
        |x: PersonV| enc_person(x),
    ));
    lemma_rt_persons(pv, pv.len() as int);
    assert(pv.take(pv.len() as int) =~= pv);

    assert(m.systems@.map_values(|x: SoftwareSystem| enc_system(x@)) =~= sv.map_values(
        |x: SystemV| enc_system(x),
    ));
    lemma_rt_systems(sv, sv.len() as int);
    assert(sv.take(sv.len() as int) =~= sv);

    assert(m.containers@.map_values(|x: Container| enc_container(x@)) =~= cv.map_values(
        |x: ContainerV| enc_container(x),
    ));
    lemma_rt_containers(cv, cv.len() as int);
    assert(cv.take(cv.len() as int) =~= cv);

    assert(m.components@.map_values(|x: Component| enc_component(x@)) =~= mv.map_values(
        |x: ComponentV| enc_component(x),
    ));
    lemma_rt_components(mv, mv.len() as int);
    assert(mv.take(mv.len() as int) =~= mv);

    assert(m.relationships@.map_values(|x: Relationship| enc_relationship(x@)) =~= rv.map_values(
        |x: RelationshipV| enc_relationship(x),
    ));
    lemma_rt_relationships(rv, rv.len() as int);
    assert(rv.take(rv.len() as int) =~= rv);

    assert(m.flows@.map_values(|x: Flow| enc_flow(x@)) =~= fv.map_values(
        |x: FlowV| enc_flow(x),
    ));
    assert forall|i: int| 0 <= i < fv.len() implies wf_flow(#[trigger] fv[i]) by {
        let f = m.flows@[i];
        assert(fv[i] == f@);
        assert forall|j: int| 0 <= j < f@.steps.len() implies wf_step(#[trigger] f@.steps[j]) by {
            assert(f@.steps[j] == f.steps@[j]@);
        }
    }
    lemma_rt_flows(fv, fv.len() as int);
    assert(fv.take(fv.len() as int) =~= fv);

    assert(m.deployments@.map_values(|x: Deployment| enc_deployment(x@)) =~= dv.map_values(
        |x: DeploymentV| enc_deployment(x),
    ));
    assert forall|i: int| 0 <= i < dv.len() implies wf_deployment(#[trigger] dv[i]) by {
        let d = m.deployments@[i];
        assert(dv[i] == d@);
        match &d.nodes {
            Some(ns) => {
                lemma_nodes_wf(ns@, ns@.len() as int);
                crate::types::lemma_node_views(ns@);
                assert(d@.nodes == Some(crate::types::node_views(ns@)));
            },
            None => {},
        }
    }
    lemma_rt_deployments(dv, dv.len() as int);
    assert(dv.take(dv.len() as int) =~= dv);
}


pub proof fn lemma_entry_views_push(prev: Seq<(String, Yaml)>, e: (String, Yaml))
    ensures
        entry_views(prev.push(e)) == entry_views(prev).push((e.0@, e.1@)),
{
    lemma_entry_views(prev.push(e));
    lemma_entry_views(prev);
    assert forall|j: int|
        0 <= j < prev.len() + 1 implies #[trigger] entry_views(prev.push(e))[j] == entry_views(
        prev,
    ).push((e.0@, e.1@))[j] by {
        if j < prev.len() {
            assert(prev.push(e)[j] == prev[j]);
        } else {
            assert(prev.push(e)[j] == e);
        }
    }
    assert(entry_views(prev.push(e)) =~= entry_views(prev).push((e.0@, e.1@)));
}

fn type_str(t: ElementType) -> (r: &'static str)
    ensures
        r@ == spec_type_name(t),
{
    match t {
        ElementType::Person => "person",
        ElementType::System => "system",
        ElementType::Container => "container",
        ElementType::Component => "component",
    }
}

/// A list of strings as a document node.
fn strs_to_yaml(v: &Vec<String>) -> (r: Yaml)
    ensures
        r@ == enc_strs(v.deep_view()),
{
    let mut items: Vec<Yaml> = Vec::new();
    let mut i: usize = 0;
    while i < v.len()
        invariant
            i <= v@.len(),
            items@.len() == i,
            forall|j: int| 0 <= j < i ==> (#[trigger] items@[j])@ == YamlView::Str(v@[j]@),
        decreases v@.len() - i,
    {
        items.push(Yaml::Str(v[i].clone()));
        i += 1;
    }
    let ghost itemsv = items@;
    let r = Yaml::List(items);
    proof {
        crate::yaml::lemma_yaml_views(itemsv);
        assert forall|j: int|
            0 <= j < itemsv.len() implies crate::yaml::yaml_views(itemsv)[j]
            == v.deep_view().map_values(|t: Seq<char>| YamlView::Str(t))[j] by {
            assert((itemsv[j])@ == YamlView::Str(v@[j]@));
            assert(v.deep_view()[j] == v@[j]@);
        }
        assert(crate::yaml::yaml_views(itemsv) =~= v.deep_view().map_values(
            |t: Seq<char>| YamlView::Str(t),
        ));
        assert(r@ == YamlView::List(crate::yaml::yaml_views(itemsv)));
    }
    r
}

/// Appends the shared element fields in serialization order.
fn push_base(out: &mut Vec<(String, Yaml)>, b: &BaseElement)
    ensures
        entry_views(final(out)@) == entry_views(old(out)@) + enc_base(b@),
{
    let ghost base0 = entry_views(out@);
    let ghost prev0 = out@;
    out.push((String::from_str("id"), Yaml::Str(b.id.clone())));
    proof {
        lemma_entry_views_push(prev0, out@[out@.len() - 1]);
    }
    let ghost prev1 = out@;
    out.push((String::from_str("name"), Yaml::Str(b.name.clone())));
    proof {
        lemma_entry_views_push(prev1, out@[out@.len() - 1]);
    }
    match &b.description {
        Some(d) => {
            let ghost prev = out@;
            out.push((String::from_str("description"), Yaml::Str(d.clone())));
            proof {
                lemma_entry_views_push(prev, out@[out@.len() - 1]);
            }
        },
        None => {},
    }
    match &b.tags {
        Some(ts) => {
            let ghost prev = out@;
            out.push((String::from_str("tags"), strs_to_yaml(ts)));
            proof {
                lemma_entry_views_push(prev, out@[out@.len() - 1]);
            }
        },
        None => {},
    }
    match &b.properties {
        Some(ps) => {
            let ghost prev = out@;
            out.push((String::from_str("properties"), Yaml::Dict(dup_entries(ps))));
            proof {
                lemma_entry_views_push(prev, out@[out@.len() - 1]);
            }
        },
        None => {},
    }
    proof {
        assert(entry_views(out@) =~= entry_views(old(out)@) + enc_base(b@));
    }
}

fn person_to_yaml(p: &Person) -> (r: Yaml)
    ensures
        r@ == enc_person(p@),
{
    let mut out: Vec<(String, Yaml)> = Vec::new();
    proof {
        assert(entry_views(out@) =~= Seq::<(Seq<char>, YamlView)>::empty());
    }
    push_base(&mut out, &p.base);
    let ghost prev = out@;
    out.push((String::from_str("type"), Yaml::Str(String::from_str(type_str(p.element_type)))));
    proof {
        lemma_entry_views_push(prev, out@[out@.len() - 1]);
        assert(entry_views(out@) =~= enc_base(p@.base) + seq![
            ("type"@, YamlView::Str(spec_type_name(p.element_type))),
        ]);
    }
    Yaml::Dict(out)
}

fn system_to_yaml(x: &SoftwareSystem) -> (r: Yaml)
    ensures
        r@ == enc_system(x@),
{
    let mut out: Vec<(String, Yaml)> = Vec::new();
    proof {
        assert(entry_views(out@) =~= Seq::<(Seq<char>, YamlView)>::empty());
    }
    push_base(&mut out, &x.base);
    let ghost prev = out@;
    out.push((String::from_str("type"), Yaml::Str(String::from_str(type_str(x.element_type)))));
    proof {
        lemma_entry_views_push(prev, out@[out@.len() - 1]);
    }
    match &x.external {
        Some(b) => {
            let ghost prev2 = out@;
            out.push((String::from_str("external"), Yaml::Bool(*b)));
            proof {
                lemma_entry_views_push(prev2, out@[out@.len() - 1]);
            }
        },
        None => {},
    }
    proof {
        assert(entry_views(out@) =~= enc_system(x@)->Dict_0);
    }
    Yaml::Dict(out)
}

fn container_to_yaml(x: &Container) -> (r: Yaml)
    ensures
        r@ == enc_container(x@),
{
    let mut out: Vec<(String, Yaml)> = Vec::new();
    proof {
        assert(entry_views(out@) =~= Seq::<(Seq<char>, YamlView)>::empty());
    }
    push_base(&mut out, &x.base);
    let ghost prev = out@;
    out.push((String::from_str("type"), Yaml::Str(String::from_str(type_str(x.element_type)))));
    proof {
        lemma_entry_views_push(prev, out@[out@.len() - 1]);
    }
    match &x.technology {
        Some(ts) => {
            let ghost prev2 = out@;
            out.push((String::from_str("technology"), strs_to_yaml(&ts.0)));
            proof {
                lemma_entry_views_push(prev2, out@[out@.len() - 1]);
            }
        },
        None => {},
    }
    let ghost prev3 = out@;
    out.push((String::from_str("systemId"), Yaml::Str(x.system_id.clone())));
    proof {
        lemma_entry_views_push(prev3, out@[out@.len() - 1]);
        assert(entry_views(out@) =~= enc_container(x@)->Dict_0);
    }
    Yaml::Dict(out)
}

fn component_to_yaml(x: &Component) -> (r: Yaml)
    ensures
        r@ == enc_component(x@),
{
    let mut out: Vec<(String, Yaml)> = Vec::new();
    proof {
        assert(entry_views(out@) =~= Seq::<(Seq<char>, YamlView)>::empty());
    }
    push_base(&mut out, &x.base);
    let ghost prev = out@;
    out.push((String::from_str("type"), Yaml::Str(String::from_str(type_str(x.element_type)))));
    proof {
        lemma_entry_views_push(prev, out@[out@.len() - 1]);
    }
    match &x.technology {
        Some(ts) => {
            let ghost prev2 = out@;
            out.push((String::from_str("technology"), strs_to_yaml(&ts.0)));
            proof {
                lemma_entry_views_push(prev2, out@[out@.len() - 1]);
            }
        },
        None => {},
    }
    let ghost prev3 = out@;
    out.push((String::from_str("systemId"), Yaml::Str(x.system_id.clone())));
    proof {
        lemma_entry_views_push(prev3, out@[out@.len() - 1]);
    }
    let ghost prev4 = out@;
    out.push((String::from_str("containerId"), Yaml::Str(x.container_id.clone())));
    proof {
        lemma_entry_views_push(prev4, out@[out@.len() - 1]);
        assert(entry_views(out@) =~= enc_component(x@)->Dict_0);
    }
    Yaml::Dict(out)
}

fn relationship_to_yaml(x: &Relationship) -> (r: Yaml)
    ensures
        r@ == enc_relationship(x@),
{
    let mut out: Vec<(String, Yaml)> = Vec::new();
    proof {
        assert(entry_views(out@) =~= Seq::<(Seq<char>, YamlView)>::empty());
    }
    let ghost p0 = out@;
    out.push((String::from_str("from"), Yaml::Str(x.from.clone())));
    proof {
        lemma_entry_views_push(p0, out@[out@.len() - 1]);
    }
    let ghost p1 = out@;
    out.push((String::from_str("to"), Yaml::Str(x.to.clone())));
    proof {
        lemma_entry_views_push(p1, out@[out@.len() - 1]);
    }
    match &x.description {
        Some(d) => {
            let ghost p = out@;
            out.push((String::from_str("description"), Yaml::Str(d.clone())));
            proof {
                lemma_entry_views_push(p, out@[out@.len() - 1]);
            }
        },
        None => {},
    }
    match &x.technology {
        Some(ts) => {
            let ghost p = out@;
            out.push((String::from_str("technology"), strs_to_yaml(&ts.0)));
            proof {
                lemma_entry_views_push(p, out@[out@.len() - 1]);
            }
        },
        None => {},
    }
    match &x.tags {
        Some(ts) => {
            let ghost p = out@;
            out.push((String::from_str("tags"), strs_to_yaml(ts)));
            proof {
                lemma_entry_views_push(p, out@[out@.len() - 1]);
            }
        },
        None => {},
    }
    match &x.properties {
        Some(ps) => {
            let ghost p = out@;
            out.push((String::from_str("properties"), Yaml::Dict(dup_entries(ps))));
            proof {
                lemma_entry_views_push(p, out@[out@.len() - 1]);
            }
        },
        None => {},
    }
    proof {
        assert(entry_views(out@) =~= enc_relationship(x@)->Dict_0);
    }
    Yaml::Dict(out)
}

fn flow_step_to_yaml(x: &FlowStep) -> (r: Yaml)
    ensures
        r@ == enc_flow_step(x@),
{
    let mut out: Vec<(String, Yaml)> = Vec::new();
    proof {
        assert(entry_views(out@) =~= Seq::<(Seq<char>, YamlView)>::empty());
    }
    let ghost p0 = out@;
    out.push((String::from_str("seq"), Yaml::Int(x.seq as i64)));
    proof {
        lemma_entry_views_push(p0, out@[out@.len() - 1]);
    }
    let ghost p1 = out@;
    out.push((String::from_str("from"), Yaml::Str(x.from.clone())));
    proof {
        lemma_entry_views_push(p1, out@[out@.len() - 1]);
    }
    let ghost p2 = out@;
    out.push((String::from_str("to"), Yaml::Str(x.to.clone())));
    proof {
        lemma_entry_views_push(p2, out@[out@.len() - 1]);
    }
    match &x.description {
        Some(d) => {
            let ghost p = out@;
            out.push((String::from_str("description"), Yaml::Str(d.clone())));
            proof {
                lemma_entry_views_push(p, out@[out@.len() - 1]);
            }
        },
        None => {},
    }
    match &x.technology {
        Some(ts) => {
            let ghost p = out@;
            out.push((String::from_str("technology"), strs_to_yaml(&ts.0)));
            proof {
                lemma_entry_views_push(p, out@[out@.len() - 1]);
            }
        },
        None => {},
    }
    proof {
        assert(entry_views(out@) =~= enc_flow_step(x@)->Dict_0);
    }
    Yaml::Dict(out)
}

fn flow_to_yaml(x: &Flow) -> (r: Yaml)
    ensures
        r@ == enc_flow(x@),
{
    let mut out: Vec<(String, Yaml)> = Vec::new();
    proof {
        assert(entry_views(out@) =~= Seq::<(Seq<char>, YamlView)>::empty());
    }
    let ghost p0 = out@;
    out.push((String::from_str("id"), Yaml::Str(x.id.clone())));
    proof {
        lemma_entry_views_push(p0, out@[out@.len() - 1]);
    }
    let ghost p1 = out@;
    out.push((String::from_str("name"), Yaml::Str(x.name.clone())));
    proof {
        lemma_entry_views_push(p1, out@[out@.len() - 1]);
    }
    match &x.description {
        Some(d) => {
            let ghost p = out@;
            out.push((String::from_str("description"), Yaml::Str(d.clone())));
            proof {
                lemma_entry_views_push(p, out@[out@.len() - 1]);
            }
        },
        None => {},
    }
    let mut items: Vec<Yaml> = Vec::new();
    let mut i: usize = 0;
    while i < x.steps.len()
        invariant
            i <= x.steps@.len(),
            items@.len() == i,
            forall|j: int| 0 <= j < i ==> (#[trigger] items@[j])@ == enc_flow_step(x.steps@[j]@),
        decreases x.steps@.len() - i,
    {
        items.push(flow_step_to_yaml(&x.steps[i]));
        i += 1;
    }
    let ghost itemsv = items@;
    let steps_node = Yaml::List(items);
    proof {
        crate::yaml::lemma_yaml_views(itemsv);
        assert forall|j: int|
            0 <= j < itemsv.len() implies crate::yaml::yaml_views(itemsv)[j]
            == x@.steps.map_values(|sv: FlowStepV| enc_flow_step(sv))[j] by {
            assert((itemsv[j])@ == enc_flow_step(x.steps@[j]@));
            assert(x@.steps[j] == x.steps@[j]@);
        }
        assert(crate::yaml::yaml_views(itemsv) =~= x@.steps.map_values(
            |sv: FlowStepV| enc_flow_step(sv),
        ));
        assert(steps_node@ == YamlView::List(crate::yaml::yaml_views(itemsv)));
    }
    let ghost p2 = out@;
    out.push((String::from_str("steps"), steps_node));
    proof {
        lemma_entry_views_push(p2, out@[out@.len() - 1]);
    }
    match &x.tags {
        Some(ts) => {
            let ghost p = out@;
            out.push((String::from_str("tags"), strs_to_yaml(ts)));
            proof {
                lemma_entry_views_push(p, out@[out@.len() - 1]);
            }
        },
        None => {},
    }
    proof {
        assert(entry_views(out@) =~= enc_flow(x@)->Dict_0);
    }
    Yaml::Dict(out)
}

fn instance_to_yaml(x: &ContainerInstance) -> (r: Yaml)
    ensures
        r@ == enc_instance(x@),
{
    let mut out: Vec<(String, Yaml)> = Vec::new();
    proof {
        assert(entry_views(out@) =~= Seq::<(Seq<char>, YamlView)>::empty());
    }
    let ghost p0 = out@;
    out.push((String::from_str("container"), Yaml::Str(x.container.clone())));
    proof {
        lemma_entry_views_push(p0, out@[out@.len() - 1]);
    }
    match &x.replicas {
        Some(n) => {
            let ghost p = out@;
            out.push((String::from_str("replicas"), Yaml::Int(*n as i64)));
            proof {
                lemma_entry_views_push(p, out@[out@.len() - 1]);
            }
        },
        None => {},
    }
    match &x.properties {
        Some(ps) => {
            let ghost p = out@;
            out.push((String::from_str("properties"), Yaml::Dict(dup_entries(ps))));
            proof {
                lemma_entry_views_push(p, out@[out@.len() - 1]);
            }
        },
        None => {},
    }
    proof {
        assert(entry_views(out@) =~= enc_instance(x@)->Dict_0);
    }
    Yaml::Dict(out)
}

fn node_to_yaml(x: &DeploymentNode) -> (r: Yaml)
    ensures
        r@ == enc_node(x@),
    decreases *x,
{
    let mut out: Vec<(String, Yaml)> = Vec::new();
    proof {
        assert(entry_views(out@) =~= Seq::<(Seq<char>, YamlView)>::empty());
    }
    let ghost p0 = out@;
    out.push((String::from_str("id"), Yaml::Str(x.id.clone())));
    proof {
        lemma_entry_views_push(p0, out@[out@.len() - 1]);
    }
    let ghost p1 = out@;
    out.push((String::from_str("name"), Yaml::Str(x.name.clone())));
    proof {
        lemma_entry_views_push(p1, out@[out@.len() - 1]);
    }
    match &x.technology {
        Some(ts) => {
            let ghost p = out@;
            out.push((String::from_str("technology"), strs_to_yaml(&ts.0)));
            proof {
                lemma_entry_views_push(p, out@[out@.len() - 1]);
            }
        },
        None => {},
    }
    match &x.children {
        Some(children) => {
            let mut items: Vec<Yaml> = Vec::new();
            let mut i: usize = 0;
            while i < children.len()
                invariant
                    i <= children@.len(),
                    items@.len() == i,
                    forall|j: int|
                        0 <= j < i ==> (#[trigger] items@[j])@ == enc_node(children@[j]@),
                decreases children@.len() - i,
            {
                proof {
                    assert(decreases_to!(*x => x.children));
                    assert(decreases_to!(x.children => x.children->0));
                    assert(x.children->0 == *children);
                    assert(decreases_to!(*children => children@));
                    assert(decreases_to!(children@ => children@[i as int]));
                }
                items.push(node_to_yaml(&children[i]));
                i += 1;
            }
            let ghost itemsv = items@;
            let children_node = Yaml::List(items);
            proof {
                crate::yaml::lemma_yaml_views(itemsv);
                crate::types::lemma_node_views(children@);
                lemma_enc_nodes(crate::types::node_views(children@));
                assert forall|j: int|
                    0 <= j < itemsv.len() implies crate::yaml::yaml_views(itemsv)[j] == enc_nodes(
                    crate::types::node_views(children@),
                )[j] by {
                    assert((itemsv[j])@ == enc_node(children@[j]@));
                    assert(crate::types::node_views(children@)[j] == children@[j]@);
                }
                assert(crate::yaml::yaml_views(itemsv) =~= enc_nodes(
                    crate::types::node_views(children@),
                ));
                assert(children_node@ == YamlView::List(crate::yaml::yaml_views(itemsv)));
            }
            let ghost p = out@;
            out.push((String::from_str("children"), children_node));
            proof {
                lemma_entry_views_push(p, out@[out@.len() - 1]);
            }
        },
        None => {},
    }
    match &x.instances {
        Some(insts) => {
            let mut items: Vec<Yaml> = Vec::new();
            let mut i: usize = 0;
            while i < insts.len()
                invariant
                    i <= insts@.len(),
                    items@.len() == i,
                    forall|j: int|
                        0 <= j < i ==> (#[trigger] items@[j])@ == enc_instance(insts@[j]@),
                decreases insts@.len() - i,
            {
                items.push(instance_to_yaml(&insts[i]));
                i += 1;
            }
            let ghost itemsv = items@;
            let insts_node = Yaml::List(items);
            proof {
                crate::yaml::lemma_yaml_views(itemsv);
                assert forall|j: int|
                    0 <= j < itemsv.len() implies crate::yaml::yaml_views(itemsv)[j]
                    == insts@.map_values(|v: ContainerInstance| v@).map_values(
                    |iv: ContainerInstanceV| enc_instance(iv),
                )[j] by {
                    assert((itemsv[j])@ == enc_instance(insts@[j]@));
                    assert(insts@.map_values(|v: ContainerInstance| v@)[j] == insts@[j]@);
                }
                assert(crate::yaml::yaml_views(itemsv) =~= insts@.map_values(
                    |v: ContainerInstance| v@,
                ).map_values(|iv: ContainerInstanceV| enc_instance(iv)));
                assert(insts_node@ == YamlView::List(crate::yaml::yaml_views(itemsv)));
            }
            let ghost p = out@;
            out.push((String::from_str("instances"), insts_node));
            proof {
                lemma_entry_views_push(p, out@[out@.len() - 1]);
            }
        },
        None => {},
    }
    match &x.properties {
        Some(ps) => {
            let ghost p = out@;
            out.push((String::from_str("properties"), Yaml::Dict(dup_entries(ps))));
            proof {
                lemma_entry_views_push(p, out@[out@.len() - 1]);
            }
        },
        None => {},
    }
    proof {
        assert(x@.instances == (match x.instances {
            Some(insts) => Some(insts@.map_values(|v: ContainerInstance| v@)),
            None => None,
        }));
        assert(entry_views(out@) =~= enc_node(x@)->Dict_0);
    }
    Yaml::Dict(out)
}

fn deployment_to_yaml(x: &Deployment) -> (r: Yaml)
    ensures
        r@ == enc_deployment(x@),
{
    let mut out: Vec<(String, Yaml)> = Vec::new();
    proof {
        assert(entry_views(out@) =~= Seq::<(Seq<char>, YamlView)>::empty());
    }
    let ghost p0 = out@;
    out.push((String::from_str("id"), Yaml::Str(x.id.clone())));
    proof {
        lemma_entry_views_push(p0, out@[out@.len() - 1]);
    }
    let ghost p1 = out@;
    out.push((String::from_str("name"), Yaml::Str(x.name.clone())));
    proof {
        lemma_entry_views_push(p1, out@[out@.len() - 1]);
    }
    match &x.description {
        Some(d) => {
            let ghost p = out@;
            out.push((String::from_str("description"), Yaml::Str(d.clone())));
            proof {
                lemma_entry_views_push(p, out@[out@.len() - 1]);
            }
        },
        None => {},
    }
    match &x.nodes {
        Some(ns) => {
            let mut items: Vec<Yaml> = Vec::new();
            let mut i: usize = 0;
            while i < ns.len()
                invariant
                    i <= ns@.len(),
                    items@.len() == i,
                    forall|j: int| 0 <= j < i ==> (#[trigger] items@[j])@ == enc_node(ns@[j]@),
                decreases ns@.len() - i,
            {
                items.push(node_to_yaml(&ns[i]));
                i += 1;
            }
            let ghost itemsv = items@;
            let nodes_node = Yaml::List(items);
            proof {
                crate::yaml::lemma_yaml_views(itemsv);
                crate::types::lemma_node_views(ns@);
                lemma_enc_nodes(crate::types::node_views(ns@));
                assert forall|j: int|
                    0 <= j < itemsv.len() implies crate::yaml::yaml_views(itemsv)[j] == enc_nodes(
                    crate::types::node_views(ns@),
                )[j] by {
                    assert((itemsv[j])@ == enc_node(ns@[j]@));
                    assert(crate::types::node_views(ns@)[j] == ns@[j]@);
                }
                assert(crate::yaml::yaml_views(itemsv) =~= enc_nodes(
                    crate::types::node_views(ns@),
                ));
                assert(nodes_node@ == YamlView::List(crate::yaml::yaml_views(itemsv)));
            }
            let ghost p = out@;
            out.push((String::from_str("nodes"), nodes_node));
            proof {
                lemma_entry_views_push(p, out@[out@.len() - 1]);
            }
        },
        None => {},
    }
    proof {
        assert(entry_views(out@) =~= enc_deployment(x@)->Dict_0);
    }
    Yaml::Dict(out)
}

/// The whole model as one untyped document, ready for a JSON or YAML
/// serializer: the seven collections in declaration order and the options.
pub fn model_to_document(m: &crate::model::Model) -> (r: Yaml)
    ensures
        r@ == spec_model_doc(*m),
{
    let mut out: Vec<(String, Yaml)> = Vec::new();
    proof {
        assert(entry_views(out@) =~= Seq::<(Seq<char>, YamlView)>::empty());
    }
    {
        let mut items: Vec<Yaml> = Vec::new();
        let mut i: usize = 0;
        while i < m.persons.len()
            invariant
                i <= m.persons@.len(),
                items@.len() == i,
                forall|j: int| 0 <= j < i ==> (#[trigger] items@[j])@ == enc_person(m.persons@[j]@),
            decreases m.persons@.len() - i,
        {
            items.push(person_to_yaml(&m.persons[i]));
            i += 1;
        }
        let ghost itemsv = items@;
        let persons_node = Yaml::List(items);
        proof {
            crate::yaml::lemma_yaml_views(itemsv);
            assert forall|j: int|
                0 <= j < itemsv.len() implies crate::yaml::yaml_views(itemsv)[j]
                == m.persons@.map_values(|x: Person| enc_person(x@))[j] by {
                assert((itemsv[j])@ == enc_person(m.persons@[j]@));
            }
            assert(crate::yaml::yaml_views(itemsv) =~= m.persons@.map_values(
                |x: Person| enc_person(x@),
            ));
            assert(persons_node@ == YamlView::List(crate::yaml::yaml_views(itemsv)));
        }
        let ghost p = out@;
        out.push((String::from_str("persons"), persons_node));
        proof {
            lemma_entry_views_push(p, out@[out@.len() - 1]);
        }
    }
    {
        let mut items: Vec<Yaml> = Vec::new();
        let mut i: usize = 0;
        while i < m.systems.len()
            invariant
                i <= m.systems@.len(),
                items@.len() == i,
                forall|j: int| 0 <= j < i ==> (#[trigger] items@[j])@ == enc_system(m.systems@[j]@),
            decreases m.systems@.len() - i,
        {
            items.push(system_to_yaml(&m.systems[i]));
            i += 1;
        }
        let ghost itemsv = items@;
        let systems_node = Yaml::List(items);
        proof {
            crate::yaml::lemma_yaml_views(itemsv);
            assert forall|j: int|
                0 <= j < itemsv.len() implies crate::yaml::yaml_views(itemsv)[j]
                == m.systems@.map_values(|x: SoftwareSystem| enc_system(x@))[j] by {
                assert((itemsv[j])@ == enc_system(m.systems@[j]@));
            }
            assert(crate::yaml::yaml_views(itemsv) =~= m.systems@.map_values(
                |x: SoftwareSystem| enc_system(x@),
            ));
            assert(systems_node@ == YamlView::List(crate::yaml::yaml_views(itemsv)));
        }
        let ghost p = out@;
        out.push((String::from_str("systems"), systems_node));
        proof {
            lemma_entry_views_push(p, out@[out@.len() - 1]);
        }
    }
    {
        let mut items: Vec<Yaml> = Vec::new();
        let mut i: usize = 0;
        while i < m.containers.len()
            invariant
                i <= m.containers@.len(),
                items@.len() == i,
                forall|j: int| 0 <= j < i ==> (#[trigger] items@[j])@ == enc_container(m.containers@[j]@),
            decreases m.containers@.len() - i,
        {
            items.push(container_to_yaml(&m.containers[i]));
            i += 1;
        }
        let ghost itemsv = items@;
        let containers_node = Yaml::List(items);
        proof {
            crate::yaml::lemma_yaml_views(itemsv);
            assert forall|j: int|
                0 <= j < itemsv.len() implies crate::yaml::yaml_views(itemsv)[j]
                == m.containers@.map_values(|x: Container| enc_container(x@))[j] by {
                assert((itemsv[j])@ == enc_container(m.containers@[j]@));
            }
            assert(crate::yaml::yaml_views(itemsv) =~= m.containers@.map_values(
                |x: Container| enc_container(x@),
            ));
            assert(containers_node@ == YamlView::List(crate::yaml::yaml_views(itemsv)));
        }
        let ghost p = out@;
        out.push((String::from_str("containers"), containers_node));
        proof {
            lemma_entry_views_push(p, out@[out@.len() - 1]);
        }
    }
    {
        let mut items: Vec<Yaml> = Vec::new();
        let mut i: usize = 0;
        while i < m.components.len()
            invariant
                i <= m.components@.len(),
                items@.len() == i,
                forall|j: int| 0 <= j < i ==> (#[trigger] items@[j])@ == enc_component(m.components@[j]@),
            decreases m.components@.len() - i,
        {
            items.push(component_to_yaml(&m.components[i]));
            i += 1;
        }
        let ghost itemsv = items@;
        let components_node = Yaml::List(items);
        proof {
            crate::yaml::lemma_yaml_views(itemsv);
            assert forall|j: int|
                0 <= j < itemsv.len() implies crate::yaml::yaml_views(itemsv)[j]
                == m.components@.map_values(|x: Component| enc_component(x@))[j] by {
                assert((itemsv[j])@ == enc_component(m.components@[j]@));
            }
            assert(crate::yaml::yaml_views(itemsv) =~= m.components@.map_values(
                |x: Component| enc_component(x@),
            ));
            assert(components_node@ == YamlView::List(crate::yaml::yaml_views(itemsv)));
        }
        let ghost p = out@;
        out.push((String::from_str("components"), components_node));
        proof {
            lemma_entry_views_push(p, out@[out@.len() - 1]);
        }
    }
    {
        let mut items: Vec<Yaml> = Vec::new();
        let mut i: usize = 0;
        while i < m.relationships.len()
            invariant
                i <= m.relationships@.len(),
                items@.len() == i,
                forall|j: int| 0 <= j < i ==> (#[trigger] items@[j])@ == enc_relationship(m.relationships@[j]@),
            decreases m.relationships@.len() - i,
        {
            items.push(relationship_to_yaml(&m.relationships[i]));
            i += 1;
        }
        let ghost itemsv = items@;
        let relationships_node = Yaml::List(items);
        proof {
            crate::yaml::lemma_yaml_views(itemsv);
            assert forall|j: int|
                0 <= j < itemsv.len() implies crate::yaml::yaml_views(itemsv)[j]
                == m.relationships@.map_values(|x: Relationship| enc_relationship(x@))[j] by {
                assert((itemsv[j])@ == enc_relationship(m.relationships@[j]@));
            }
            assert(crate::yaml::yaml_views(itemsv) =~= m.relationships@.map_values(
                |x: Relationship| enc_relationship(x@),
            ));
            assert(relationships_node@ == YamlView::List(crate::yaml::yaml_views(itemsv)));
        }
        let ghost p = out@;
        out.push((String::from_str("relationships"), relationships_node));
        proof {
            lemma_entry_views_push(p, out@[out@.len() - 1]);
        }
    }
    {
        let mut items: Vec<Yaml> = Vec::new();
        let mut i: usize = 0;
        while i < m.flows.len()
            invariant
                i <= m.flows@.len(),
                items@.len() == i,
                forall|j: int| 0 <= j < i ==> (#[trigger] items@[j])@ == enc_flow(m.flows@[j]@),
            decreases m.flows@.len() - i,
        {
            items.push(flow_to_yaml(&m.flows[i]));
            i += 1;
        }
        let ghost itemsv = items@;
        let flows_node = Yaml::List(items);
        proof {
            crate::yaml::lemma_yaml_views(itemsv);
            assert forall|j: int|
                0 <= j < itemsv.len() implies crate::yaml::yaml_views(itemsv)[j]
                == m.flows@.map_values(|x: Flow| enc_flow(x@))[j] by {
                assert((itemsv[j])@ == enc_flow(m.flows@[j]@));
            }
            assert(crate::yaml::yaml_views(itemsv) =~= m.flows@.map_values(
                |x: Flow| enc_flow(x@),
            ));
            assert(flows_node@ == YamlView::List(crate::yaml::yaml_views(itemsv)));
        }
        let ghost p = out@;
        out.push((String::from_str("flows"), flows_node));
        proof {
            lemma_entry_views_push(p, out@[out@.len() - 1]);
        }
    }
    {
        let mut items: Vec<Yaml> = Vec::new();
        let mut i: usize = 0;
        while i < m.deployments.len()
            invariant
                i <= m.deployments@.len(),
                items@.len() == i,
                forall|j: int| 0 <= j < i ==> (#[trigger] items@[j])@ == enc_deployment(m.deployments@[j]@),
            decreases m.deployments@.len() - i,
        {
            items.push(deployment_to_yaml(&m.deployments[i]));
            i += 1;
        }
        let ghost itemsv = items@;
        let deployments_node = Yaml::List(items);
        proof {
            crate::yaml::lemma_yaml_views(itemsv);
            assert forall|j: int|
                0 <= j < itemsv.len() implies crate::yaml::yaml_views(itemsv)[j]
                == m.deployments@.map_values(|x: Deployment| enc_deployment(x@))[j] by {
                assert((itemsv[j])@ == enc_deployment(m.deployments@[j]@));
            }
            assert(crate::yaml::yaml_views(itemsv) =~= m.deployments@.map_values(
                |x: Deployment| enc_deployment(x@),
            ));
            assert(deployments_node@ == YamlView::List(crate::yaml::yaml_views(itemsv)));
        }
        let ghost p = out@;
        out.push((String::from_str("deployments"), deployments_node));
        proof {
            lemma_entry_views_push(p, out@[out@.len() - 1]);
        }
    }
    let mut opts: Vec<(String, Yaml)> = Vec::new();
    proof {
        assert(entry_views(opts@) =~= Seq::<(Seq<char>, YamlView)>::empty());
    }
    let ghost po = opts@;
    opts.push((String::from_str("showMinimap"), Yaml::Bool(m.options.show_minimap)));
    proof {
        lemma_entry_views_push(po, opts@[opts@.len() - 1]);
    }
    let ghost pv = out@;
    out.push((String::from_str("options"), Yaml::Dict(opts)));
    proof {
        lemma_entry_views_push(pv, out@[out@.len() - 1]);
        assert(entry_views(out@) =~= spec_model_doc(*m)->Dict_0);
    }
    Yaml::Dict(out)
}

} // verus!
