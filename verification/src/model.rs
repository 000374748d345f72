//! The merged architecture model: flat, ordered collections of every element
//! kind plus derived lookup indices.  Full paths are globally unique across
//! persons, systems, containers and components; the first collision found
//! while indexing (scanning persons, then systems, then containers, then
//! components) aborts the build.  Indices are rebuilt wholesale from the
//! collections and never patched.

use vstd::prelude::*;
use vstd::string::StringExecFns;
use crate::types::{
    Component, Container, Deployment, ElementType, Flow, Options, Person, Relationship,
    SoftwareSystem, spec_component_parent, spec_component_path, spec_container_path,
    spec_person_path, spec_system_path, spec_tags,
};

verus! {

/// A fatal condition raised while indexing.
#[derive(Debug)]
pub enum ModelError {
    DuplicateElement(String),
}

impl ModelError {
    /// The human-readable form of the error.
    pub fn message(&self) -> (r: String)
        ensures
            self matches ModelError::DuplicateElement(p) && r@ == "duplicate element ID: "@ + p@,
    {
        match self {
            ModelError::DuplicateElement(p) => {
                let mut s = String::from_str("duplicate element ID: ");
                s.append(p.as_str());
                s
            },
        }
    }
}

/// A reference to one addressable element of a model, of any kind.
pub enum ElemRef<'a> {
    Person(&'a Person),
    System(&'a SoftwareSystem),
    Container(&'a Container),
    Component(&'a Component),
}

impl<'a> ElemRef<'a> {
    /// The element's kind.
    pub open spec fn spec_type(self) -> ElementType {
        match self {
            ElemRef::Person(_) => ElementType::Person,
            ElemRef::System(_) => ElementType::System,
            ElemRef::Container(_) => ElementType::Container,
            ElemRef::Component(_) => ElementType::Component,
        }
    }

    /// The element's full path.
    pub open spec fn spec_path(self) -> Seq<char> {
        match self {
            ElemRef::Person(p) => spec_person_path(*p),
            ElemRef::System(s) => spec_system_path(*s),
            ElemRef::Container(c) => spec_container_path(*c),
            ElemRef::Component(c) => spec_component_path(*c),
        }
    }

    /// The element's declared id.
    pub open spec fn spec_id(self) -> Seq<char> {
        match self {
            ElemRef::Person(p) => p.base.id@,
            ElemRef::System(s) => s.base.id@,
            ElemRef::Container(c) => c.base.id@,
            ElemRef::Component(c) => c.base.id@,
        }
    }

    pub fn get_type(&self) -> (r: ElementType)
        ensures
            r == self.spec_type(),
    {
        match self {
            ElemRef::Person(_) => ElementType::Person,
            ElemRef::System(_) => ElementType::System,
            ElemRef::Container(_) => ElementType::Container,
            ElemRef::Component(_) => ElementType::Component,
        }
    }

    pub fn get_full_path(&self) -> (r: String)
        ensures
            r@ == self.spec_path(),
    {
        match self {
            ElemRef::Person(p) => p.get_full_path(),
            ElemRef::System(s) => s.get_full_path(),
            ElemRef::Container(c) => c.get_full_path(),
            ElemRef::Component(c) => c.get_full_path(),
        }
    }

    pub fn get_id(&self) -> (r: &'a str)
        ensures
            r@ == self.spec_id(),
    {
        match self {
            ElemRef::Person(p) => p.base.get_id(),
            ElemRef::System(s) => s.base.get_id(),
            ElemRef::Container(c) => c.base.get_id(),
            ElemRef::Component(c) => c.base.get_id(),
        }
    }

    pub fn get_name(&self) -> (r: &'a str)
        ensures
            match self {
                ElemRef::Person(p) => r@ == p.base.name@,
                ElemRef::System(s) => r@ == s.base.name@,
                ElemRef::Container(c) => r@ == c.base.name@,
                ElemRef::Component(c) => r@ == c.base.name@,
            },
    {
        match self {
            ElemRef::Person(p) => p.base.get_name(),
            ElemRef::System(s) => s.base.get_name(),
            ElemRef::Container(c) => c.base.get_name(),
            ElemRef::Component(c) => c.base.get_name(),
        }
    }
}

/// The complete architecture model.  The flat collections (and `options`) are
/// the authoritative data, appended to by the loader; the private maps are
/// derived indices, valid once `build_indexes` has succeeded.
pub struct Model {
    pub persons: Vec<Person>,
    pub systems: Vec<SoftwareSystem>,
    pub containers: Vec<Container>,
    pub components: Vec<Component>,
    pub relationships: Vec<Relationship>,
    pub flows: Vec<Flow>,
    pub deployments: Vec<Deployment>,
    pub options: Options,
    pub elements_by_id: vstd::hash_map::StringHashMap<(ElementType, usize)>,
    pub elements_by_tag: vstd::hash_map::StringHashMap<Vec<String>>,
    pub children_by_id: vstd::hash_map::StringHashMap<Vec<String>>,
    pub outgoing_rels: vstd::hash_map::StringHashMap<Vec<usize>>,
    pub incoming_rels: vstd::hash_map::StringHashMap<Vec<usize>>,
}

/// Full paths of all addressable elements, in indexing scan order.
pub open spec fn spec_all_paths(m: Model) -> Seq<Seq<char>> {
    m.persons@.map_values(|p: Person| spec_person_path(p)) + m.systems@.map_values(
        |s: SoftwareSystem| spec_system_path(s),
    ) + m.containers@.map_values(|c: Container| spec_container_path(c))
        + m.components@.map_values(|c: Component| spec_component_path(c))
}

/// Kind and in-collection index of the element at scan position `i`.
pub open spec fn spec_entry_at(m: Model, i: int) -> (ElementType, usize) {
    let np = m.persons@.len() as int;
    let ns = m.systems@.len() as int;
    let nc = m.containers@.len() as int;
    if i < np {
        (ElementType::Person, i as usize)
    } else if i < np + ns {
        (ElementType::System, (i - np) as usize)
    } else if i < np + ns + nc {
        (ElementType::Container, (i - np - ns) as usize)
    } else {
        (ElementType::Component, (i - np - ns - nc) as usize)
    }
}

/// Some element of the model has full path `p`.
pub open spec fn spec_has_path(m: Model, p: Seq<char>) -> bool {
    exists|i: int| 0 <= i < spec_all_paths(m).len() && spec_all_paths(m)[i] == p
}

/// All full paths are pairwise distinct.
pub open spec fn spec_paths_unique(m: Model) -> bool {
    forall|i: int, j: int|
        0 <= i < j < spec_all_paths(m).len() ==> spec_all_paths(m)[i] != spec_all_paths(m)[j]
}

/// The first path in scan order that repeats an earlier one, if any: the path
/// that `build_indexes` reports.
pub open spec fn spec_first_dup_from(paths: Seq<Seq<char>>, k: int) -> Option<Seq<char>>
    decreases paths.len() - k,
{
    if k < 0 || k >= paths.len() {
        None
    } else if exists|i: int| 0 <= i < k && paths[i] == paths[k] {
        Some(paths[k])
    } else {
        spec_first_dup_from(paths, k + 1)
    }
}

pub open spec fn spec_first_dup(paths: Seq<Seq<char>>) -> Option<Seq<char>> {
    spec_first_dup_from(paths, 0)
}

proof fn lemma_first_dup_none(paths: Seq<Seq<char>>, k: int)
    requires
        forall|i: int, j: int| 0 <= i < j < paths.len() ==> paths[i] != paths[j],
    ensures
        spec_first_dup_from(paths, k) is None,
    decreases paths.len() - k,
{
    if 0 <= k < paths.len() {
        lemma_first_dup_none(paths, k + 1);
    }
}

proof fn lemma_first_dup_hit(paths: Seq<Seq<char>>, k: int, n: int)
    requires
        0 <= k <= n < paths.len(),
        forall|i: int, j: int| 0 <= i < j < n ==> paths[i] != paths[j],
        exists|i: int| 0 <= i < n && paths[i] == paths[n],
    ensures
        spec_first_dup_from(paths, k) == Some(paths[n]),
    decreases n - k,
{
    if k < n {
        assert(!exists|i: int| 0 <= i < k && paths[i] == paths[k]);
        lemma_first_dup_hit(paths, k + 1, n);
    }
}

/// The id index over the first `g` scan positions, as built by insertion.
pub open spec fn spec_id_map_upto(m: Model, g: int) -> Map<Seq<char>, (ElementType, usize)>
    decreases g,
{
    if g <= 0 {
        Map::empty()
    } else {
        spec_id_map_upto(m, g - 1).insert(spec_all_paths(m)[g - 1], spec_entry_at(m, g - 1))
    }
}

proof fn lemma_id_map_upto_dom(m: Model, g: int, p: Seq<char>)
    requires
        0 <= g <= spec_all_paths(m).len(),
    ensures
        spec_id_map_upto(m, g).contains_key(p) <==> exists|i: int|
            0 <= i < g && spec_all_paths(m)[i] == p,
    decreases g,
{
    if g > 0 {
        lemma_id_map_upto_dom(m, g - 1, p);
    }
}

proof fn lemma_id_map_upto_at(m: Model, g: int, i: int)
    requires
        0 <= i < g <= spec_all_paths(m).len(),
        forall|a: int, b: int|
            0 <= a < b < g ==> spec_all_paths(m)[a] != spec_all_paths(m)[b],
    ensures
        spec_id_map_upto(m, g).contains_key(spec_all_paths(m)[i]),
        spec_id_map_upto(m, g)[spec_all_paths(m)[i]] == spec_entry_at(m, i),
    decreases g,
{
    if i < g - 1 {
        lemma_id_map_upto_at(m, g - 1, i);
    }
}

/// Adds one value under a key of a multi-map, starting a new list for a new
/// key and appending for a known one.
pub open spec fn multi_add<V>(acc: Map<Seq<char>, Seq<V>>, k: Seq<char>, v: V) -> Map<
    Seq<char>,
    Seq<V>,
> {
    if acc.contains_key(k) {
        acc.insert(k, acc[k].push(v))
    } else {
        acc.insert(k, seq![v])
    }
}

/// Folds a list of key/value contributions into a multi-map, left to right.
pub open spec fn multi_fold<V>(
    acc: Map<Seq<char>, Seq<V>>,
    items: Seq<(Seq<char>, V)>,
) -> Map<Seq<char>, Seq<V>>
    decreases items.len(),
{
    if items.len() == 0 {
        acc
    } else {
        multi_fold(multi_add(acc, items[0].0, items[0].1), items.drop_first())
    }
}

pub proof fn lemma_multi_fold_concat<V>(
    acc: Map<Seq<char>, Seq<V>>,
    a: Seq<(Seq<char>, V)>,
    b: Seq<(Seq<char>, V)>,
)
    ensures
        multi_fold(acc, a + b) == multi_fold(multi_fold(acc, a), b),
    decreases a.len(),
{
    if a.len() == 0 {
        assert(a + b =~= b);
    } else {
        assert((a + b).drop_first() =~= a.drop_first() + b);
        lemma_multi_fold_concat(multi_add(acc, a[0].0, a[0].1), a.drop_first(), b);
    }
}

pub proof fn lemma_multi_fold_single<V>(acc: Map<Seq<char>, Seq<V>>, k: Seq<char>, v: V)
    ensures
        multi_fold(acc, seq![(k, v)]) == multi_add(acc, k, v),
{
    let s = seq![(k, v)];
    assert(s.drop_first() =~= Seq::<(Seq<char>, V)>::empty());
    assert(multi_fold(multi_add(acc, k, v), s.drop_first()) == multi_add(acc, k, v));
}

/// Every value in a multi-fold result satisfies `pred` of its key, provided
/// the accumulator's values and the contributions do.
pub proof fn lemma_multi_fold_pred<V>(
    acc: Map<Seq<char>, Seq<V>>,
    items: Seq<(Seq<char>, V)>,
    pred: spec_fn(Seq<char>, V) -> bool,
)
    requires
        forall|k: Seq<char>, i: int|
            acc.contains_key(k) && 0 <= i < acc[k].len() ==> pred(k, #[trigger] acc[k][i]),
        forall|j: int| 0 <= j < items.len() ==> pred((#[trigger] items[j]).0, items[j].1),
    ensures
        forall|k: Seq<char>, i: int|
            multi_fold(acc, items).contains_key(k) && 0 <= i < multi_fold(acc, items)[k].len()
                ==> pred(k, #[trigger] multi_fold(acc, items)[k][i]),
    decreases items.len(),
{
    if items.len() > 0 {
        let acc2 = multi_add(acc, items[0].0, items[0].1);
        assert(pred(items[0].0, items[0].1));
        assert forall|k: Seq<char>, i: int|
            acc2.contains_key(k) && 0 <= i < acc2[k].len() implies pred(
            k,
            #[trigger] acc2[k][i],
        ) by {
            if k == items[0].0 {
                if acc.contains_key(k) {
                    if i < acc[k].len() {
                        assert(acc2[k][i] == acc[k][i]);
                    } else {
                        assert(acc2[k][i] == items[0].1);
                    }
                } else {
                    assert(acc2[k][i] == items[0].1);
                }
            } else {
                assert(acc2[k] == acc[k]);
            }
        }
        assert(forall|j: int|
            0 <= j < items.drop_first().len() ==> pred(
                (#[trigger] items.drop_first()[j]).0,
                items.drop_first()[j].1,
            ));
        lemma_multi_fold_pred(acc2, items.drop_first(), pred);
        assert(multi_fold(acc, items) == multi_fold(acc2, items.drop_first()));
    }
}

/// Tag contributions of one element: one `(tag, path)` pair per tag.
pub open spec fn spec_tag_pairs_of(path: Seq<char>, tags: Seq<Seq<char>>) -> Seq<
    (Seq<char>, Seq<char>),
> {
    Seq::new(tags.len(), |j: int| (tags[j], path))
}

/// All elements in scan order as `(full path, tags)` pairs.
pub open spec fn spec_tag_items(m: Model) -> Seq<(Seq<char>, Seq<Seq<char>>)> {
    m.persons@.map_values(|p: Person| (spec_person_path(p), spec_tags(p.base)))
        + m.systems@.map_values(|s: SoftwareSystem| (spec_system_path(s), spec_tags(s.base)))
        + m.containers@.map_values(|c: Container| (spec_container_path(c), spec_tags(c.base)))
        + m.components@.map_values(|c: Component| (spec_component_path(c), spec_tags(c.base)))
}

/// Flattened `(tag, path)` contributions of a list of elements.
pub open spec fn spec_tag_pairs(items: Seq<(Seq<char>, Seq<Seq<char>>)>) -> Seq<
    (Seq<char>, Seq<char>),
>
    decreases items.len(),
{
    if items.len() == 0 {
        Seq::empty()
    } else {
        spec_tag_pairs_of(items[0].0, items[0].1) + spec_tag_pairs(items.drop_first())
    }
}

pub proof fn lemma_tag_pairs_snoc(items: Seq<(Seq<char>, Seq<Seq<char>>)>, g: int)
    requires
        0 <= g < items.len(),
    ensures
        spec_tag_pairs(items.take(g + 1)) == spec_tag_pairs(items.take(g)) + spec_tag_pairs_of(
            items[g].0,
            items[g].1,
        ),
    decreases g,
{
    if g == 0 {
        reveal_with_fuel(spec_tag_pairs, 3);
        assert(items.take(1).drop_first() =~= Seq::<(Seq<char>, Seq<Seq<char>>)>::empty());
        assert(items.take(1)[0] == items[0]);
        assert(spec_tag_pairs(items.take(1)) =~= spec_tag_pairs_of(items[0].0, items[0].1));
        assert(spec_tag_pairs(items.take(0)) =~= Seq::<(Seq<char>, Seq<char>)>::empty());
        assert(spec_tag_pairs(items.take(0)) + spec_tag_pairs_of(items[0].0, items[0].1)
            =~= spec_tag_pairs_of(items[0].0, items[0].1));
    } else {
        lemma_tag_pairs_snoc(items.drop_first(), g - 1);
        assert(items.take(g + 1).drop_first() =~= items.drop_first().take(g));
        assert(items.take(g).drop_first() =~= items.drop_first().take(g - 1));
        assert(items.take(g + 1)[0] == items[0]);
        assert(items.take(g)[0] == items[0]);
        assert(items.drop_first()[g - 1] == items[g]);
    }
}

/// The tag index of a model: tag -> full paths of elements carrying it, in
/// scan order.
pub open spec fn spec_tag_map(m: Model) -> Map<Seq<char>, Seq<Seq<char>>> {
    multi_fold(Map::empty(), spec_tag_pairs(spec_tag_items(m)))
}

/// Parent/child contributions, in scan order: containers under their system's
/// path, then components under their container's path.
pub open spec fn spec_child_items(m: Model) -> Seq<(Seq<char>, Seq<char>)> {
    m.containers@.map_values(|c: Container| (c.system_id@, spec_container_path(c)))
        + m.components@.map_values(
        |c: Component| (spec_component_parent(c), spec_component_path(c)),
    )
}

/// The children index of a model: parent path -> child full paths.
pub open spec fn spec_child_map(m: Model) -> Map<Seq<char>, Seq<Seq<char>>> {
    multi_fold(Map::empty(), spec_child_items(m))
}

/// Relationship endpoint contributions: each relationship index under its
/// `from` (respectively `to`) path.
pub open spec fn spec_out_items(m: Model) -> Seq<(Seq<char>, usize)> {
    Seq::new(m.relationships@.len(), |i: int| (m.relationships@[i].from@, i as usize))
}

pub open spec fn spec_in_items(m: Model) -> Seq<(Seq<char>, usize)> {
    Seq::new(m.relationships@.len(), |i: int| (m.relationships@[i].to@, i as usize))
}

pub open spec fn spec_out_map(m: Model) -> Map<Seq<char>, Seq<usize>> {
    multi_fold(Map::empty(), spec_out_items(m))
}

pub open spec fn spec_in_map(m: Model) -> Map<Seq<char>, Seq<usize>> {
    multi_fold(Map::empty(), spec_in_items(m))
}

/// An exec multi-map of path lists agrees with its mathematical counterpart.
pub open spec fn path_map_matches(
    mv: Map<Seq<char>, Vec<String>>,
    pm: Map<Seq<char>, Seq<Seq<char>>>,
) -> bool {
    &&& forall|k: Seq<char>| mv.contains_key(k) <==> pm.contains_key(k)
    &&& forall|k: Seq<char>| pm.contains_key(k) ==> (#[trigger] mv[k]).deep_view() == pm[k]
}

/// An exec multi-map of index lists agrees with its mathematical counterpart.
pub open spec fn idx_map_matches(mv: Map<Seq<char>, Vec<usize>>, pm: Map<Seq<char>, Seq<usize>>) -> bool {
    &&& forall|k: Seq<char>| mv.contains_key(k) <==> pm.contains_key(k)
    &&& forall|k: Seq<char>| pm.contains_key(k) ==> (#[trigger] mv[k])@ == pm[k]
}

impl Model {
    /// The derived indices agree with the flat collections; established by
    /// `build_indexes` and required by every indexed read.
    pub open spec fn inv(self) -> bool {
        &&& spec_paths_unique(self)
        &&& forall|p: Seq<char>|
            self.elements_by_id@.contains_key(p) ==> spec_has_path(self, p)
        &&& forall|i: int|
            0 <= i < spec_all_paths(self).len() ==> self.elements_by_id@.contains_key(
                #[trigger] spec_all_paths(self)[i],
            ) && self.elements_by_id@[spec_all_paths(self)[i]] == spec_entry_at(self, i)
        &&& path_map_matches(self.elements_by_tag@, spec_tag_map(self))
        &&& path_map_matches(self.children_by_id@, spec_child_map(self))
        &&& idx_map_matches(self.outgoing_rels@, spec_out_map(self))
        &&& idx_map_matches(self.incoming_rels@, spec_in_map(self))
    }

    /// Creates an empty model with empty indices; an empty model is indexed.
    pub fn new() -> (r: Model)
        ensures
            r.persons@.len() == 0,
            r.systems@.len() == 0,
            r.containers@.len() == 0,
            r.components@.len() == 0,
            r.relationships@.len() == 0,
            r.flows@.len() == 0,
            r.deployments@.len() == 0,
            !r.options.show_minimap,
            r.inv(),
    {
        let r = Model {
            persons: Vec::new(),
            systems: Vec::new(),
            containers: Vec::new(),
            components: Vec::new(),
            relationships: Vec::new(),
            flows: Vec::new(),
            deployments: Vec::new(),
            options: Options { show_minimap: false },
            elements_by_id: vstd::hash_map::StringHashMap::new(),
            elements_by_tag: vstd::hash_map::StringHashMap::new(),
            children_by_id: vstd::hash_map::StringHashMap::new(),
            outgoing_rels: vstd::hash_map::StringHashMap::new(),
            incoming_rels: vstd::hash_map::StringHashMap::new(),
        };
        proof {
            assert(spec_all_paths(r) =~= Seq::<Seq<char>>::empty());
            assert(spec_tag_items(r) =~= Seq::<(Seq<char>, Seq<Seq<char>>)>::empty());
            assert(spec_child_items(r) =~= Seq::<(Seq<char>, Seq<char>)>::empty());
            assert(spec_out_items(r) =~= Seq::<(Seq<char>, usize)>::empty());
            assert(spec_in_items(r) =~= Seq::<(Seq<char>, usize)>::empty());
        }
        r
    }
}


pub proof fn lemma_all_paths_at(m: Model, g: int)
    requires
        0 <= g < m.persons@.len() + m.systems@.len() + m.containers@.len() + m.components@.len(),
    ensures
        spec_all_paths(m).len() == m.persons@.len() + m.systems@.len() + m.containers@.len()
            + m.components@.len(),
        g < m.persons@.len() ==> spec_all_paths(m)[g] == spec_person_path(m.persons@[g]),
        m.persons@.len() <= g < m.persons@.len() + m.systems@.len() ==> spec_all_paths(m)[g]
            == spec_system_path(m.systems@[g - m.persons@.len()]),
        m.persons@.len() + m.systems@.len() <= g < m.persons@.len() + m.systems@.len()
            + m.containers@.len() ==> spec_all_paths(m)[g] == spec_container_path(
            m.containers@[g - m.persons@.len() - m.systems@.len()],
        ),
        m.persons@.len() + m.systems@.len() + m.containers@.len() <= g ==> spec_all_paths(m)[g]
            == spec_component_path(
            m.components@[g - m.persons@.len() - m.systems@.len() - m.containers@.len()],
        ),
{
    let pp = m.persons@.map_values(|p: Person| spec_person_path(p));
    let sp = m.systems@.map_values(|s: SoftwareSystem| spec_system_path(s));
    let cp = m.containers@.map_values(|c: Container| spec_container_path(c));
    let mp = m.components@.map_values(|c: Component| spec_component_path(c));
    assert(spec_all_paths(m) == pp + sp + cp + mp);
    if g < pp.len() {
        assert(spec_all_paths(m)[g] == pp[g]);
    } else if g < pp.len() + sp.len() {
        assert(spec_all_paths(m)[g] == sp[g - pp.len()]);
    } else if g < pp.len() + sp.len() + cp.len() {
        assert(spec_all_paths(m)[g] == cp[g - pp.len() - sp.len()]);
    } else {
        assert(spec_all_paths(m)[g] == mp[g - pp.len() - sp.len() - cp.len()]);
    }
}

proof fn lemma_tag_items_at(m: Model, g: int)
    requires
        0 <= g < m.persons@.len() + m.systems@.len() + m.containers@.len() + m.components@.len(),
    ensures
        spec_tag_items(m).len() == m.persons@.len() + m.systems@.len() + m.containers@.len()
            + m.components@.len(),
        g < m.persons@.len() ==> spec_tag_items(m)[g] == (
            spec_person_path(m.persons@[g]),
            spec_tags(m.persons@[g].base),
        ),
        m.persons@.len() <= g < m.persons@.len() + m.systems@.len() ==> spec_tag_items(m)[g] == (
            spec_system_path(m.systems@[g - m.persons@.len()]),
            spec_tags(m.systems@[g - m.persons@.len()].base),
        ),
        m.persons@.len() + m.systems@.len() <= g < m.persons@.len() + m.systems@.len()
            + m.containers@.len() ==> spec_tag_items(m)[g] == (
            spec_container_path(m.containers@[g - m.persons@.len() - m.systems@.len()]),
            spec_tags(m.containers@[g - m.persons@.len() - m.systems@.len()].base),
        ),
        m.persons@.len() + m.systems@.len() + m.containers@.len() <= g ==> spec_tag_items(m)[g]
            == (
            spec_component_path(
                m.components@[g - m.persons@.len() - m.systems@.len() - m.containers@.len()],
            ),
            spec_tags(
                m.components@[g - m.persons@.len() - m.systems@.len()
                    - m.containers@.len()].base,
            ),
        ),
{
    let pp = m.persons@.map_values(|p: Person| (spec_person_path(p), spec_tags(p.base)));
    let sp = m.systems@.map_values(
        |s: SoftwareSystem| (spec_system_path(s), spec_tags(s.base)),
    );
    let cp = m.containers@.map_values(
        |c: Container| (spec_container_path(c), spec_tags(c.base)),
    );
    let mp = m.components@.map_values(
        |c: Component| (spec_component_path(c), spec_tags(c.base)),
    );
    assert(spec_tag_items(m) == pp + sp + cp + mp);
    if g < pp.len() {
        assert(spec_tag_items(m)[g] == pp[g]);
    } else if g < pp.len() + sp.len() {
        assert(spec_tag_items(m)[g] == sp[g - pp.len()]);
    } else if g < pp.len() + sp.len() + cp.len() {
        assert(spec_tag_items(m)[g] == cp[g - pp.len() - sp.len()]);
    } else {
        assert(spec_tag_items(m)[g] == mp[g - pp.len() - sp.len() - cp.len()]);
    }
}

proof fn lemma_child_items_at(m: Model, g: int)
    requires
        0 <= g < m.containers@.len() + m.components@.len(),
    ensures
        spec_child_items(m).len() == m.containers@.len() + m.components@.len(),
        g < m.containers@.len() ==> spec_child_items(m)[g] == (
            m.containers@[g].system_id@,
            spec_container_path(m.containers@[g]),
        ),
        m.containers@.len() <= g ==> spec_child_items(m)[g] == (
            spec_component_parent(m.components@[g - m.containers@.len()]),
            spec_component_path(m.components@[g - m.containers@.len()]),
        ),
{
    let cp = m.containers@.map_values(
        |c: Container| (c.system_id@, spec_container_path(c)),
    );
    let mp = m.components@.map_values(
        |c: Component| (spec_component_parent(c), spec_component_path(c)),
    );
    assert(spec_child_items(m) == cp + mp);
    if g < cp.len() {
        assert(spec_child_items(m)[g] == cp[g]);
    } else {
        assert(spec_child_items(m)[g] == mp[g - cp.len()]);
    }
}

/// A fresh copy of a list of strings.
fn clone_strings(v: &Vec<String>) -> (r: Vec<String>)
    ensures
        r@ == v@,
{
    let mut out: Vec<String> = Vec::new();
    let mut i: usize = 0;
    while i < v.len()
        invariant
            i <= v@.len(),
            out@.len() == i,
            forall|j: int| 0 <= j < i ==> out@[j] == v@[j],
        decreases v@.len() - i,
    {
        out.push(v[i].clone());
        i += 1;
    }
    proof {
        assert(out@ =~= v@);
    }
    out
}

/// A fresh copy of a list of indices.
fn clone_indices(v: &Vec<usize>) -> (r: Vec<usize>)
    ensures
        r@ == v@,
{
    let mut out: Vec<usize> = Vec::new();
    let mut i: usize = 0;
    while i < v.len()
        invariant
            i <= v@.len(),
            out@.len() == i,
            forall|j: int| 0 <= j < i ==> out@[j] == v@[j],
        decreases v@.len() - i,
    {
        out.push(v[i]);
        i += 1;
    }
    proof {
        assert(out@ =~= v@);
    }
    out
}

/// Appends `path` to the list under `key`, starting the list when absent.
fn multi_map_push(
    mm: &mut vstd::hash_map::StringHashMap<Vec<String>>,
    key: &String,
    path: &String,
    Ghost(pm): Ghost<Map<Seq<char>, Seq<Seq<char>>>>,
)
    requires
        path_map_matches(old(mm)@, pm),
    ensures
        path_map_matches(final(mm)@, multi_add(pm, key@, path@)),
{
    let ghost pm2 = multi_add(pm, key@, path@);
    match mm.get(key.as_str()) {
        Some(v) => {
            let mut nv = clone_strings(v);
            nv.push(path.clone());
            proof {
                assert(nv.deep_view() =~= pm[key@].push(path@));
            }
            mm.insert(key.clone(), nv);
        },
        None => {
            let mut nv: Vec<String> = Vec::new();
            nv.push(path.clone());
            proof {
                assert(nv.deep_view() =~= seq![path@]);
            }
            mm.insert(key.clone(), nv);
        },
    }
    proof {
        assert forall|k: Seq<char>| mm@.contains_key(k) <==> pm2.contains_key(k) by {}
        assert forall|k: Seq<char>| pm2.contains_key(k) implies (#[trigger] mm@[k]).deep_view()
            == pm2[k] by {
            if k != key@ {
                assert(mm@[k] == old(mm)@[k]);
            }
        }
    }
}

/// Appends a relationship index to the list under `key`.
fn rel_map_push(
    mm: &mut vstd::hash_map::StringHashMap<Vec<usize>>,
    key: &String,
    idx: usize,
    Ghost(pm): Ghost<Map<Seq<char>, Seq<usize>>>,
)
    requires
        idx_map_matches(old(mm)@, pm),
    ensures
        idx_map_matches(final(mm)@, multi_add(pm, key@, idx)),
{
    let ghost pm2 = multi_add(pm, key@, idx);
    match mm.get(key.as_str()) {
        Some(v) => {
            let mut nv = clone_indices(v);
            nv.push(idx);
            mm.insert(key.clone(), nv);
        },
        None => {
            let mut nv: Vec<usize> = Vec::new();
            nv.push(idx);
            proof {
                assert(nv@ =~= seq![idx]);
            }
            mm.insert(key.clone(), nv);
        },
    }
    proof {
        assert forall|k: Seq<char>| pm2.contains_key(k) implies (#[trigger] mm@[k])@ == pm2[k] by {
            if k != key@ {
                assert(mm@[k] == old(mm)@[k]);
            }
        }
    }
}

/// Records the `(tag, path)` contributions of one element.
fn tag_map_add(
    mm: &mut vstd::hash_map::StringHashMap<Vec<String>>,
    path: &String,
    tags: &Vec<String>,
    Ghost(pm): Ghost<Map<Seq<char>, Seq<Seq<char>>>>,
)
    requires
        path_map_matches(old(mm)@, pm),
    ensures
        path_map_matches(
            final(mm)@,
            multi_fold(pm, spec_tag_pairs_of(path@, tags.deep_view())),
        ),
{
    let ghost pairs = spec_tag_pairs_of(path@, tags.deep_view());
    let mut t: usize = 0;
    while t < tags.len()
        invariant
            t <= tags@.len(),
            path_map_matches(mm@, multi_fold(pm, pairs.take(t as int))),
        decreases tags@.len() - t,
    {
        let ghost cur = multi_fold(pm, pairs.take(t as int));
        multi_map_push(mm, &tags[t], path, Ghost(cur));
        proof {
            assert(pairs.take(t + 1) =~= pairs.take(t as int) + seq![pairs[t as int]]);
            lemma_multi_fold_concat(pm, pairs.take(t as int), seq![pairs[t as int]]);
            assert(pairs[t as int] == (tags@[t as int]@, path@));
            lemma_multi_fold_single(cur, pairs[t as int].0, pairs[t as int].1);
        }
        t += 1;
    }
    proof {
        assert(pairs.take(tags@.len() as int) =~= pairs);
    }
}

/// Builds the path index over all four collections, detecting the first
/// duplicate full path in scan order.
fn build_id_index(m: &Model) -> (r: Result<
    vstd::hash_map::StringHashMap<(ElementType, usize)>,
    ModelError,
>)
    ensures
        match r {
            Ok(ids) => {
                &&& spec_first_dup(spec_all_paths(*m)) is None
                &&& spec_paths_unique(*m)
                &&& ids@ == spec_id_map_upto(*m, spec_all_paths(*m).len() as int)
            },
            Err(e) => e matches ModelError::DuplicateElement(p) && spec_first_dup(
                spec_all_paths(*m),
            ) == Some(p@),
        },
{
    let ghost paths = spec_all_paths(*m);
    let np = m.persons.len();
    let ns = m.systems.len();
    let nc = m.containers.len();
    let nm = m.components.len();
    proof {
        if np + ns + nc + nm > 0 {
            lemma_all_paths_at(*m, 0);
        } else {
            assert(paths =~= Seq::<Seq<char>>::empty());
        }
    }
    let mut ids: vstd::hash_map::StringHashMap<(ElementType, usize)> =
        vstd::hash_map::StringHashMap::new();

    let mut i: usize = 0;
    while i < np
        invariant
            i <= np,
            ids@ == spec_id_map_upto(*m, i as int),
            forall|a: int, b: int| 0 <= a < b < i ==> paths[a] != paths[b],
        decreases np - i,
    {
        let ghost g = i as int;
        proof {
            lemma_all_paths_at(*m, g);
        }
        let path = m.persons[i].get_full_path();
        if ids.contains_key(path.as_str()) {
            proof {
                lemma_id_map_upto_dom(*m, g, path@);
                lemma_first_dup_hit(paths, 0, g);
            }
            return Err(ModelError::DuplicateElement(path));
        }
        proof {
            lemma_id_map_upto_dom(*m, g, path@);
        }
        ids.insert(path, (ElementType::Person, i));
        i += 1;
    }

    let mut i: usize = 0;
    while i < ns
        invariant
            i <= ns,
            ids@ == spec_id_map_upto(*m, np + i as int),
            forall|a: int, b: int| 0 <= a < b < np + i ==> paths[a] != paths[b],
        decreases ns - i,
    {
        let ghost g = np + i as int;
        proof {
            lemma_all_paths_at(*m, g);
        }
        let path = m.systems[i].get_full_path();
        if ids.contains_key(path.as_str()) {
            proof {
                lemma_id_map_upto_dom(*m, g, path@);
                lemma_first_dup_hit(paths, 0, g);
            }
            return Err(ModelError::DuplicateElement(path));
        }
        proof {
            lemma_id_map_upto_dom(*m, g, path@);
        }
        ids.insert(path, (ElementType::System, i));
        i += 1;
    }

    let mut i: usize = 0;
    while i < nc
        invariant
            i <= nc,
            ids@ == spec_id_map_upto(*m, np + ns + i as int),
            forall|a: int, b: int| 0 <= a < b < np + ns + i ==> paths[a] != paths[b],
        decreases nc - i,
    {
        let ghost g = np + ns + i as int;
        proof {
            lemma_all_paths_at(*m, g);
        }
        let path = m.containers[i].get_full_path();
        if ids.contains_key(path.as_str()) {
            proof {
                lemma_id_map_upto_dom(*m, g, path@);
                lemma_first_dup_hit(paths, 0, g);
            }
            return Err(ModelError::DuplicateElement(path));
        }
        proof {
            lemma_id_map_upto_dom(*m, g, path@);
        }
        ids.insert(path, (ElementType::Container, i));
        i += 1;
    }

    let mut i: usize = 0;
    while i < nm
        invariant
            i <= nm,
            ids@ == spec_id_map_upto(*m, np + ns + nc + i as int),
            forall|a: int, b: int| 0 <= a < b < np + ns + nc + i ==> paths[a] != paths[b],
        decreases nm - i,
    {
        let ghost g = np + ns + nc + i as int;
        proof {
            lemma_all_paths_at(*m, g);
        }
        let path = m.components[i].get_full_path();
        if ids.contains_key(path.as_str()) {
            proof {
                lemma_id_map_upto_dom(*m, g, path@);
                lemma_first_dup_hit(paths, 0, g);
            }
            return Err(ModelError::DuplicateElement(path));
        }
        proof {
            lemma_id_map_upto_dom(*m, g, path@);
        }
        ids.insert(path, (ElementType::Component, i));
        i += 1;
    }

    proof {
        lemma_first_dup_none(paths, 0);
    }
    Ok(ids)
}

/// Builds the tag index: one entry per tag per element, in scan order.
fn build_tag_index(m: &Model) -> (r: vstd::hash_map::StringHashMap<Vec<String>>)
    ensures
        path_map_matches(r@, spec_tag_map(*m)),
{
    let ghost titems = spec_tag_items(*m);
    let np = m.persons.len();
    let ns = m.systems.len();
    let nc = m.containers.len();
    let nm = m.components.len();
    let mut tagm: vstd::hash_map::StringHashMap<Vec<String>> =
        vstd::hash_map::StringHashMap::new();
    proof {
        assert(path_map_matches(
            tagm@,
            multi_fold(Map::empty(), spec_tag_pairs(titems.take(0))),
        ));
    }

    let mut i: usize = 0;
    while i < np
        invariant
            i <= np,
            path_map_matches(
                tagm@,
                multi_fold(Map::empty(), spec_tag_pairs(titems.take(i as int))),
            ),
        decreases np - i,
    {
        let ghost g = i as int;
        let ghost cur = multi_fold(Map::empty(), spec_tag_pairs(titems.take(g)));
        proof {
            lemma_tag_items_at(*m, g);
            lemma_tag_pairs_snoc(titems, g);
            lemma_multi_fold_concat(
                Map::empty(),
                spec_tag_pairs(titems.take(g)),
                spec_tag_pairs_of(titems[g].0, titems[g].1),
            );
        }
        let path = m.persons[i].get_full_path();
        match &m.persons[i].base.tags {
            Some(ts) => {
                tag_map_add(&mut tagm, &path, ts, Ghost(cur));
            },
            None => {
                proof {
                    assert(spec_tag_pairs_of(titems[g].0, titems[g].1) =~= Seq::<
                        (Seq<char>, Seq<char>),
                    >::empty());
                }
            },
        }
        i += 1;
    }

    let mut i: usize = 0;
    while i < ns
        invariant
            i <= ns,
            path_map_matches(
                tagm@,
                multi_fold(Map::empty(), spec_tag_pairs(titems.take(np + i as int))),
            ),
        decreases ns - i,
    {
        let ghost g = np + i as int;
        let ghost cur = multi_fold(Map::empty(), spec_tag_pairs(titems.take(g)));
        proof {
            lemma_tag_items_at(*m, g);
            lemma_tag_pairs_snoc(titems, g);
            lemma_multi_fold_concat(
                Map::empty(),
                spec_tag_pairs(titems.take(g)),
                spec_tag_pairs_of(titems[g].0, titems[g].1),
            );
        }
        let path = m.systems[i].get_full_path();
        match &m.systems[i].base.tags {
            Some(ts) => {
                tag_map_add(&mut tagm, &path, ts, Ghost(cur));
            },
            None => {
                proof {
                    assert(spec_tag_pairs_of(titems[g].0, titems[g].1) =~= Seq::<
                        (Seq<char>, Seq<char>),
                    >::empty());
                }
            },
        }
        i += 1;
    }

    let mut i: usize = 0;
    while i < nc
        invariant
            i <= nc,
            path_map_matches(
                tagm@,
                multi_fold(Map::empty(), spec_tag_pairs(titems.take(np + ns + i as int))),
            ),
        decreases nc - i,
    {
        let ghost g = np + ns + i as int;
        let ghost cur = multi_fold(Map::empty(), spec_tag_pairs(titems.take(g)));
        proof {
            lemma_tag_items_at(*m, g);
            lemma_tag_pairs_snoc(titems, g);
            lemma_multi_fold_concat(
                Map::empty(),
                spec_tag_pairs(titems.take(g)),
                spec_tag_pairs_of(titems[g].0, titems[g].1),
            );
        }
        let path = m.containers[i].get_full_path();
        match &m.containers[i].base.tags {
            Some(ts) => {
                tag_map_add(&mut tagm, &path, ts, Ghost(cur));
            },
            None => {
                proof {
                    assert(spec_tag_pairs_of(titems[g].0, titems[g].1) =~= Seq::<
                        (Seq<char>, Seq<char>),
                    >::empty());
                }
            },
        }
        i += 1;
    }

    let mut i: usize = 0;
    while i < nm
        invariant
            i <= nm,
            path_map_matches(
                tagm@,
                multi_fold(Map::empty(), spec_tag_pairs(titems.take(np + ns + nc + i as int))),
            ),
        decreases nm - i,
    {
        let ghost g = np + ns + nc + i as int;
        let ghost cur = multi_fold(Map::empty(), spec_tag_pairs(titems.take(g)));
        proof {
            lemma_tag_items_at(*m, g);
            lemma_tag_pairs_snoc(titems, g);
            lemma_multi_fold_concat(
                Map::empty(),
                spec_tag_pairs(titems.take(g)),
                spec_tag_pairs_of(titems[g].0, titems[g].1),
            );
        }
        let path = m.components[i].get_full_path();
        match &m.components[i].base.tags {
            Some(ts) => {
                tag_map_add(&mut tagm, &path, ts, Ghost(cur));
            },
            None => {
                proof {
                    assert(spec_tag_pairs_of(titems[g].0, titems[g].1) =~= Seq::<
                        (Seq<char>, Seq<char>),
                    >::empty());
                }
            },
        }
        i += 1;
    }

    proof {
        assert(titems.take((np + ns + nc + nm) as int) =~= titems);
    }
    tagm
}

/// Builds the children index: containers under their system's path, then
/// components under their container's path.
fn build_child_index(m: &Model) -> (r: vstd::hash_map::StringHashMap<Vec<String>>)
    ensures
        path_map_matches(r@, spec_child_map(*m)),
{
    let ghost citems = spec_child_items(*m);
    let nc = m.containers.len();
    let nm = m.components.len();
    let mut childm: vstd::hash_map::StringHashMap<Vec<String>> =
        vstd::hash_map::StringHashMap::new();

    let mut i: usize = 0;
    while i < nc
        invariant
            i <= nc,
            path_map_matches(childm@, multi_fold(Map::empty(), citems.take(i as int))),
        decreases nc - i,
    {
        let ghost g = i as int;
        let ghost cur = multi_fold(Map::empty(), citems.take(g));
        proof {
            lemma_child_items_at(*m, g);
            assert(citems.take(g + 1) =~= citems.take(g) + seq![citems[g]]);
            lemma_multi_fold_concat(Map::empty(), citems.take(g), seq![citems[g]]);
            lemma_multi_fold_single(cur, citems[g].0, citems[g].1);
        }
        let path = m.containers[i].get_full_path();
        let key = m.containers[i].system_id.clone();
        multi_map_push(&mut childm, &key, &path, Ghost(cur));
        i += 1;
    }

    let mut i: usize = 0;
    while i < nm
        invariant
            i <= nm,
            path_map_matches(childm@, multi_fold(Map::empty(), citems.take(nc + i as int))),
        decreases nm - i,
    {
        let ghost g = nc + i as int;
        let ghost cur = multi_fold(Map::empty(), citems.take(g));
        proof {
            lemma_child_items_at(*m, g);
            assert(citems.take(g + 1) =~= citems.take(g) + seq![citems[g]]);
            lemma_multi_fold_concat(Map::empty(), citems.take(g), seq![citems[g]]);
            lemma_multi_fold_single(cur, citems[g].0, citems[g].1);
        }
        let path = m.components[i].get_full_path();
        let key = m.components[i].get_parent_path();
        multi_map_push(&mut childm, &key, &path, Ghost(cur));
        i += 1;
    }

    proof {
        assert(citems.take((nc + nm) as int) =~= citems);
    }
    childm
}

/// Builds the outgoing and incoming relationship indices.
fn build_rel_indexes(m: &Model) -> (r: (
    vstd::hash_map::StringHashMap<Vec<usize>>,
    vstd::hash_map::StringHashMap<Vec<usize>>,
))
    ensures
        idx_map_matches(r.0@, spec_out_map(*m)),
        idx_map_matches(r.1@, spec_in_map(*m)),
{
    let ghost oitems = spec_out_items(*m);
    let ghost iitems = spec_in_items(*m);
    let mut outm: vstd::hash_map::StringHashMap<Vec<usize>> =
        vstd::hash_map::StringHashMap::new();
    let mut inm: vstd::hash_map::StringHashMap<Vec<usize>> =
        vstd::hash_map::StringHashMap::new();

    let nr = m.relationships.len();
    let mut i: usize = 0;
    while i < nr
        invariant
            i <= nr,
            idx_map_matches(outm@, multi_fold(Map::empty(), oitems.take(i as int))),
            idx_map_matches(inm@, multi_fold(Map::empty(), iitems.take(i as int))),
        decreases nr - i,
    {
        let ghost g = i as int;
        let ghost ocur = multi_fold(Map::empty(), oitems.take(g));
        let ghost icur = multi_fold(Map::empty(), iitems.take(g));
        proof {
            assert(oitems.take(g + 1) =~= oitems.take(g) + seq![oitems[g]]);
            lemma_multi_fold_concat(Map::empty(), oitems.take(g), seq![oitems[g]]);
            lemma_multi_fold_single(ocur, oitems[g].0, oitems[g].1);
            assert(iitems.take(g + 1) =~= iitems.take(g) + seq![iitems[g]]);
            lemma_multi_fold_concat(Map::empty(), iitems.take(g), seq![iitems[g]]);
            lemma_multi_fold_single(icur, iitems[g].0, iitems[g].1);
        }
        let from = m.relationships[i].from.clone();
        let to = m.relationships[i].to.clone();
        rel_map_push(&mut outm, &from, i, Ghost(ocur));
        rel_map_push(&mut inm, &to, i, Ghost(icur));
        i += 1;
    }

    proof {
        assert(oitems.take(nr as int) =~= oitems);
        assert(iitems.take(nr as int) =~= iitems);
    }
    (outm, inm)
}

impl Model {
    /// Rebuilds every index from the flat collections.  Succeeds exactly when
    /// all full paths are distinct; otherwise reports the first path, in scan
    /// order, that repeats an earlier one, and leaves the model unchanged.
    pub fn build_indexes(&mut self) -> (r: Result<(), ModelError>)
        ensures
            r is Ok <==> spec_first_dup(spec_all_paths(*old(self))) is None,
            match r {
                Ok(()) => {
                    &&& final(self).persons == old(self).persons
                    &&& final(self).systems == old(self).systems
                    &&& final(self).containers == old(self).containers
                    &&& final(self).components == old(self).components
                    &&& final(self).relationships == old(self).relationships
                    &&& final(self).flows == old(self).flows
                    &&& final(self).deployments == old(self).deployments
                    &&& final(self).options == old(self).options
                    &&& final(self).inv()
                },
                Err(e) => {
                    &&& *final(self) == *old(self)
                    &&& e matches ModelError::DuplicateElement(p) && spec_first_dup(
                        spec_all_paths(*old(self)),
                    ) == Some(p@)
                },
            },
    {
        let ghost m = *self;
        let ghost paths = spec_all_paths(m);
        let ids = match build_id_index(self) {
            Ok(ids) => ids,
            Err(e) => {
                return Err(e);
            },
        };
        let tagm = build_tag_index(self);
        let childm = build_child_index(self);
        let (outm, inm) = build_rel_indexes(self);

        self.elements_by_id = ids;
        self.elements_by_tag = tagm;
        self.children_by_id = childm;
        self.outgoing_rels = outm;
        self.incoming_rels = inm;

        proof {
            assert(spec_all_paths(*self) == paths);
            assert(spec_tag_items(*self) == spec_tag_items(m));
            assert(spec_child_items(*self) == spec_child_items(m));
            assert(spec_out_items(*self) == spec_out_items(m));
            assert(spec_in_items(*self) == spec_in_items(m));
            assert forall|p: Seq<char>| self.elements_by_id@.contains_key(p) implies spec_has_path(
                *self,
                p,
            ) by {
                lemma_id_map_upto_dom(m, paths.len() as int, p);
            }
            assert forall|i0: int|
                0 <= i0 < spec_all_paths(*self).len() implies self.elements_by_id@.contains_key(
                #[trigger] spec_all_paths(*self)[i0],
            ) && self.elements_by_id@[spec_all_paths(*self)[i0]] == spec_entry_at(*self, i0) by {
                lemma_id_map_upto_at(m, paths.len() as int, i0);
            }
        }
        Ok(())
    }
}


/// `e` is the person stored at index `i`.
pub open spec fn ref_is_person(m: Model, e: ElemRef, i: int) -> bool {
    e matches ElemRef::Person(p) && *p == m.persons@[i]
}

/// `e` is the software system stored at index `i`.
pub open spec fn ref_is_system(m: Model, e: ElemRef, i: int) -> bool {
    e matches ElemRef::System(s) && *s == m.systems@[i]
}

/// `e` is the container stored at index `i`.
pub open spec fn ref_is_container(m: Model, e: ElemRef, i: int) -> bool {
    e matches ElemRef::Container(c) && *c == m.containers@[i]
}

/// `e` is the component stored at index `i`.
pub open spec fn ref_is_component(m: Model, e: ElemRef, i: int) -> bool {
    e matches ElemRef::Component(c) && *c == m.components@[i]
}

/// `e` is one of the elements stored in `m`'s collections.
pub open spec fn spec_elem_in_model(m: Model, e: ElemRef) -> bool {
    match e {
        ElemRef::Person(p) => exists|i: int| 0 <= i < m.persons@.len() && m.persons@[i] == *p,
        ElemRef::System(s) => exists|i: int| 0 <= i < m.systems@.len() && m.systems@[i] == *s,
        ElemRef::Container(c) => exists|i: int|
            0 <= i < m.containers@.len() && m.containers@[i] == *c,
        ElemRef::Component(c) => exists|i: int|
            0 <= i < m.components@.len() && m.components@[i] == *c,
    }
}

proof fn lemma_tag_pairs_val(items: Seq<(Seq<char>, Seq<Seq<char>>)>, j: int)
    requires
        0 <= j < spec_tag_pairs(items).len(),
    ensures
        exists|g: int| 0 <= g < items.len() && spec_tag_pairs(items)[j].1 == (#[trigger] items[g]).0,
    decreases items.len(),
{
    assert(items.len() > 0);
    let head = spec_tag_pairs_of(items[0].0, items[0].1);
    if j < head.len() {
        assert(spec_tag_pairs(items)[j] == head[j]);
        assert(spec_tag_pairs(items)[j].1 == items[0].0);
    } else {
        lemma_tag_pairs_val(items.drop_first(), j - head.len());
        let g0 = choose|g: int|
            0 <= g < items.drop_first().len() && spec_tag_pairs(items.drop_first())[j - head.len()].1
                == (#[trigger] items.drop_first()[g]).0;
        assert(spec_tag_pairs(items)[j] == spec_tag_pairs(items.drop_first())[j - head.len()]);
        assert(items[g0 + 1] == items.drop_first()[g0]);
    }
}

proof fn lemma_tag_map_paths(m: Model)
    ensures
        forall|k: Seq<char>, i: int|
            spec_tag_map(m).contains_key(k) && 0 <= i < spec_tag_map(m)[k].len()
                ==> spec_has_path(m, #[trigger] spec_tag_map(m)[k][i]),
{
    let items = spec_tag_items(m);
    let pairs = spec_tag_pairs(items);
    let pred = |k: Seq<char>, v: Seq<char>| spec_has_path(m, v);
    assert forall|j: int| 0 <= j < pairs.len() implies pred((#[trigger] pairs[j]).0, pairs[j].1) by {
        lemma_tag_pairs_val(items, j);
        let g = choose|g: int| 0 <= g < items.len() && pairs[j].1 == (#[trigger] items[g]).0;
        lemma_tag_items_at(m, g);
        lemma_all_paths_at(m, g);
        assert(spec_all_paths(m)[g] == pairs[j].1);
    }
    lemma_multi_fold_pred(Map::empty(), pairs, pred);
}

proof fn lemma_child_map_paths(m: Model)
    ensures
        forall|k: Seq<char>, i: int|
            spec_child_map(m).contains_key(k) && 0 <= i < spec_child_map(m)[k].len()
                ==> spec_has_path(m, #[trigger] spec_child_map(m)[k][i]),
{
    let items = spec_child_items(m);
    let pred = |k: Seq<char>, v: Seq<char>| spec_has_path(m, v);
    assert forall|j: int| 0 <= j < items.len() implies pred((#[trigger] items[j]).0, items[j].1) by {
        lemma_child_items_at(m, j);
        let np = m.persons@.len() as int;
        let ns = m.systems@.len() as int;
        let nc = m.containers@.len() as int;
        lemma_all_paths_at(m, np + ns + j);
        assert(spec_all_paths(m)[np + ns + j] == items[j].1);
    }
    lemma_multi_fold_pred(Map::empty(), items, pred);
}

proof fn lemma_rel_map_indices(m: Model)
    ensures
        forall|k: Seq<char>, i: int|
            spec_out_map(m).contains_key(k) && 0 <= i < spec_out_map(m)[k].len() ==> (
            #[trigger] spec_out_map(m)[k][i]) < m.relationships@.len(),
        forall|k: Seq<char>, i: int|
            spec_in_map(m).contains_key(k) && 0 <= i < spec_in_map(m)[k].len() ==> (
            #[trigger] spec_in_map(m)[k][i]) < m.relationships@.len(),
{
    let pred = |k: Seq<char>, v: usize| (v as int) < m.relationships@.len();
    lemma_multi_fold_pred(Map::empty(), spec_out_items(m), pred);
    lemma_multi_fold_pred(Map::empty(), spec_in_items(m), pred);
}

/// How many elements of `paths` equal `p`.
pub open spec fn spec_count_path(paths: Seq<Seq<char>>, p: Seq<char>) -> nat
    decreases paths.len(),
{
    if paths.len() == 0 {
        0
    } else {
        (if paths.last() == p {
            1nat
        } else {
            0nat
        }) + spec_count_path(paths.drop_last(), p)
    }
}

proof fn lemma_count_exists(paths: Seq<Seq<char>>, p: Seq<char>)
    ensures
        (spec_count_path(paths, p) >= 1) <==> (exists|i: int|
            0 <= i < paths.len() && paths[i] == p),
    decreases paths.len(),
{
    if paths.len() > 0 {
        lemma_count_exists(paths.drop_last(), p);
        if spec_count_path(paths, p) >= 1 {
            if paths.last() != p {
                let i = choose|i: int|
                    0 <= i < paths.drop_last().len() && paths.drop_last()[i] == p;
                assert(paths[i] == p);
            }
        }
        if exists|i: int| 0 <= i < paths.len() && paths[i] == p {
            let i = choose|i: int| 0 <= i < paths.len() && paths[i] == p;
            if i < paths.len() - 1 {
                assert(paths.drop_last()[i] == p);
            }
        }
    }
}

proof fn lemma_count_unique(paths: Seq<Seq<char>>, p: Seq<char>)
    requires
        forall|i: int, j: int| 0 <= i < j < paths.len() ==> paths[i] != paths[j],
    ensures
        spec_count_path(paths, p) <= 1,
    decreases paths.len(),
{
    if paths.len() > 0 {
        assert(forall|i: int, j: int|
            0 <= i < j < paths.drop_last().len() ==> paths.drop_last()[i] != paths.drop_last()[j]);
        lemma_count_unique(paths.drop_last(), p);
        if paths.last() == p {
            lemma_count_exists(paths.drop_last(), p);
            if spec_count_path(paths.drop_last(), p) >= 1 {
                let i = choose|i: int|
                    0 <= i < paths.drop_last().len() && paths.drop_last()[i] == p;
                assert(paths[i] == paths[paths.len() - 1]);
            }
        }
    }
}

/// In an indexed model a path is resolvable exactly when exactly one element
/// bears it: `get_element` answers for a path if and only if the path occurs
/// exactly once over persons, systems, containers and components.
pub proof fn lemma_path_occurs_once(m: Model, p: Seq<char>)
    requires
        m.inv(),
    ensures
        spec_has_path(m, p) <==> spec_count_path(spec_all_paths(m), p) == 1,
{
    lemma_count_exists(spec_all_paths(m), p);
    lemma_count_unique(spec_all_paths(m), p);
}

impl Model {
    /// Looks up an element by full path.  Answers exactly when some element
    /// of the model bears the path, and then returns that element.
    pub fn get_element<'a>(&'a self, path: &str) -> (r: Option<ElemRef<'a>>)
        requires
            self.inv(),
        ensures
            match r {
                Some(e) => {
                    &&& spec_has_path(*self, path@)
                    &&& e.spec_path() == path@
                    &&& spec_elem_in_model(*self, e)
                },
                None => !spec_has_path(*self, path@),
            },
    {
        match self.elements_by_id.get(path) {
            None => {
                proof {
                    if spec_has_path(*self, path@) {
                        let i = choose|i: int|
                            0 <= i < spec_all_paths(*self).len() && spec_all_paths(*self)[i]
                                == path@;
                        assert(self.elements_by_id@.contains_key(spec_all_paths(*self)[i]));
                    }
                }
                None
            },
            Some(pair) => {
                let t = pair.0;
                let idx = pair.1;
                proof {
                    assert(self.elements_by_id@.contains_key(path@));
                    assert(spec_has_path(*self, path@));
                }
                let ghost i = choose|i: int|
                    0 <= i < spec_all_paths(*self).len() && spec_all_paths(*self)[i] == path@;
                proof {
                    assert(self.elements_by_id@[spec_all_paths(*self)[i]] == spec_entry_at(
                        *self,
                        i,
                    ));
                    lemma_all_paths_at(*self, i);
                    assert((t, idx) == spec_entry_at(*self, i));
                }
                let ghost np = self.persons@.len() as int;
                let ghost ns = self.systems@.len() as int;
                let ghost nc = self.containers@.len() as int;
                proof {
                    assert(self.persons.len() == self.persons@.len());
                    assert(self.systems.len() == self.systems@.len());
                    assert(self.containers.len() == self.containers@.len());
                    assert(self.components.len() == self.components@.len());
                }
                match t {
                    ElementType::Person => {
                        proof {
                            assert(i < np && idx == i);
                            assert(spec_all_paths(*self)[i] == spec_person_path(
                                self.persons@[i],
                            ));
                        }
                        Some(ElemRef::Person(&self.persons[idx]))
                    },
                    ElementType::System => {
                        proof {
                            assert(np <= i < np + ns && idx == i - np);
                            assert(spec_all_paths(*self)[i] == spec_system_path(
                                self.systems@[i - np],
                            ));
                        }
                        Some(ElemRef::System(&self.systems[idx]))
                    },
                    ElementType::Container => {
                        proof {
                            assert(np + ns <= i < np + ns + nc && idx == i - np - ns);
                            assert(spec_all_paths(*self)[i] == spec_container_path(
                                self.containers@[i - np - ns],
                            ));
                        }
                        Some(ElemRef::Container(&self.containers[idx]))
                    },
                    ElementType::Component => {
                        proof {
                            assert(np + ns + nc <= i && idx == i - np - ns - nc);
                            assert(spec_all_paths(*self)[i] == spec_component_path(
                                self.components@[i - np - ns - nc],
                            ));
                        }
                        Some(ElemRef::Component(&self.components[idx]))
                    },
                }
            },
        }
    }

    /// All elements of one kind, in declaration order.
    pub fn get_elements_by_type<'a>(&'a self, t: ElementType) -> (r: Vec<ElemRef<'a>>)
        ensures
            match t {
                ElementType::Person => r@.len() == self.persons@.len() && forall|i: int|
                    0 <= i < r@.len() ==> ref_is_person(*self, #[trigger] r@[i], i),
                ElementType::System => r@.len() == self.systems@.len() && forall|i: int|
                    0 <= i < r@.len() ==> ref_is_system(*self, #[trigger] r@[i], i),
                ElementType::Container => r@.len() == self.containers@.len() && forall|i: int|
                    0 <= i < r@.len() ==> ref_is_container(*self, #[trigger] r@[i], i),
                ElementType::Component => r@.len() == self.components@.len() && forall|i: int|
                    0 <= i < r@.len() ==> ref_is_component(*self, #[trigger] r@[i], i),
            },
    {
        let mut out: Vec<ElemRef<'a>> = Vec::new();
        match t {
            ElementType::Person => {
                let mut i: usize = 0;
                while i < self.persons.len()
                    invariant
                        i <= self.persons@.len(),
                        out@.len() == i,
                        forall|j: int| 0 <= j < i ==> ref_is_person(*self, #[trigger] out@[j], j),
                    decreases self.persons@.len() - i,
                {
                    out.push(ElemRef::Person(&self.persons[i]));
                    i += 1;
                }
            },
            ElementType::System => {
                let mut i: usize = 0;
                while i < self.systems.len()
                    invariant
                        i <= self.systems@.len(),
                        out@.len() == i,
                        forall|j: int| 0 <= j < i ==> ref_is_system(*self, #[trigger] out@[j], j),
                    decreases self.systems@.len() - i,
                {
                    out.push(ElemRef::System(&self.systems[i]));
                    i += 1;
                }
            },
            ElementType::Container => {
                let mut i: usize = 0;
                while i < self.containers.len()
                    invariant
                        i <= self.containers@.len(),
                        out@.len() == i,
                        forall|j: int| 0 <= j < i ==> ref_is_container(*self, #[trigger] out@[j], j),
                    decreases self.containers@.len() - i,
                {
                    out.push(ElemRef::Container(&self.containers[i]));
                    i += 1;
                }
            },
            ElementType::Component => {
                let mut i: usize = 0;
                while i < self.components.len()
                    invariant
                        i <= self.components@.len(),
                        out@.len() == i,
                        forall|j: int| 0 <= j < i ==> ref_is_component(*self, #[trigger] out@[j], j),
                    decreases self.components@.len() - i,
                {
                    out.push(ElemRef::Component(&self.components[i]));
                    i += 1;
                }
            },
        }
        out
    }

    /// All elements carrying the tag, by full path in scan order; empty for
    /// an unknown tag.
    pub fn get_elements_by_tag<'a>(&'a self, tag: &str) -> (r: Vec<ElemRef<'a>>)
        requires
            self.inv(),
        ensures
            spec_tag_map(*self).contains_key(tag@) ==> {
                let ps = spec_tag_map(*self)[tag@];
                &&& r@.len() == ps.len()
                &&& forall|i: int|
                    0 <= i < r@.len() ==> (#[trigger] r@[i]).spec_path() == ps[i]
                        && spec_elem_in_model(*self, r@[i])
            },
            !spec_tag_map(*self).contains_key(tag@) ==> r@.len() == 0,
    {
        let mut out: Vec<ElemRef<'a>> = Vec::new();
        match self.elements_by_tag.get(tag) {
            None => out,
            Some(ps) => {
                proof {
                    lemma_tag_map_paths(*self);
                }
                let ghost tm = spec_tag_map(*self)[tag@];
                let mut i: usize = 0;
                while i < ps.len()
                    invariant
                        i <= ps@.len(),
                        ps.deep_view() == tm,
                        out@.len() == i,
                        forall|j: int|
                            0 <= j < i ==> (#[trigger] out@[j]).spec_path() == tm[j]
                                && spec_elem_in_model(*self, out@[j]),
                    decreases ps@.len() - i,
                {
                    proof {
                        assert(ps@[i as int]@ == tm[i as int]);
                    }
                    match self.get_element(ps[i].as_str()) {
                        Some(e) => {
                            out.push(e);
                        },
                        None => {
                            proof {
                                assert(false);
                            }
                        },
                    }
                    i += 1;
                }
                out
            },
        }
    }

    /// The children of the element at `path`: its containers for a system,
    /// its components for a container; empty otherwise.
    pub fn get_children<'a>(&'a self, path: &str) -> (r: Vec<ElemRef<'a>>)
        requires
            self.inv(),
        ensures
            spec_child_map(*self).contains_key(path@) ==> {
                let ps = spec_child_map(*self)[path@];
                &&& r@.len() == ps.len()
                &&& forall|i: int|
                    0 <= i < r@.len() ==> (#[trigger] r@[i]).spec_path() == ps[i]
                        && spec_elem_in_model(*self, r@[i])
            },
            !spec_child_map(*self).contains_key(path@) ==> r@.len() == 0,
    {
        let mut out: Vec<ElemRef<'a>> = Vec::new();
        match self.children_by_id.get(path) {
            None => out,
            Some(ps) => {
                proof {
                    lemma_child_map_paths(*self);
                }
                let ghost cm = spec_child_map(*self)[path@];
                let mut i: usize = 0;
                while i < ps.len()
                    invariant
                        i <= ps@.len(),
                        ps.deep_view() == cm,
                        out@.len() == i,
                        forall|j: int|
                            0 <= j < i ==> (#[trigger] out@[j]).spec_path() == cm[j]
                                && spec_elem_in_model(*self, out@[j]),
                    decreases ps@.len() - i,
                {
                    proof {
                        assert(ps@[i as int]@ == cm[i as int]);
                    }
                    match self.get_element(ps[i].as_str()) {
                        Some(e) => {
                            out.push(e);
                        },
                        None => {
                            proof {
                                assert(false);
                            }
                        },
                    }
                    i += 1;
                }
                out
            },
        }
    }

    /// The relationships leaving the element at `path`, in declaration order.
    pub fn get_outgoing_relationships<'a>(&'a self, path: &str) -> (r: Vec<&'a Relationship>)
        requires
            self.inv(),
        ensures
            spec_out_map(*self).contains_key(path@) ==> {
                let ix = spec_out_map(*self)[path@];
                &&& r@.len() == ix.len()
                &&& forall|i: int|
                    0 <= i < r@.len() ==> *(#[trigger] r@[i]) == self.relationships@[ix[i] as int]
            },
            !spec_out_map(*self).contains_key(path@) ==> r@.len() == 0,
    {
        let mut out: Vec<&'a Relationship> = Vec::new();
        match self.outgoing_rels.get(path) {
            None => out,
            Some(ix) => {
                proof {
                    lemma_rel_map_indices(*self);
                }
                let ghost im = spec_out_map(*self)[path@];
                let mut i: usize = 0;
                while i < ix.len()
                    invariant
                        i <= ix@.len(),
                        ix@ == im,
                        out@.len() == i,
                        forall|j: int|
                            0 <= j < i ==> *(#[trigger] out@[j])
                                == self.relationships@[im[j] as int],
                    decreases ix@.len() - i,
                {
                    out.push(&self.relationships[ix[i]]);
                    i += 1;
                }
                out
            },
        }
    }

    /// The relationships arriving at the element at `path`, in declaration
    /// order.
    pub fn get_incoming_relationships<'a>(&'a self, path: &str) -> (r: Vec<&'a Relationship>)
        requires
            self.inv(),
        ensures
            spec_in_map(*self).contains_key(path@) ==> {
                let ix = spec_in_map(*self)[path@];
                &&& r@.len() == ix.len()
                &&& forall|i: int|
                    0 <= i < r@.len() ==> *(#[trigger] r@[i]) == self.relationships@[ix[i] as int]
            },
            !spec_in_map(*self).contains_key(path@) ==> r@.len() == 0,
    {
        let mut out: Vec<&'a Relationship> = Vec::new();
        match self.incoming_rels.get(path) {
            None => out,
            Some(ix) => {
                proof {
                    lemma_rel_map_indices(*self);
                }
                let ghost im = spec_in_map(*self)[path@];
                let mut i: usize = 0;
                while i < ix.len()
                    invariant
                        i <= ix@.len(),
                        ix@ == im,
                        out@.len() == i,
                        forall|j: int|
                            0 <= j < i ==> *(#[trigger] out@[j])
                                == self.relationships@[im[j] as int],
                    decreases ix@.len() - i,
                {
                    out.push(&self.relationships[ix[i]]);
                    i += 1;
                }
                out
            },
        }
    }

    /// All addressable elements, in scan order: persons, systems, containers,
    /// then components.
    pub fn all_elements<'a>(&'a self) -> (r: Vec<ElemRef<'a>>)
        ensures
            r@.len() == self.persons@.len() + self.systems@.len() + self.containers@.len()
                + self.components@.len(),
            forall|i: int|
                0 <= i < self.persons@.len() ==> ref_is_person(*self, #[trigger] r@[i], i),
            forall|i: int|
                self.persons@.len() <= i < self.persons@.len() + self.systems@.len()
                    ==> ref_is_system(*self, #[trigger] r@[i], i - self.persons@.len()),
            forall|i: int|
                self.persons@.len() + self.systems@.len() <= i < self.persons@.len()
                    + self.systems@.len() + self.containers@.len() ==> ref_is_container(
                    *self,
                    #[trigger] r@[i],
                    i - self.persons@.len() - self.systems@.len(),
                ),
            forall|i: int|
                self.persons@.len() + self.systems@.len() + self.containers@.len() <= i < r@.len()
                    ==> ref_is_component(
                    *self,
                    #[trigger] r@[i],
                    i - self.persons@.len() - self.systems@.len() - self.containers@.len(),
                ),
    {
        let mut out: Vec<ElemRef<'a>> = Vec::new();
        let mut i: usize = 0;
        while i < self.persons.len()
            invariant
                i <= self.persons@.len(),
                out@.len() == i,
                forall|j: int| 0 <= j < i ==> ref_is_person(*self, #[trigger] out@[j], j),
            decreases self.persons@.len() - i,
        {
            out.push(ElemRef::Person(&self.persons[i]));
            i += 1;
        }
        let np = self.persons.len();
        let mut i: usize = 0;
        while i < self.systems.len()
            invariant
                i <= self.systems@.len(),
                out@.len() == np + i,
                forall|j: int| 0 <= j < np ==> ref_is_person(*self, #[trigger] out@[j], j),
                forall|j: int|
                    np <= j < np + i ==> ref_is_system(*self, #[trigger] out@[j], j - np),
            decreases self.systems@.len() - i,
        {
            out.push(ElemRef::System(&self.systems[i]));
            i += 1;
        }
        let ns = self.systems.len();
        let mut i: usize = 0;
        while i < self.containers.len()
            invariant
                i <= self.containers@.len(),
                out@.len() == np + ns + i,
                forall|j: int| 0 <= j < np ==> ref_is_person(*self, #[trigger] out@[j], j),
                forall|j: int|
                    np <= j < np + ns ==> ref_is_system(*self, #[trigger] out@[j], j - np),
                forall|j: int|
                    np + ns <= j < np + ns + i ==> ref_is_container(
                        *self,
                        #[trigger] out@[j],
                        j - np - ns,
                    ),
            decreases self.containers@.len() - i,
        {
            out.push(ElemRef::Container(&self.containers[i]));
            i += 1;
        }
        let nc = self.containers.len();
        let mut i: usize = 0;
        while i < self.components.len()
            invariant
                i <= self.components@.len(),
                out@.len() == np + ns + nc + i,
                forall|j: int| 0 <= j < np ==> ref_is_person(*self, #[trigger] out@[j], j),
                forall|j: int|
                    np <= j < np + ns ==> ref_is_system(*self, #[trigger] out@[j], j - np),
                forall|j: int|
                    np + ns <= j < np + ns + nc ==> ref_is_container(
                        *self,
                        #[trigger] out@[j],
                        j - np - ns,
                    ),
                forall|j: int|
                    np + ns + nc <= j < np + ns + nc + i ==> ref_is_component(
                        *self,
                        #[trigger] out@[j],
                        j - np - ns - nc,
                    ),
            decreases self.components@.len() - i,
        {
            out.push(ElemRef::Component(&self.components[i]));
            i += 1;
        }
        out
    }

    /// Collections are plain vectors and are always present; kept for
    /// interface parity with serializers that distinguish empty from absent.
    pub fn ensure_non_nil_slices(&mut self)
        ensures
            *final(self) == *old(self),
    {
    }
}

} // verus!
