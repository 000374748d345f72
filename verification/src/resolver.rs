//! Reference validation over a built model.  Every relationship endpoint,
//! flow step endpoint, deployment container instance, container parent and
//! component parent is checked against the path index; all findings are
//! collected into one order-stable list, never cut short.  Unresolved
//! references get a suggestion when some element's bare id shares a prefix of
//! at least two characters with the last path segment of the reference.

use vstd::prelude::*;
use vstd::string::StrSliceExecFns;
use vstd::string::StringExecFns;
use crate::model::{spec_has_path, ElemRef, Model};
use crate::strutil::{
    i64_to_string, lemma_split_nonempty, spec_digits, spec_int_str, spec_quoted, spec_split,
    split_char, str_eq, usize_to_string,
};
use crate::types::{
    spec_component_parent, spec_component_path, spec_container_path, spec_person_path,
    spec_system_path, Component, Container, ContainerInstance, Deployment, DeploymentNode, Flow,
    FlowStep, Person, Relationship, SoftwareSystem,
};

verus! {

/// One finding of the resolver: where it was found (`path`), and what is
/// wrong (`message`).  `line` and `file` are carried for callers that can
/// attribute findings to source positions; the resolver itself leaves them
/// empty.
#[derive(Debug)]
pub struct ValidationError {
    pub path: String,
    pub message: String,
    pub line: usize,
    pub file: String,
}

/// The display form: `file:line: path: message`, shortened to
/// `path: message` when no file is known.
pub open spec fn spec_error_display(e: ValidationError) -> Seq<char> {
    if e.file@.len() > 0 {
        e.file@ + seq![':'] + spec_digits(e.line as int) + seq![':', ' '] + e.path@ + seq![
            ':',
            ' ',
        ] + e.message@
    } else {
        e.path@ + seq![':', ' '] + e.message@
    }
}

impl ValidationError {
    /// Renders the finding for people, as `file:line: path: message` or
    /// `path: message`.
    pub fn display(&self) -> (r: String)
        ensures
            r@ == spec_error_display(*self),
    {
        if self.file.as_str().unicode_len() > 0 {
            let mut s = self.file.clone();
            s.append(":");
            let line = usize_to_string(self.line);
            s.append(line.as_str());
            s.append(": ");
            s.append(self.path.as_str());
            s.append(": ");
            s.append(self.message.as_str());
            proof {
                reveal_strlit(":");
                reveal_strlit(": ");
                assert(s@ =~= spec_error_display(*self));
            }
            s
        } else {
            let mut s = self.path.clone();
            s.append(": ");
            s.append(self.message.as_str());
            proof {
                reveal_strlit(": ");
                assert(s@ =~= spec_error_display(*self));
            }
            s
        }
    }
}

/// Length of the longest common prefix of `a` and `b`.
pub open spec fn spec_common_prefix_len(a: Seq<char>, b: Seq<char>) -> int
    decreases a.len(),
{
    if a.len() == 0 || b.len() == 0 || a[0] != b[0] {
        0
    } else {
        1 + spec_common_prefix_len(a.drop_first(), b.drop_first())
    }
}

proof fn lemma_cpl_at(a: Seq<char>, b: Seq<char>, i: int)
    requires
        0 <= i <= a.len(),
        i <= b.len(),
        forall|k: int| 0 <= k < i ==> a[k] == b[k],
        i == a.len() || i == b.len() || a[i] != b[i],
    ensures
        spec_common_prefix_len(a, b) == i,
    decreases i,
{
    if i == 0 {
    } else {
        lemma_cpl_at(a.drop_first(), b.drop_first(), i - 1);
    }
}

/// Number of leading characters the two strings share.
pub fn common_prefix_len(a: &str, b: &str) -> (r: usize)
    ensures
        r as int == spec_common_prefix_len(a@, b@),
{
    let alen = a.unicode_len();
    let blen = b.unicode_len();
    let max_len = if alen < blen {
        alen
    } else {
        blen
    };
    let mut i: usize = 0;
    while i < max_len
        invariant
            i <= max_len,
            max_len <= a@.len() && max_len <= b@.len(),
            forall|k: int| 0 <= k < i ==> a@[k] == b@[k],
        decreases max_len - i,
    {
        if a.get_char(i) != b.get_char(i) {
            proof {
                lemma_cpl_at(a@, b@, i as int);
            }
            return i;
        }
        i += 1;
    }
    proof {
        lemma_cpl_at(a@, b@, max_len as int);
    }
    max_len
}

/// `(bare id, full path)` of every element, in scan order.
pub open spec fn spec_id_path_items(m: Model) -> Seq<(Seq<char>, Seq<char>)> {
    m.persons@.map_values(|p: Person| (p.base.id@, spec_person_path(p)))
        + m.systems@.map_values(|s: SoftwareSystem| (s.base.id@, spec_system_path(s)))
        + m.containers@.map_values(|c: Container| (c.base.id@, spec_container_path(c)))
        + m.components@.map_values(|c: Component| (c.base.id@, spec_component_path(c)))
}

proof fn lemma_id_path_items_at(m: Model, g: int)
    requires
        0 <= g < m.persons@.len() + m.systems@.len() + m.containers@.len() + m.components@.len(),
    ensures
        spec_id_path_items(m).len() == m.persons@.len() + m.systems@.len() + m.containers@.len()
            + m.components@.len(),
        g < m.persons@.len() ==> spec_id_path_items(m)[g] == (
            m.persons@[g].base.id@,
            spec_person_path(m.persons@[g]),
        ),
        m.persons@.len() <= g < m.persons@.len() + m.systems@.len() ==> spec_id_path_items(m)[g]
            == (
            m.systems@[g - m.persons@.len()].base.id@,
            spec_system_path(m.systems@[g - m.persons@.len()]),
        ),
        m.persons@.len() + m.systems@.len() <= g < m.persons@.len() + m.systems@.len()
            + m.containers@.len() ==> spec_id_path_items(m)[g] == (
            m.containers@[g - m.persons@.len() - m.systems@.len()].base.id@,
            spec_container_path(m.containers@[g - m.persons@.len() - m.systems@.len()]),
        ),
        m.persons@.len() + m.systems@.len() + m.containers@.len() <= g ==> spec_id_path_items(m)[g]
            == (
            m.components@[g - m.persons@.len() - m.systems@.len() - m.containers@.len()].base.id@,
            spec_component_path(
                m.components@[g - m.persons@.len() - m.systems@.len() - m.containers@.len()],
            ),
        ),
{
    let pp = m.persons@.map_values(|p: Person| (p.base.id@, spec_person_path(p)));
    let sp = m.systems@.map_values(|s: SoftwareSystem| (s.base.id@, spec_system_path(s)));
    let cp = m.containers@.map_values(|c: Container| (c.base.id@, spec_container_path(c)));
    let mp = m.components@.map_values(|c: Component| (c.base.id@, spec_component_path(c)));
    assert(spec_id_path_items(m) == pp + sp + cp + mp);
    if g < pp.len() {
        assert(spec_id_path_items(m)[g] == pp[g]);
    } else if g < pp.len() + sp.len() {
        assert(spec_id_path_items(m)[g] == sp[g - pp.len()]);
    } else if g < pp.len() + sp.len() + cp.len() {
        assert(spec_id_path_items(m)[g] == cp[g - pp.len() - sp.len()]);
    } else {
        assert(spec_id_path_items(m)[g] == mp[g - pp.len() - sp.len() - cp.len()]);
    }
}

/// The best suggestion, continued from scan position `k` with the best
/// finding so far.  A candidate replaces the current best only when its
/// common-prefix score is strictly greater and at least two, so the earliest
/// of equally good candidates wins.
pub open spec fn spec_best_from(
    items: Seq<(Seq<char>, Seq<char>)>,
    k: int,
    best_score: int,
    best: Option<Seq<char>>,
    last: Seq<char>,
) -> Option<Seq<char>>
    decreases items.len() - k,
{
    if k < 0 || k >= items.len() {
        best
    } else {
        let sc = spec_common_prefix_len(last, items[k].0);
        if sc > best_score && sc >= 2 {
            spec_best_from(items, k + 1, sc, Some(items[k].1), last)
        } else {
            spec_best_from(items, k + 1, best_score, best, last)
        }
    }
}

/// The last `.`-separated segment of `r`.
pub open spec fn spec_last_segment(r: Seq<char>) -> Seq<char> {
    spec_split(r, '.').last()
}

/// The suggestion offered for an unresolved reference: the full path of the
/// element whose bare id shares the longest prefix (at least two characters)
/// with the reference's last path segment; ties go to scan order.
pub open spec fn spec_find_similar(m: Model, r: Seq<char>) -> Option<Seq<char>> {
    spec_best_from(spec_id_path_items(m), 0, 0, None, spec_last_segment(r))
}

/// The `(path, message)` findings for one reference check.
pub open spec fn spec_ref_errors(m: Model, r: Seq<char>, ctx: Seq<char>) -> Seq<
    (Seq<char>, Seq<char>),
> {
    if r.len() == 0 {
        seq![(ctx, "empty reference"@)]
    } else if spec_has_path(m, r) {
        Seq::empty()
    } else {
        let msg = match spec_find_similar(m, r) {
            Some(sugg) => "unresolved reference "@ + spec_quoted(r) + " (did you mean "@
                + spec_quoted(sugg) + "?)"@,
            None => "unresolved reference "@ + spec_quoted(r),
        };
        seq![(ctx, msg)]
    }
}

/// Findings for the first `k` relationships.
pub open spec fn spec_rel_errors(m: Model, k: int) -> Seq<(Seq<char>, Seq<char>)>
    decreases k,
{
    if k <= 0 {
        Seq::empty()
    } else {
        let r = m.relationships@[k - 1];
        spec_rel_errors(m, k - 1) + spec_ref_errors(
            m,
            r.from@,
            "relationship.from("@ + r.from@ + ")"@,
        ) + spec_ref_errors(m, r.to@, "relationship.to("@ + r.to@ + ")"@)
    }
}

/// Findings for one flow step.
pub open spec fn spec_step_errors(m: Model, flow_id: Seq<char>, s: FlowStep) -> Seq<
    (Seq<char>, Seq<char>),
> {
    let base = "flow."@ + flow_id + ".step."@ + spec_int_str(s.seq as int);
    spec_ref_errors(m, s.from@, base + ".from"@) + spec_ref_errors(m, s.to@, base + ".to"@)
}

/// Findings for the first `t` steps of one flow.
pub open spec fn spec_flow_steps_errors(m: Model, f: Flow, t: int) -> Seq<(Seq<char>, Seq<char>)>
    decreases t,
{
    if t <= 0 {
        Seq::empty()
    } else {
        spec_flow_steps_errors(m, f, t - 1) + spec_step_errors(m, f.id@, f.steps@[t - 1])
    }
}

/// Findings for the first `k` flows.
pub open spec fn spec_flow_errors(m: Model, k: int) -> Seq<(Seq<char>, Seq<char>)>
    decreases k,
{
    if k <= 0 {
        Seq::empty()
    } else {
        spec_flow_errors(m, k - 1) + spec_flow_steps_errors(
            m,
            m.flows@[k - 1],
            m.flows@[k - 1].steps@.len() as int,
        )
    }
}

/// Findings for the first `k` container instances of one deployment node.
pub open spec fn spec_insts_errors(
    m: Model,
    insts: Seq<ContainerInstance>,
    dep_id: Seq<char>,
    node_id: Seq<char>,
    k: int,
) -> Seq<(Seq<char>, Seq<char>)>
    decreases k,
{
    if k <= 0 {
        Seq::empty()
    } else {
        let ctx = "deployment."@ + dep_id + ".node."@ + node_id + ".instance"@;
        spec_insts_errors(m, insts, dep_id, node_id, k - 1) + spec_ref_errors(
            m,
            insts[k - 1].container@,
            ctx,
        )
    }
}

/// Findings for one deployment node and, recursively, its children.
pub open spec fn spec_node_errors(m: Model, node: DeploymentNode, dep_id: Seq<char>) -> Seq<
    (Seq<char>, Seq<char>),
>
    decreases node, 1int, 0int,
{
    (match node.instances {
        Some(insts) => spec_insts_errors(m, insts@, dep_id, node.id@, insts@.len() as int),
        None => Seq::empty(),
    }) + (match node.children {
        Some(children) => {
            proof {
                assert(decreases_to!(node => node.children));
                assert(decreases_to!(node.children => children));
                assert(decreases_to!(children => children@));
            }
            spec_nodes_errors(m, children@, dep_id, children@.len() as int)
        },
        None => Seq::empty(),
    })
}

/// Findings for the first `k` nodes of a deployment node list, in order.
pub open spec fn spec_nodes_errors(
    m: Model,
    nodes: Seq<DeploymentNode>,
    dep_id: Seq<char>,
    k: int,
) -> Seq<(Seq<char>, Seq<char>)>
    decreases nodes, 0int, k,
{
    if k <= 0 || k > nodes.len() {
        Seq::empty()
    } else {
        proof {
            assert(decreases_to!(nodes => nodes[k - 1]));
        }
        spec_nodes_errors(m, nodes, dep_id, k - 1) + spec_node_errors(m, nodes[k - 1], dep_id)
    }
}

/// Findings for the first `k` deployments.
pub open spec fn spec_dep_errors(m: Model, k: int) -> Seq<(Seq<char>, Seq<char>)>
    decreases k,
{
    if k <= 0 {
        Seq::empty()
    } else {
        let d = m.deployments@[k - 1];
        spec_dep_errors(m, k - 1) + (match d.nodes {
            Some(nodes) => spec_nodes_errors(m, nodes@, d.id@, nodes@.len() as int),
            None => Seq::empty(),
        })
    }
}

/// Findings for the first `k` containers' parent references.
pub open spec fn spec_container_parent_errors(m: Model, k: int) -> Seq<(Seq<char>, Seq<char>)>
    decreases k,
{
    if k <= 0 {
        Seq::empty()
    } else {
        let c = m.containers@[k - 1];
        spec_container_parent_errors(m, k - 1) + (if spec_has_path(m, c.system_id@) {
            Seq::<(Seq<char>, Seq<char>)>::empty()
        } else {
            seq![
                (
                    spec_container_path(c),
                    "container references unknown system "@ + spec_quoted(c.system_id@),
                ),
            ]
        })
    }
}

/// Findings for the first `k` components' parent references.
pub open spec fn spec_component_parent_errors(m: Model, k: int) -> Seq<(Seq<char>, Seq<char>)>
    decreases k,
{
    if k <= 0 {
        Seq::empty()
    } else {
        let c = m.components@[k - 1];
        spec_component_parent_errors(m, k - 1) + (if spec_has_path(m, spec_component_parent(c)) {
            Seq::<(Seq<char>, Seq<char>)>::empty()
        } else {
            seq![
                (
                    spec_component_path(c),
                    "component references unknown container "@ + spec_quoted(
                        spec_component_parent(c),
                    ),
                ),
            ]
        })
    }
}

/// Every finding of a full resolution pass, in order: relationships, flow
/// steps, deployments, container parents, component parents.
pub open spec fn spec_resolve_errors(m: Model) -> Seq<(Seq<char>, Seq<char>)> {
    spec_rel_errors(m, m.relationships@.len() as int) + spec_flow_errors(
        m,
        m.flows@.len() as int,
    ) + spec_dep_errors(m, m.deployments@.len() as int) + spec_container_parent_errors(
        m,
        m.containers@.len() as int,
    ) + spec_component_parent_errors(m, m.components@.len() as int)
}

/// The findings list `es` carries exactly the `(path, message)` pairs of
/// `expected`, in order, without source positions.
pub open spec fn errors_match(es: Seq<ValidationError>, expected: Seq<(Seq<char>, Seq<char>)>) -> bool {
    &&& es.len() == expected.len()
    &&& forall|i: int|
        0 <= i < es.len() ==> (#[trigger] es[i]).path@ == expected[i].0 && es[i].message@
            == expected[i].1 && es[i].line == 0 && es[i].file@ == Seq::<char>::empty()
}

fn mk_error(path: String, message: String) -> (r: ValidationError)
    ensures
        r.path == path,
        r.message == message,
        r.line == 0,
        r.file@ == Seq::<char>::empty(),
{
    ValidationError { path, message, line: 0, file: String::new() }
}

/// Walks a built model and collects every unresolved or empty reference.
pub struct Resolver<'a> {
    pub model: &'a Model,
}

impl<'a> Resolver<'a> {
    /// The model the resolver reads.
    pub open spec fn spec_model(self) -> Model {
        *self.model
    }

    /// Makes a resolver for one model.
    pub fn new(model: &'a Model) -> (r: Resolver<'a>)
        ensures
            r.spec_model() == *model,
    {
        Resolver { model }
    }

    /// The suggestion for an unresolved reference, per the longest shared
    /// prefix between the reference's last segment and the elements' ids.
    pub fn find_similar(&self, reference: &str) -> (r: Option<String>)
        ensures
            match r {
                Some(s) => spec_find_similar(self.spec_model(), reference@) == Some(s@),
                None => spec_find_similar(self.spec_model(), reference@) is None,
            },
    {
        let ghost m = *self.model;
        let parts = split_char(reference, '.');
        proof {
            lemma_split_nonempty(reference@, '.');
            assert(parts.deep_view().last() == parts@[parts@.len() - 1]@);
        }
        let last = &parts[parts.len() - 1];
        let ghost lastv = spec_last_segment(reference@);
        let elements = self.model.all_elements();
        let ghost items = spec_id_path_items(m);
        proof {
            if elements@.len() > 0 {
                lemma_id_path_items_at(m, 0);
            } else {
                assert(items =~= Seq::<(Seq<char>, Seq<char>)>::empty());
            }
        }
        let mut best: Option<String> = None;
        let mut best_score: usize = 0;
        let ghost bestv = Option::<Seq<char>>::None;
        let n = elements.len();
        let mut k: usize = 0;
        while k < n
            invariant
                k <= n,
                n == items.len(),
                lastv == last@,
                match best {
                    Some(b) => bestv == Some(b@),
                    None => bestv is None,
                },
                spec_best_from(items, 0, 0, None, lastv) == spec_best_from(
                    items,
                    k as int,
                    best_score as int,
                    bestv,
                    lastv,
                ),
            decreases n - k,
        {
            proof {
                lemma_id_path_items_at(m, k as int);
                let e = elements@[k as int];
                let np = m.persons@.len() as int;
                let ns = m.systems@.len() as int;
                let nc = m.containers@.len() as int;
                if k < np {
                    assert(crate::model::ref_is_person(m, e, k as int));
                } else if k < np + ns {
                    assert(crate::model::ref_is_system(m, e, k - np));
                } else if k < np + ns + nc {
                    assert(crate::model::ref_is_container(m, e, k - np - ns));
                } else {
                    assert(crate::model::ref_is_component(m, e, k - np - ns - nc));
                }
                assert(e.spec_id() == items[k as int].0);
                assert(e.spec_path() == items[k as int].1);
            }
            let id = elements[k].get_id();
            let score = common_prefix_len(last.as_str(), id);
            if score > best_score && score >= 2 {
                best_score = score;
                best = Some(elements[k].get_full_path());
                proof {
                    bestv = Some(items[k as int].1);
                }
            }
            k += 1;
        }
        best
    }
}


/// `new_es` is `old_es` with findings for `expected` appended.
pub open spec fn errors_appended(
    old_es: Seq<ValidationError>,
    new_es: Seq<ValidationError>,
    expected: Seq<(Seq<char>, Seq<char>)>,
) -> bool {
    &&& new_es.len() == old_es.len() + expected.len()
    &&& forall|i: int| 0 <= i < old_es.len() ==> new_es[i] == old_es[i]
    &&& errors_match(new_es.skip(old_es.len() as int), expected)
}

proof fn lemma_match_append(
    old_es: Seq<ValidationError>,
    new_es: Seq<ValidationError>,
    a: Seq<(Seq<char>, Seq<char>)>,
    b: Seq<(Seq<char>, Seq<char>)>,
)
    requires
        errors_match(old_es, a),
        errors_appended(old_es, new_es, b),
    ensures
        errors_match(new_es, a + b),
{
    assert forall|i: int|
        0 <= i < new_es.len() implies (#[trigger] new_es[i]).path@ == (a + b)[i].0
        && new_es[i].message@ == (a + b)[i].1 && new_es[i].line == 0 && new_es[i].file@ == Seq::<
        char,
    >::empty() by {
        if i < old_es.len() {
            assert(new_es[i] == old_es[i]);
            assert((a + b)[i] == a[i]);
        } else {
            assert(new_es.skip(old_es.len() as int)[i - old_es.len()] == new_es[i]);
            assert((a + b)[i] == b[i - a.len()]);
        }
    }
}

proof fn lemma_appended_trans(
    base: Seq<ValidationError>,
    mid: Seq<ValidationError>,
    new_es: Seq<ValidationError>,
    a: Seq<(Seq<char>, Seq<char>)>,
    b: Seq<(Seq<char>, Seq<char>)>,
)
    requires
        errors_appended(base, mid, a),
        errors_appended(mid, new_es, b),
    ensures
        errors_appended(base, new_es, a + b),
{
    assert forall|i: int| 0 <= i < base.len() implies new_es[i] == base[i] by {
        assert(new_es[i] == mid[i]);
    }
    assert forall|i: int|
        0 <= i < a.len() + b.len() implies (#[trigger] new_es.skip(base.len() as int)[i]).path@
        == (a + b)[i].0 && new_es.skip(base.len() as int)[i].message@ == (a + b)[i].1
        && new_es.skip(base.len() as int)[i].line == 0 && new_es.skip(base.len() as int)[i].file@
        == Seq::<char>::empty() by {
        let suffix = new_es.skip(base.len() as int);
        assert(suffix[i] == new_es[base.len() + i]);
        if i < a.len() {
            assert(new_es[base.len() + i] == mid[base.len() + i]);
            assert(mid.skip(base.len() as int)[i] == mid[base.len() + i]);
            assert((a + b)[i] == a[i]);
        } else {
            assert(new_es.skip(mid.len() as int)[i - a.len()] == new_es[base.len() + i]);
            assert((a + b)[i] == b[i - a.len()]);
        }
    }
}

impl<'a> Resolver<'a> {
    /// Checks one reference: empty references and references that resolve to
    /// no element are reported under `context`.
    fn validate_ref(&self, reference: &str, context: &str, errors: &mut Vec<ValidationError>)
        requires
            (*self.model).inv(),
        ensures
            errors_appended(
                old(errors)@,
                final(errors)@,
                spec_ref_errors(*self.model, reference@, context@),
            ),
    {
        let ghost m = *self.model;
        let ghost expected = spec_ref_errors(m, reference@, context@);
        if reference.unicode_len() == 0 {
            errors.push(
                mk_error(String::from_str(context), String::from_str("empty reference")),
            );
            proof {
                assert(errors@.skip(old(errors)@.len() as int) =~= seq![
                    errors@[errors@.len() - 1],
                ]);
            }
        } else {
            match self.model.get_element(reference) {
                Some(_) => {
                    proof {
                        assert(expected =~= Seq::<(Seq<char>, Seq<char>)>::empty());
                        assert(errors@.skip(old(errors)@.len() as int) =~= Seq::<
                            ValidationError,
                        >::empty());
                    }
                },
                None => {
                    let mut msg = String::from_str("unresolved reference ");
                    msg.append("\"");
                    msg.append(reference);
                    msg.append("\"");
                    match self.find_similar(reference) {
                        Some(sugg) => {
                            msg.append(" (did you mean ");
                            msg.append("\"");
                            msg.append(sugg.as_str());
                            msg.append("\"");
                            msg.append("?)");
                        },
                        None => {},
                    }
                    proof {
                        reveal_strlit("\"");
                        assert("\""@ =~= seq!['"']);
                        match spec_find_similar(m, reference@) {
                            Some(sugg) => {
                                assert(msg@ =~= "unresolved reference "@ + spec_quoted(reference@)
                                    + " (did you mean "@ + spec_quoted(sugg) + "?)"@);
                            },
                            None => {
                                assert(msg@ =~= "unresolved reference "@ + spec_quoted(
                                    reference@,
                                ));
                            },
                        }
                    }
                    errors.push(mk_error(String::from_str(context), msg));
                    proof {
                        assert(errors@.skip(old(errors)@.len() as int) =~= seq![
                            errors@[errors@.len() - 1],
                        ]);
                    }
                },
            }
        }
    }

    /// Checks the container instances of `nodes` and all nested children,
    /// labelled with the deployment's and node's ids.
    fn validate_deployment_nodes(
        &self,
        nodes: &Vec<DeploymentNode>,
        dep_id: &str,
        errors: &mut Vec<ValidationError>,
    )
        requires
            (*self.model).inv(),
        ensures
            errors_appended(
                old(errors)@,
                final(errors)@,
                spec_nodes_errors(*self.model, nodes@, dep_id@, nodes@.len() as int),
            ),
        decreases nodes@,
    {
        let ghost m = *self.model;
        let ghost base = errors@;
        let mut i: usize = 0;
        while i < nodes.len()
            invariant
                i <= nodes@.len(),
                errors_appended(base, errors@, spec_nodes_errors(m, nodes@, dep_id@, i as int)),
            decreases nodes@.len() - i,
        {
            let ghost before = errors@;
            let ghost done = spec_nodes_errors(m, nodes@, dep_id@, i as int);
            let node = &nodes[i];
            let ghost node_expected = spec_node_errors(m, nodes@[i as int], dep_id@);

            // instance references of this node
            let ghost inst_part = match nodes@[i as int].instances {
                Some(insts) => spec_insts_errors(
                    m,
                    insts@,
                    dep_id@,
                    nodes@[i as int].id@,
                    insts@.len() as int,
                ),
                None => Seq::<(Seq<char>, Seq<char>)>::empty(),
            };
            match &node.instances {
                Some(insts) => {
                    let mut ctx = String::from_str("deployment.");
                    ctx.append(dep_id);
                    ctx.append(".node.");
                    ctx.append(node.id.as_str());
                    ctx.append(".instance");
                    proof {
                        assert(ctx@ =~= "deployment."@ + dep_id@ + ".node."@
                            + nodes@[i as int].id@ + ".instance"@);
                    }
                    let mut t: usize = 0;
                    while t < insts.len()
                        invariant
                            t <= insts@.len(),
                            errors_appended(
                                before,
                                errors@,
                                spec_insts_errors(
                                    m,
                                    insts@,
                                    dep_id@,
                                    nodes@[i as int].id@,
                                    t as int,
                                ),
                            ),
                        decreases insts@.len() - t,
                    {
                        let ghost mid = errors@;
                        let ghost part = spec_insts_errors(
                            m,
                            insts@,
                            dep_id@,
                            nodes@[i as int].id@,
                            t as int,
                        );
                        self.validate_ref(insts[t].container.as_str(), ctx.as_str(), errors);
                        proof {
                            lemma_appended_trans(
                                before,
                                mid,
                                errors@,
                                part,
                                spec_ref_errors(m, insts@[t as int].container@, ctx@),
                            );
                            assert(spec_insts_errors(
                                m,
                                insts@,
                                dep_id@,
                                nodes@[i as int].id@,
                                t + 1,
                            ) =~= part + spec_ref_errors(m, insts@[t as int].container@, ctx@));
                        }
                        t += 1;
                    }
                },
                None => {},
            }

            // children, recursively
            match &node.children {
                Some(children) => {
                    proof {
                        assert(decreases_to!(nodes@ => nodes@[i as int]));
                        assert(decreases_to!(nodes@[i as int] => nodes@[i as int].children));
                        assert(decreases_to!(nodes@[i as int].children => *children));
                        assert(decreases_to!(*children => children@));
                    }
                    let ghost mid = errors@;
                    proof {
                        assert(errors_appended(before, mid, inst_part));
                    }
                    self.validate_deployment_nodes(children, dep_id, errors);
                    proof {
                        lemma_appended_trans(
                            before,
                            mid,
                            errors@,
                            inst_part,
                            spec_nodes_errors(m, children@, dep_id@, children@.len() as int),
                        );
                        assert(node_expected =~= inst_part + spec_nodes_errors(
                            m,
                            children@,
                            dep_id@,
                            children@.len() as int,
                        ));
                    }
                },
                None => {
                    proof {
                        assert(node_expected =~= inst_part + Seq::<
                            (Seq<char>, Seq<char>),
                        >::empty());
                    }
                },
            }

            proof {
                assert(errors_appended(before, errors@, node_expected));
                lemma_appended_trans(base, before, errors@, done, node_expected);
                assert(spec_nodes_errors(m, nodes@, dep_id@, i + 1) =~= done + node_expected);
            }
            i += 1;
        }
    }

    /// Validates every reference of the model and returns the complete list
    /// of findings, in a stable order: relationship endpoints, flow step
    /// endpoints, deployment container instances, container parents,
    /// component parents.
    #[verifier::rlimit(100)]
    pub fn resolve(&mut self) -> (r: Vec<ValidationError>)
        requires
            (*old(self).model).inv(),
        ensures
            *final(self) == *old(self),
            errors_match(r@, spec_resolve_errors(*old(self).model)),
    {
        let ghost m = *self.model;
        let mut errors: Vec<ValidationError> = Vec::new();

        // relationship endpoints
        let nr = self.model.relationships.len();
        let mut i: usize = 0;
        while i < nr
            invariant
                i <= nr,
                errors_match(errors@, spec_rel_errors(m, i as int)),
            decreases nr - i,
        {
            let ghost done = spec_rel_errors(m, i as int);
            let rel = &self.model.relationships[i];
            let mut ctx_from = String::from_str("relationship.from(");
            ctx_from.append(rel.from.as_str());
            ctx_from.append(")");
            let mut ctx_to = String::from_str("relationship.to(");
            ctx_to.append(rel.to.as_str());
            ctx_to.append(")");
            proof {
                assert(ctx_from@ =~= "relationship.from("@ + m.relationships@[i as int].from@
                    + ")"@);
                assert(ctx_to@ =~= "relationship.to("@ + m.relationships@[i as int].to@ + ")"@);
            }
            let ghost before = errors@;
            self.validate_ref(rel.from.as_str(), ctx_from.as_str(), &mut errors);
            proof {
                lemma_match_append(
                    before,
                    errors@,
                    done,
                    spec_ref_errors(m, m.relationships@[i as int].from@, ctx_from@),
                );
            }
            let ghost mid = errors@;
            self.validate_ref(rel.to.as_str(), ctx_to.as_str(), &mut errors);
            proof {
                lemma_match_append(
                    mid,
                    errors@,
                    done + spec_ref_errors(m, m.relationships@[i as int].from@, ctx_from@),
                    spec_ref_errors(m, m.relationships@[i as int].to@, ctx_to@),
                );
            }
            i += 1;
        }
        let ghost rel_part = spec_rel_errors(m, nr as int);

        // flow step endpoints
        let nf = self.model.flows.len();
        let mut i: usize = 0;
        while i < nf
            invariant
                i <= nf,
                errors_match(errors@, rel_part + spec_flow_errors(m, i as int)),
            decreases nf - i,
        {
            let flow = &self.model.flows[i];
            let nsteps = flow.steps.len();
            let mut t: usize = 0;
            while t < nsteps
                invariant
                    t <= nsteps,
                    errors_match(
                        errors@,
                        rel_part + spec_flow_errors(m, i as int) + spec_flow_steps_errors(
                            m,
                            m.flows@[i as int],
                            t as int,
                        ),
                    ),
                decreases nsteps - t,
            {
                let ghost done = rel_part + spec_flow_errors(m, i as int)
                    + spec_flow_steps_errors(m, m.flows@[i as int], t as int);
                let step = &flow.steps[t];
                let mut base_ctx = String::from_str("flow.");
                base_ctx.append(flow.id.as_str());
                base_ctx.append(".step.");
                let seq_str = i64_to_string(step.seq as i64);
                base_ctx.append(seq_str.as_str());
                let mut ctx_from = base_ctx.clone();
                ctx_from.append(".from");
                let mut ctx_to = base_ctx;
                ctx_to.append(".to");
                let ghost sbase = "flow."@ + m.flows@[i as int].id@ + ".step."@ + spec_int_str(
                    m.flows@[i as int].steps@[t as int].seq as int,
                );
                proof {
                    assert(ctx_from@ =~= sbase + ".from"@);
                    assert(ctx_to@ =~= sbase + ".to"@);
                }
                let ghost before = errors@;
                self.validate_ref(step.from.as_str(), ctx_from.as_str(), &mut errors);
                proof {
                    lemma_match_append(
                        before,
                        errors@,
                        done,
                        spec_ref_errors(
                            m,
                            m.flows@[i as int].steps@[t as int].from@,
                            ctx_from@,
                        ),
                    );
                }
                let ghost mid = errors@;
                self.validate_ref(step.to.as_str(), ctx_to.as_str(), &mut errors);
                proof {
                    lemma_match_append(
                        mid,
                        errors@,
                        done + spec_ref_errors(
                            m,
                            m.flows@[i as int].steps@[t as int].from@,
                            ctx_from@,
                        ),
                        spec_ref_errors(m, m.flows@[i as int].steps@[t as int].to@, ctx_to@),
                    );
                    assert(spec_flow_steps_errors(m, m.flows@[i as int], t + 1)
                        =~= spec_flow_steps_errors(m, m.flows@[i as int], t as int)
                        + spec_ref_errors(
                        m,
                        m.flows@[i as int].steps@[t as int].from@,
                        ctx_from@,
                    ) + spec_ref_errors(m, m.flows@[i as int].steps@[t as int].to@, ctx_to@));
                    assert(rel_part + spec_flow_errors(m, i as int) + spec_flow_steps_errors(
                        m,
                        m.flows@[i as int],
                        t + 1,
                    ) =~= done + spec_ref_errors(
                        m,
                        m.flows@[i as int].steps@[t as int].from@,
                        ctx_from@,
                    ) + spec_ref_errors(m, m.flows@[i as int].steps@[t as int].to@, ctx_to@));
                }
                t += 1;
            }
            proof {
                assert(spec_flow_errors(m, i + 1) =~= spec_flow_errors(m, i as int)
                    + spec_flow_steps_errors(
                    m,
                    m.flows@[i as int],
                    m.flows@[i as int].steps@.len() as int,
                ));
            }
            i += 1;
        }
        let ghost flow_part = spec_flow_errors(m, nf as int);

        // deployment container instances
        let nd = self.model.deployments.len();
        let mut i: usize = 0;
        while i < nd
            invariant
                i <= nd,
                errors_match(errors@, rel_part + flow_part + spec_dep_errors(m, i as int)),
            decreases nd - i,
        {
            let ghost done = rel_part + flow_part + spec_dep_errors(m, i as int);
            let dep = &self.model.deployments[i];
            match &dep.nodes {
                Some(nodes) => {
                    let ghost before = errors@;
                    self.validate_deployment_nodes(
                        nodes,
                        dep.id.as_str(),
                        &mut errors,
                    );
                    proof {
                        lemma_match_append(
                            before,
                            errors@,
                            done,
                            spec_nodes_errors(
                                m,
                                nodes@,
                                m.deployments@[i as int].id@,
                                nodes@.len() as int,
                            ),
                        );
                    }
                },
                None => {
                    proof {
                        assert(spec_dep_errors(m, i + 1) =~= spec_dep_errors(m, i as int));
                    }
                },
            }
            i += 1;
        }
        let ghost dep_part = spec_dep_errors(m, nd as int);

        // container parents
        let ncont = self.model.containers.len();
        let mut i: usize = 0;
        while i < ncont
            invariant
                i <= ncont,
                errors_match(
                    errors@,
                    rel_part + flow_part + dep_part + spec_container_parent_errors(m, i as int),
                ),
            decreases ncont - i,
        {
            let ghost done = rel_part + flow_part + dep_part + spec_container_parent_errors(
                m,
                i as int,
            );
            let container = &self.model.containers[i];
            match self.model.get_element(container.system_id.as_str()) {
                Some(_) => {
                    proof {
                        assert(spec_container_parent_errors(m, i + 1)
                            =~= spec_container_parent_errors(m, i as int));
                    }
                },
                None => {
                    let path = container.get_full_path();
                    let mut msg = String::from_str("container references unknown system ");
                    msg.append("\"");
                    msg.append(container.system_id.as_str());
                    msg.append("\"");
                    proof {
                        reveal_strlit("\"");
                        assert("\""@ =~= seq!['"']);
                        assert(msg@ =~= "container references unknown system "@ + spec_quoted(
                            m.containers@[i as int].system_id@,
                        ));
                    }
                    let ghost before = errors@;
                    errors.push(mk_error(path, msg));
                    proof {
                        assert(errors@.skip(before.len() as int) =~= seq![
                            errors@[errors@.len() - 1],
                        ]);
                        lemma_match_append(
                            before,
                            errors@,
                            done,
                            seq![
                                (
                                    spec_container_path(m.containers@[i as int]),
                                    "container references unknown system "@ + spec_quoted(
                                        m.containers@[i as int].system_id@,
                                    ),
                                ),
                            ],
                        );
                        assert(spec_container_parent_errors(m, i + 1)
                            =~= spec_container_parent_errors(m, i as int) + seq![
                            (
                                spec_container_path(m.containers@[i as int]),
                                "container references unknown system "@ + spec_quoted(
                                    m.containers@[i as int].system_id@,
                                ),
                            ),
                        ]);
                    }
                },
            }
            i += 1;
        }
        let ghost cont_part = spec_container_parent_errors(m, ncont as int);

        // component parents
        let ncomp = self.model.components.len();
        let mut i: usize = 0;
        while i < ncomp
            invariant
                i <= ncomp,
                errors_match(
                    errors@,
                    rel_part + flow_part + dep_part + cont_part + spec_component_parent_errors(
                        m,
                        i as int,
                    ),
                ),
            decreases ncomp - i,
        {
            let ghost done = rel_part + flow_part + dep_part + cont_part
                + spec_component_parent_errors(m, i as int);
            let component = &self.model.components[i];
            let parent_path = component.get_parent_path();
            match self.model.get_element(parent_path.as_str()) {
                Some(_) => {
                    proof {
                        assert(spec_component_parent_errors(m, i + 1)
                            =~= spec_component_parent_errors(m, i as int));
                    }
                },
                None => {
                    let path = component.get_full_path();
                    let mut msg = String::from_str("component references unknown container ");
                    msg.append("\"");
                    msg.append(parent_path.as_str());
                    msg.append("\"");
                    proof {
                        reveal_strlit("\"");
                        assert("\""@ =~= seq!['"']);
                        assert(msg@ =~= "component references unknown container "@ + spec_quoted(
                            spec_component_parent(m.components@[i as int]),
                        ));
                    }
                    let ghost before = errors@;
                    errors.push(mk_error(path, msg));
                    proof {
                        assert(errors@.skip(before.len() as int) =~= seq![
                            errors@[errors@.len() - 1],
                        ]);
                        lemma_match_append(
                            before,
                            errors@,
                            done,
                            seq![
                                (
                                    spec_component_path(m.components@[i as int]),
                                    "component references unknown container "@ + spec_quoted(
                                        spec_component_parent(m.components@[i as int]),
                                    ),
                                ),
                            ],
                        );
                        assert(spec_component_parent_errors(m, i + 1)
                            =~= spec_component_parent_errors(m, i as int) + seq![
                            (
                                spec_component_path(m.components@[i as int]),
                                "component references unknown container "@ + spec_quoted(
                                    spec_component_parent(m.components@[i as int]),
                                ),
                            ),
                        ]);
                    }
                },
            }
            i += 1;
        }

        proof {
            assert(spec_resolve_errors(m) =~= rel_part + flow_part + dep_part + cont_part
                + spec_component_parent_errors(m, ncomp as int));
        }
        errors
    }
}


} // verus!
