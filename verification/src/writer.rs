//! Structure-preserving edits to fragment documents.  The writer locates the
//! file that declares an element by re-walking the manifest's include
//! patterns, then merges field updates into exactly that element's mapping
//! in the untyped document tree, leaving every other node unchanged.

use vstd::prelude::*;
use vstd::pervasive::VecAdditionalExecFns;
use vstd::string::StringExecFns;
use crate::codec::{data_file_from_yaml, dec_data_file, dup_entries};
use crate::parser::spec_invalid_fragment_msg;
use crate::file::{DataFile, DataFileV, SourceFile};
use crate::parser::Parser;
use crate::strutil::{push_quoted, str_eq};
use crate::types::ElementType;
use crate::yaml::{
    dict_get, entry_views, lemma_entry_views, lemma_key_index, spec_dict_get, spec_key_index,
    Yaml, YamlView,
};

verus! {

/// What went wrong during a single-element edit.
#[derive(Debug)]
pub enum WriterError {
    /// The parser has no manifest loaded.
    NotInitialized,
    /// A file named by the include patterns could not be read or decoded;
    /// carries its message.
    UnusableFile(String),
    /// No included file declares the element.
    ElementNotFound(String),
    /// The target document's root is not a mapping.
    NotMapping,
    /// The target document has no sequence under the kind's collection key.
    CollectionNotFound(String),
    /// The collection holds no mapping with the element's id.
    NotInTree(String),
}

pub open spec fn spec_writer_error_msg(e: WriterError) -> Seq<char> {
    match e {
        WriterError::NotInitialized => "parser not initialized"@,
        WriterError::UnusableFile(m) => m@,
        WriterError::ElementNotFound(id) => "element "@ + id@ + " not found in any file"@,
        WriterError::NotMapping => "expected mapping at root"@,
        WriterError::CollectionNotFound(k) => "collection "@ + k@ + " not found"@,
        WriterError::NotInTree(id) => "element "@ + id@ + " not found in AST"@,
    }
}

impl WriterError {
    /// The human-readable form of the error.
    pub fn message(&self) -> (r: String)
        ensures
            r@ == spec_writer_error_msg(*self),
    {
        match self {
            WriterError::NotInitialized => String::from_str("parser not initialized"),
            WriterError::UnusableFile(m) => m.clone(),
            WriterError::ElementNotFound(id) => {
                let mut s = String::from_str("element ");
                s.append(id.as_str());
                s.append(" not found in any file");
                proof {
                    assert(s@ =~= spec_writer_error_msg(*self));
                }
                s
            },
            WriterError::NotMapping => String::from_str("expected mapping at root"),
            WriterError::CollectionNotFound(k) => {
                let mut s = String::from_str("collection ");
                s.append(k.as_str());
                s.append(" not found");
                proof {
                    assert(s@ =~= spec_writer_error_msg(*self));
                }
                s
            },
            WriterError::NotInTree(id) => {
                let mut s = String::from_str("element ");
                s.append(id.as_str());
                s.append(" not found in AST");
                proof {
                    assert(s@ =~= spec_writer_error_msg(*self));
                }
                s
            },
        }
    }
}

/// The collection key that holds elements of the given kind.
pub open spec fn spec_collection_key(t: ElementType) -> Seq<char> {
    match t {
        ElementType::Person => "persons"@,
        ElementType::System => "systems"@,
        ElementType::Container => "containers"@,
        ElementType::Component => "components"@,
    }
}

fn collection_key(t: ElementType) -> (r: &'static str)
    ensures
        r@ == spec_collection_key(t),
{
    match t {
        ElementType::Person => "persons",
        ElementType::System => "systems",
        ElementType::Container => "containers",
        ElementType::Component => "components",
    }
}

/// The fragment declares an element of kind `t` with the given bare id.
pub open spec fn spec_contains(df: DataFileV, id: Seq<char>, t: ElementType) -> bool {
    match t {
        ElementType::Person => exists|i: int|
            0 <= i < df.persons.len() && (#[trigger] df.persons[i]).base.id == id,
        ElementType::System => exists|i: int|
            0 <= i < df.systems.len() && (#[trigger] df.systems[i]).base.id == id,
        ElementType::Container => exists|i: int|
            0 <= i < df.containers.len() && (#[trigger] df.containers[i]).base.id == id,
        ElementType::Component => exists|i: int|
            0 <= i < df.components.len() && (#[trigger] df.components[i]).base.id == id,
    }
}

/// Membership test by bare id in the collection matching the kind.
pub fn contains_element(df: &DataFile, element_id: &str, element_type: ElementType) -> (r: bool)
    ensures
        r == spec_contains(df@, element_id@, element_type),
{
    match element_type {
        ElementType::Person => {
            let mut i: usize = 0;
            while i < df.persons.len()
                invariant
                    i <= df.persons@.len(),
                    forall|j: int| 0 <= j < i ==> (#[trigger] df.persons@[j])@.base.id != element_id@,
                decreases df.persons@.len() - i,
            {
                if str_eq(df.persons[i].base.id.as_str(), element_id) {
                    proof {
                        assert(df@.persons[i as int].base.id == element_id@);
                    }
                    return true;
                }
                i += 1;
            }
            proof {
                assert forall|j: int|
                    0 <= j < df@.persons.len() implies (#[trigger] df@.persons[j]).base.id
                    != element_id@ by {
                    assert(df@.persons[j] == (df.persons@[j])@);
                }
            }
            false
        },
        ElementType::System => {
            let mut i: usize = 0;
            while i < df.systems.len()
                invariant
                    i <= df.systems@.len(),
                    forall|j: int| 0 <= j < i ==> (#[trigger] df.systems@[j])@.base.id != element_id@,
                decreases df.systems@.len() - i,
            {
                if str_eq(df.systems[i].base.id.as_str(), element_id) {
                    proof {
                        assert(df@.systems[i as int].base.id == element_id@);
                    }
                    return true;
                }
                i += 1;
            }
            proof {
                assert forall|j: int|
                    0 <= j < df@.systems.len() implies (#[trigger] df@.systems[j]).base.id
                    != element_id@ by {
                    assert(df@.systems[j] == (df.systems@[j])@);
                }
            }
            false
        },
        ElementType::Container => {
            let mut i: usize = 0;
            while i < df.containers.len()
                invariant
                    i <= df.containers@.len(),
                    forall|j: int|
                        0 <= j < i ==> (#[trigger] df.containers@[j])@.base.id != element_id@,
                decreases df.containers@.len() - i,
            {
                if str_eq(df.containers[i].base.id.as_str(), element_id) {
                    proof {
                        assert(df@.containers[i as int].base.id == element_id@);
                    }
                    return true;
                }
                i += 1;
            }
            proof {
                assert forall|j: int|
                    0 <= j < df@.containers.len() implies (#[trigger] df@.containers[j]).base.id
                    != element_id@ by {
                    assert(df@.containers[j] == (df.containers@[j])@);
                }
            }
            false
        },
        ElementType::Component => {
            let mut i: usize = 0;
            while i < df.components.len()
                invariant
                    i <= df.components@.len(),
                    forall|j: int|
                        0 <= j < i ==> (#[trigger] df.components@[j])@.base.id != element_id@,
                decreases df.components@.len() - i,
            {
                if str_eq(df.components[i].base.id.as_str(), element_id) {
                    proof {
                        assert(df@.components[i as int].base.id == element_id@);
                    }
                    return true;
                }
                i += 1;
            }
            proof {
                assert forall|j: int|
                    0 <= j < df@.components.len() implies (#[trigger] df@.components[j]).base.id
                    != element_id@ by {
                    assert(df@.components[j] == (df.components@[j])@);
                }
            }
            false
        },
    }
}

/// The document node is a mapping whose `id` key holds exactly this id.
pub open spec fn spec_is_target(v: YamlView, id: Seq<char>) -> bool {
    v matches YamlView::Dict(d) && spec_dict_get(d, "id"@) == Some(YamlView::Str(id))
}

/// Identifies the element to edit inside a collection sequence.
pub fn is_target_element(node: &Yaml, element_id: &str) -> (r: bool)
    ensures
        r == spec_is_target(node@, element_id@),
{
    match node {
        Yaml::Dict(entries) => {
            match dict_get(entries, "id") {
                Some(Yaml::Str(s)) => str_eq(s.as_str(), element_id),
                _ => false,
            }
        },
        _ => false,
    }
}

/// One field written into an entry list: an existing key keeps its position
/// and takes the new value; a new key is appended at the end.
pub open spec fn spec_set_key(
    es: Seq<(Seq<char>, YamlView)>,
    k: Seq<char>,
    v: YamlView,
) -> Seq<(Seq<char>, YamlView)> {
    let i = spec_key_index(es, k);
    if i < 0 {
        es.push((k, v))
    } else {
        es.update(i, (k, v))
    }
}

/// The first `t` updates merged into an entry list, in order.
pub open spec fn spec_merge(
    es: Seq<(Seq<char>, YamlView)>,
    ups: Seq<(Seq<char>, YamlView)>,
    t: int,
) -> Seq<(Seq<char>, YamlView)>
    decreases t,
{
    if t <= 0 {
        es
    } else {
        spec_set_key(spec_merge(es, ups, t - 1), ups[t - 1].0, ups[t - 1].1)
    }
}

fn key_index(entries: &Vec<(String, Yaml)>, key: &str) -> (r: Option<usize>)
    ensures
        match r {
            Some(i) => spec_key_index(entry_views(entries@), key@) == i as int && i
                < entries@.len(),
            None => spec_key_index(entry_views(entries@), key@) < 0,
        },
{
    let ghost evs = entry_views(entries@);
    proof {
        lemma_entry_views(entries@);
    }
    let mut i: usize = 0;
    while i < entries.len()
        invariant
            i <= entries@.len(),
            evs == entry_views(entries@),
            evs.len() == entries@.len(),
            forall|i0: int|
                0 <= i0 < entries@.len() ==> #[trigger] evs[i0] == (entries@[i0].0@,
                crate::yaml::yaml_view(entries@[i0].1)),
            forall|j: int| 0 <= j < i ==> (#[trigger] evs[j]).0 != key@,
        decreases entries@.len() - i,
    {
        if str_eq(entries[i].0.as_str(), key) {
            proof {
                lemma_key_index(evs, key@);
                let k = spec_key_index(evs, key@);
                assert(evs[i as int].0 == key@);
                if k < i {
                    assert(evs[k].0 != key@);
                }
                if k > i || k < 0 {
                    assert(evs[i as int].0 != key@);
                }
            }
            return Some(i);
        }
        i += 1;
    }
    proof {
        lemma_key_index(evs, key@);
        if spec_key_index(evs, key@) >= 0 {
            let k = spec_key_index(evs, key@);
            assert(evs[k].0 != key@);
        }
    }
    None
}

/// Merges field updates into one element's mapping: existing keys keep their
/// place and take the new values, new keys are appended in update order, and
/// everything else is untouched.
pub fn update_element_node(node: &Vec<(String, Yaml)>, updates: &Vec<(String, Yaml)>) -> (r: Vec<
    (String, Yaml),
>)
    ensures
        entry_views(r@) == spec_merge(
            entry_views(node@),
            entry_views(updates@),
            updates@.len() as int,
        ),
{
    let ghost base = entry_views(node@);
    let ghost ups = entry_views(updates@);
    proof {
        lemma_entry_views(updates@);
    }
    let mut out = dup_entries(node);
    let mut t: usize = 0;
    while t < updates.len()
        invariant
            t <= updates@.len(),
            ups == entry_views(updates@),
            ups.len() == updates@.len(),
            forall|i0: int|
                0 <= i0 < updates@.len() ==> #[trigger] ups[i0] == (updates@[i0].0@,
                crate::yaml::yaml_view(updates@[i0].1)),
            entry_views(out@) == spec_merge(base, ups, t as int),
        decreases updates@.len() - t,
    {
        let key = &updates[t].0;
        let val = updates[t].1.duplicate();
        let ghost cur = entry_views(out@);
        let ghost prev = out@;
        proof {
            lemma_entry_views(out@);
            assert(val@ == ups[t as int].1);
        }
        match key_index(&out, key.as_str()) {
            Some(i) => {
                let nk = key.clone();
                proof {
                    assert(nk@ == key@);
                }
                out.set(i, (nk, val));
                proof {
                    lemma_entry_views(out@);
                    assert forall|j: int|
                        0 <= j < out@.len() implies #[trigger] entry_views(out@)[j] == cur.update(
                        i as int,
                        (key@, ups[t as int].1),
                    )[j] by {
                        if j != i {
                            assert(out@[j] == prev[j]);
                            assert(entry_views(prev)[j] == (prev[j].0@, crate::yaml::yaml_view(
                                prev[j].1,
                            )));
                        } else {
                            assert(out@[j].0@ == key@);
                            assert(out@[j].1@ == ups[t as int].1);
                        }
                    }
                    assert(entry_views(out@) =~= cur.update(i as int, (key@, ups[t as int].1)));
                }
            },
            None => {
                let nk = key.clone();
                proof {
                    assert(nk@ == key@);
                }
                out.push((nk, val));
                proof {
                    lemma_entry_views(out@);
                    assert forall|j: int|
                        0 <= j < out@.len() implies #[trigger] entry_views(out@)[j] == cur.push(
                        (key@, ups[t as int].1),
                    )[j] by {
                        if j < prev.len() {
                            assert(out@[j] == prev[j]);
                            assert(entry_views(prev)[j] == (prev[j].0@, crate::yaml::yaml_view(
                                prev[j].1,
                            )));
                        } else {
                            assert(out@[j].0@ == key@);
                            assert(out@[j].1@ == ups[t as int].1);
                        }
                    }
                    assert(entry_views(out@) =~= cur.push((key@, ups[t as int].1)));
                }
            },
        }
        proof {
            assert(entry_views(out@) =~= spec_merge(base, ups, t + 1));
        }
        t += 1;
    }
    out
}


/// The outcome of locating the file that declares an element: the first
/// included file whose matching collection holds the id; or the message of
/// the first file that could not be used; or nothing.
pub enum FindOutcome {
    Found(Seq<char>),
    Unusable(Seq<char>),
    Missing,
}

/// Scans the included files from position `k` in include order.
pub open spec fn spec_find_file(
    files: Seq<SourceFile>,
    id: Seq<char>,
    t: ElementType,
    k: int,
) -> FindOutcome
    decreases files.len() - k,
{
    if k < 0 || k >= files.len() {
        FindOutcome::Missing
    } else {
        match files[k].doc {
            Err(m) => FindOutcome::Unusable(m@),
            Ok(d) => match dec_data_file(d@) {
                None => FindOutcome::Unusable(spec_invalid_fragment_msg(files[k].path@)),
                Some(df) => if spec_contains(df, id, t) {
                    FindOutcome::Found(files[k].path@)
                } else {
                    spec_find_file(files, id, t, k + 1)
                },
            },
        }
    }
}

/// The outcome of a single-element edit on a document tree.
pub enum UpdateOutcome {
    Updated(YamlView),
    NoMapping,
    NoCollection,
    NoElement,
}

/// Index of the first collection item that is the edit's target, scanning
/// from `k`; -1 when none is.
pub open spec fn spec_target_index(items: Seq<YamlView>, id: Seq<char>, k: int) -> int
    decreases items.len() - k,
{
    if k < 0 || k >= items.len() {
        -1
    } else if spec_is_target(items[k], id) {
        k
    } else {
        spec_target_index(items, id, k + 1)
    }
}

/// The edited document: the root must be a mapping holding a sequence under
/// the kind's collection key; the first item carrying the id takes the
/// merged fields; every other node stays exactly as it was.
pub open spec fn spec_update_doc(
    root: YamlView,
    id: Seq<char>,
    t: ElementType,
    ups: Seq<(Seq<char>, YamlView)>,
) -> UpdateOutcome {
    match root {
        YamlView::Dict(es) => {
            let key = spec_collection_key(t);
            match spec_dict_get(es, key) {
                Some(YamlView::List(items)) => {
                    let j = spec_target_index(items, id, 0);
                    if j < 0 {
                        UpdateOutcome::NoElement
                    } else {
                        let d = items[j]->Dict_0;
                        let merged = YamlView::Dict(spec_merge(d, ups, ups.len() as int));
                        let ci = spec_key_index(es, key);
                        UpdateOutcome::Updated(
                            YamlView::Dict(
                                es.update(ci, (es[ci].0, YamlView::List(items.update(j, merged)))),
                            ),
                        )
                    }
                },
                _ => UpdateOutcome::NoCollection,
            }
        },
        _ => UpdateOutcome::NoMapping,
    }
}

/// Edits fragment files in place on behalf of an embedding caller, reusing
/// the loader's manifest and file expansion.
pub struct Writer<'a> {
    pub parser: &'a Parser,
}

impl<'a> Writer<'a> {
    /// A writer over the given loader's manifest.
    pub fn new(parser: &'a Parser) -> (r: Writer<'a>)
        ensures
            r.parser == parser,
    {
        Writer { parser }
    }

    /// The first file, in include order, whose matching collection declares
    /// the element; fails when the manifest was never loaded, when a file
    /// cannot be used, or when no file declares the element.
    pub fn find_element_file(
        &self,
        files: &Vec<SourceFile>,
        element_id: &str,
        element_type: ElementType,
    ) -> (r: Result<String, WriterError>)
        ensures
            self.parser.mod_file is None ==> r matches Err(WriterError::NotInitialized),
            self.parser.mod_file is Some ==> match spec_find_file(
                files@,
                element_id@,
                element_type,
                0,
            ) {
                FindOutcome::Found(p) => r matches Ok(s) && s@ == p,
                FindOutcome::Unusable(m) => r matches Err(WriterError::UnusableFile(msg)) && msg@
                    == m,
                FindOutcome::Missing => r matches Err(WriterError::ElementNotFound(id)) && id@
                    == element_id@,
            },
    {
        match self.parser.get_mod_file() {
            None => {
                return Err(WriterError::NotInitialized);
            },
            Some(_) => {},
        }
        let n = files.len();
        let mut i: usize = 0;
        while i < n
            invariant
                i <= n,
                n == files@.len(),
                spec_find_file(files@, element_id@, element_type, 0) == spec_find_file(
                    files@,
                    element_id@,
                    element_type,
                    i as int,
                ),
            decreases n - i,
        {
            let f = &files[i];
            proof {
                assert(*f == files@[i as int]);
            }
            match &f.doc {
                Err(m) => {
                    return Err(WriterError::UnusableFile(m.clone()));
                },
                Ok(d) => {
                    match data_file_from_yaml(d) {
                        None => {
                            let mut msg = String::from_str("Invalid YAML in data file: ");
                            push_quoted(&mut msg, f.path.as_str());
                            proof {
                                assert(msg@ =~= spec_invalid_fragment_msg(f.path@));
                            }
                            return Err(WriterError::UnusableFile(msg));
                        },
                        Some(df) => {
                            if contains_element(&df, element_id, element_type) {
                                return Ok(f.path.clone());
                            }
                        },
                    }
                },
            }
            i += 1;
        }
        Err(WriterError::ElementNotFound(String::from_str(element_id)))
    }

    /// Applies field updates to the one element with the given id and kind
    /// inside an untyped fragment document, and returns the edited document;
    /// every node but the target element's mapping is unchanged.
    pub fn update_in_ast(
        &self,
        root: &Yaml,
        element_id: &str,
        element_type: ElementType,
        updates: &Vec<(String, Yaml)>,
    ) -> (r: Result<Yaml, WriterError>)
        ensures
            match r {
                Ok(doc) => spec_update_doc(
                    root@,
                    element_id@,
                    element_type,
                    entry_views(updates@),
                ) == UpdateOutcome::Updated(doc@),
                Err(e) => match e {
                    WriterError::NotMapping => spec_update_doc(
                        root@,
                        element_id@,
                        element_type,
                        entry_views(updates@),
                    ) is NoMapping,
                    WriterError::CollectionNotFound(k) => spec_update_doc(
                        root@,
                        element_id@,
                        element_type,
                        entry_views(updates@),
                    ) is NoCollection && k@ == spec_collection_key(element_type),
                    WriterError::NotInTree(id) => spec_update_doc(
                        root@,
                        element_id@,
                        element_type,
                        entry_views(updates@),
                    ) is NoElement && id@ == element_id@,
                    _ => false,
                },
            },
    {
        let key = collection_key(element_type);
        match root {
            Yaml::Dict(entries) => {
                let ghost es = entry_views(entries@);
                proof {
                    lemma_entry_views(entries@);
                }
                let ci = match key_index(entries, key) {
                    Some(ci) => ci,
                    None => {
                        return Err(WriterError::CollectionNotFound(String::from_str(key)));
                    },
                };
                proof {
                    lemma_key_index(es, key@);
                    assert(spec_dict_get(es, key@) == Some(es[ci as int].1));
                    assert(es[ci as int].1 == (entries@[ci as int].1)@);
                }
                match &entries[ci].1 {
                    Yaml::List(items) => {
                        let ghost iv = crate::yaml::yaml_views(items@);
                        proof {
                            crate::yaml::lemma_yaml_views(items@);
                        }
                        let n = items.len();
                        let mut j: usize = 0;
                        let mut target: Option<usize> = None;
                        while j < n
                            invariant
                                j <= n,
                                n == items@.len(),
                                iv.len() == items@.len(),
                                forall|q: int|
                                    0 <= q < items@.len() ==> iv[q] == crate::yaml::yaml_view(
                                        #[trigger] items@[q],
                                    ),
                                target is None,
                                spec_target_index(iv, element_id@, 0) == spec_target_index(
                                    iv,
                                    element_id@,
                                    j as int,
                                ),
                            decreases n - j,
                        {
                            if is_target_element(&items[j], element_id) {
                                target = Some(j);
                                break ;
                            }
                            j += 1;
                        }
                        let tj = match target {
                            Some(tj) => tj,
                            None => {
                                proof {
                                    assert(spec_target_index(iv, element_id@, 0) == -1);
                                }
                                return Err(
                                    WriterError::NotInTree(String::from_str(element_id)),
                                );
                            },
                        };
                        proof {
                            assert(spec_is_target(iv[tj as int], element_id@));
                            assert(spec_target_index(iv, element_id@, 0) == tj as int);
                        }
                        let mut new_items: Vec<Yaml> = Vec::new();
                        let ghost merged = YamlView::Dict(
                            spec_merge(
                                iv[tj as int]->Dict_0,
                                entry_views(updates@),
                                updates@.len() as int,
                            ),
                        );
                        let mut q: usize = 0;
                        while q < n
                            invariant
                                q <= n,
                                n == items@.len(),
                                iv.len() == items@.len(),
                                tj < n,
                                spec_is_target(iv[tj as int], element_id@),
                                forall|w: int|
                                    0 <= w < items@.len() ==> iv[w] == crate::yaml::yaml_view(
                                        #[trigger] items@[w],
                                    ),
                                new_items@.len() == q,
                                forall|w: int|
                                    0 <= w < q ==> (#[trigger] new_items@[w])@ == iv.update(
                                        tj as int,
                                        merged,
                                    )[w],
                            decreases n - q,
                        {
                            if q == tj {
                                match &items[q] {
                                    Yaml::Dict(d) => {
                                        let nd = update_element_node(d, updates);
                                        new_items.push(Yaml::Dict(nd));
                                    },
                                    _ => {
                                        proof {
                                            assert(false);
                                        }
                                        return Err(WriterError::NotMapping);
                                    },
                                }
                            } else {
                                new_items.push(items[q].duplicate());
                            }
                            q += 1;
                        }
                        let ghost niv = new_items@;
                        let new_list = Yaml::List(new_items);
                        proof {
                            crate::yaml::lemma_yaml_views(niv);
                            assert forall|w: int|
                                0 <= w < niv.len() implies #[trigger] crate::yaml::yaml_views(
                                niv,
                            )[w] == iv.update(tj as int, merged)[w] by {
                                assert((niv[w])@ == iv.update(tj as int, merged)[w]);
                            }
                            assert(crate::yaml::yaml_views(niv) =~= iv.update(tj as int, merged));
                            assert(new_list@ == YamlView::List(
                                crate::yaml::yaml_views(niv),
                            ));
                        }
                        let mut new_entries = dup_entries(entries);
                        proof {
                            lemma_entry_views(new_entries@);
                            lemma_entry_views(entries@);
                            assert(new_entries@.len() == entries@.len());
                        }
                        let nk = entries[ci].0.clone();
                        let ghost dup_v = new_entries@;
                        new_entries.set(ci, (nk, new_list));
                        proof {
                            lemma_entry_views(new_entries@);
                            lemma_entry_views(dup_v);
                            assert forall|w: int|
                                0 <= w < new_entries@.len() implies #[trigger] entry_views(
                                new_entries@,
                            )[w] == es.update(
                                ci as int,
                                (es[ci as int].0, YamlView::List(iv.update(tj as int, merged))),
                            )[w] by {
                                if w != ci {
                                    assert(new_entries@[w] == dup_v[w]);
                                    assert(entry_views(new_entries@)[w] == entry_views(dup_v)[w]);
                                    assert(entry_views(dup_v)[w] == es[w]);
                                } else {
                                    assert(new_entries@[w].0@ == entries@[ci as int].0@);
                                    assert(new_entries@[w].1@ == YamlView::List(
                                        iv.update(tj as int, merged),
                                    ));
                                }
                            }
                            assert(entry_views(new_entries@) =~= es.update(
                                ci as int,
                                (es[ci as int].0, YamlView::List(iv.update(tj as int, merged))),
                            ));
                            lemma_entry_views(updates@);
                            assert(entry_views(updates@).len() == updates@.len());
                            assert(iv[tj as int]->Dict_0 == spec_dict_get(es, key@).unwrap()->List_0[tj as int]->Dict_0);
                            assert(spec_update_doc(
                                root@,
                                element_id@,
                                element_type,
                                entry_views(updates@),
                            ) == UpdateOutcome::Updated(
                                YamlView::Dict(entry_views(new_entries@)),
                            ));
                        }
                        Ok(Yaml::Dict(new_entries))
                    },
                    _ => {
                        proof {
                            assert(spec_dict_get(es, key@) is Some);
                        }
                        Err(WriterError::CollectionNotFound(String::from_str(key)))
                    },
                }
            },
            _ => Err(WriterError::NotMapping),
        }
    }
}

} // verus!
