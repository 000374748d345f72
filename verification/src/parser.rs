//! The loader: interprets the manifest, merges fragment documents into one
//! model, infers missing hierarchy context from each file's location, and
//! finishes the model with one index build.  Loading is all-or-nothing: any
//! fragment error fails the load as a whole, with every individual cause
//! kept retrievable.

use vstd::prelude::*;
use vstd::string::StrSliceExecFns;
use vstd::string::StringExecFns;
use crate::codec::{
    data_file_from_yaml, dec_data_file, dec_mod_file, mod_file_from_yaml,
};
use crate::file::{DataFileV, FileContext, ModFile, SourceFile};
use crate::model::{spec_all_paths, spec_first_dup, Model, ModelError};
use crate::strutil::{
    lemma_map_push, push_quoted, spec_quoted, spec_split, spec_starts_with, split_char, str_eq,
    str_starts_with, spec_digits, usize_to_string,
};
use crate::types::{
    ComponentV, ContainerV, ElementType, PersonV, SystemV, Component, Container, Person,
    SoftwareSystem,
};
use crate::yaml::Yaml;

verus! {

/// A recoverable error found while reading one fragment: the load fails as a
/// whole, but every cause stays individually retrievable.
#[derive(Debug)]
pub struct FragmentError {
    pub message: String,
}

/// The messages of a list of fragment errors, in order.
pub open spec fn frag_msgs(es: Seq<FragmentError>) -> Seq<Seq<char>> {
    es.map_values(|e: FragmentError| e.message@)
}

/// A fatal error of the manifest itself: the load aborts at once.
#[derive(Debug)]
pub enum ManifestError {
    /// The manifest could not be read or parsed as YAML text; carries the
    /// reader's message.
    Unreadable(String),
    /// The document does not have the manifest shape.
    Invalid,
    MissingVersion,
    MissingName,
}

pub open spec fn spec_manifest_error_msg(e: ManifestError) -> Seq<char> {
    match e {
        ManifestError::Unreadable(m) => m@,
        ManifestError::Invalid => "Invalid YAML in mod file"@,
        ManifestError::MissingVersion => "Missing version field in mod file"@,
        ManifestError::MissingName => "Missing name field in mod file"@,
    }
}

impl ManifestError {
    /// The human-readable form of the error.
    pub fn message(&self) -> (r: String)
        ensures
            r@ == spec_manifest_error_msg(*self),
    {
        match self {
            ManifestError::Unreadable(m) => m.clone(),
            ManifestError::Invalid => String::from_str("Invalid YAML in mod file"),
            ManifestError::MissingVersion => String::from_str(
                "Missing version field in mod file",
            ),
            ManifestError::MissingName => String::from_str("Missing name field in mod file"),
        }
    }
}

/// The error of a whole load.
#[derive(Debug)]
pub enum ParseError {
    /// `parse` was called before a manifest was loaded.
    NotLoaded,
    /// Fragment errors were collected; their number is carried here and the
    /// individual causes stay on the parser.
    Fragments { count: usize },
    /// Two elements share a full path.
    Duplicate(String),
}

pub open spec fn spec_parse_error_msg(e: ParseError) -> Seq<char> {
    match e {
        ParseError::NotLoaded => "parser not initialized"@,
        ParseError::Fragments { count } => "Parse errors: "@ + spec_digits(count as int)
            + " errors encountered"@,
        ParseError::Duplicate(p) => "duplicate element ID: "@ + p@,
    }
}

impl ParseError {
    /// The human-readable form of the error.
    pub fn message(&self) -> (r: String)
        ensures
            r@ == spec_parse_error_msg(*self),
    {
        match self {
            ParseError::NotLoaded => String::from_str("parser not initialized"),
            ParseError::Fragments { count } => {
                let mut s = String::from_str("Parse errors: ");
                let n = usize_to_string(*count);
                s.append(n.as_str());
                s.append(" errors encountered");
                proof {
                    assert(s@ =~= spec_parse_error_msg(*self));
                }
                s
            },
            ParseError::Duplicate(p) => {
                let mut s = String::from_str("duplicate element ID: ");
                s.append(p.as_str());
                s
            },
        }
    }
}

/// The workspace-relative remainder of `path` under `root`, split at a `/`
/// boundary; nothing when `path` does not lie under `root`.
pub open spec fn spec_rel_path(root: Seq<char>, path: Seq<char>) -> Option<Seq<char>> {
    if !spec_starts_with(path, root) {
        None
    } else {
        let rel = path.skip(root.len() as int);
        if root.len() == 0 {
            Some(rel)
        } else if root.last() == '/' {
            Some(rel)
        } else if rel.len() == 0 {
            Some(rel)
        } else if rel[0] == '/' {
            Some(rel.skip(1))
        } else {
            None
        }
    }
}

/// The first `k` path pieces that are non-empty.
pub open spec fn spec_segs_k(parts: Seq<Seq<char>>, k: int) -> Seq<Seq<char>>
    decreases k,
{
    if k <= 0 {
        Seq::empty()
    } else {
        spec_segs_k(parts, k - 1) + (if parts[k - 1].len() > 0 {
            seq![parts[k - 1]]
        } else {
            Seq::<Seq<char>>::empty()
        })
    }
}

/// The system id inferred from path segments, scanning from position `k`: a
/// segment `systems` followed by another segment names the system.
pub open spec fn spec_inferred_from(segs: Seq<Seq<char>>, k: int) -> Seq<char>
    decreases segs.len() - k,
{
    if k < 0 || k + 1 >= segs.len() {
        Seq::empty()
    } else if segs[k] == "systems"@ {
        segs[k + 1]
    } else {
        spec_inferred_from(segs, k + 1)
    }
}

/// The system id inferred from a fragment file's location under the root.
pub open spec fn spec_context_system(root: Seq<char>, path: Seq<char>) -> Seq<char> {
    match spec_rel_path(root, path) {
        None => Seq::empty(),
        Some(rel) => {
            let parts = spec_split(rel, '/');
            spec_inferred_from(spec_segs_k(parts, parts.len() as int), 0)
        },
    }
}

/// A container after context inference, typed as a container.
pub open spec fn spec_fix_container(c: ContainerV, sys: Seq<char>) -> ContainerV {
    ContainerV {
        element_type: ElementType::Container,
        system_id: if c.system_id.len() == 0 {
            sys
        } else {
            c.system_id
        },
        ..c
    }
}

/// The containers of the first `k` that still have a system after inference.
pub open spec fn spec_kept_containers(cs: Seq<ContainerV>, sys: Seq<char>, k: int) -> Seq<
    ContainerV,
>
    decreases k,
{
    if k <= 0 {
        Seq::empty()
    } else {
        let c = spec_fix_container(cs[k - 1], sys);
        spec_kept_containers(cs, sys, k - 1) + (if c.system_id.len() == 0 {
            Seq::<ContainerV>::empty()
        } else {
            seq![c]
        })
    }
}

/// The message reported for a container with no system context.
pub open spec fn spec_container_ctx_msg(path: Seq<char>, id: Seq<char>) -> Seq<char> {
    spec_quoted(path) + ": container "@ + spec_quoted(id) + " has no system context"@
}

/// Context errors among the first `k` containers.
pub open spec fn spec_container_ctx_errs(
    cs: Seq<ContainerV>,
    sys: Seq<char>,
    path: Seq<char>,
    k: int,
) -> Seq<Seq<char>>
    decreases k,
{
    if k <= 0 {
        Seq::empty()
    } else {
        let c = spec_fix_container(cs[k - 1], sys);
        spec_container_ctx_errs(cs, sys, path, k - 1) + (if c.system_id.len() == 0 {
            seq![spec_container_ctx_msg(path, c.base.id)]
        } else {
            Seq::<Seq<char>>::empty()
        })
    }
}

/// A component after context inference, typed as a component.
pub open spec fn spec_fix_component(c: ComponentV, sys: Seq<char>, cont: Seq<char>) -> ComponentV {
    ComponentV {
        element_type: ElementType::Component,
        system_id: if c.system_id.len() == 0 {
            sys
        } else {
            c.system_id
        },
        container_id: if c.container_id.len() == 0 {
            cont
        } else {
            c.container_id
        },
        ..c
    }
}

/// The components of the first `k` that keep full ancestry after inference.
pub open spec fn spec_kept_components(
    cs: Seq<ComponentV>,
    sys: Seq<char>,
    cont: Seq<char>,
    k: int,
) -> Seq<ComponentV>
    decreases k,
{
    if k <= 0 {
        Seq::empty()
    } else {
        let c = spec_fix_component(cs[k - 1], sys, cont);
        spec_kept_components(cs, sys, cont, k - 1) + (if c.system_id.len() == 0
            || c.container_id.len() == 0 {
            Seq::<ComponentV>::empty()
        } else {
            seq![c]
        })
    }
}

/// The message reported for a component with missing ancestry.
pub open spec fn spec_component_ctx_msg(path: Seq<char>, id: Seq<char>) -> Seq<char> {
    spec_quoted(path) + ": component "@ + spec_quoted(id) + " missing system/container context"@
}

/// Context errors among the first `k` components.
pub open spec fn spec_component_ctx_errs(
    cs: Seq<ComponentV>,
    sys: Seq<char>,
    cont: Seq<char>,
    path: Seq<char>,
    k: int,
) -> Seq<Seq<char>>
    decreases k,
{
    if k <= 0 {
        Seq::empty()
    } else {
        let c = spec_fix_component(cs[k - 1], sys, cont);
        spec_component_ctx_errs(cs, sys, cont, path, k - 1) + (if c.system_id.len() == 0
            || c.container_id.len() == 0 {
            seq![spec_component_ctx_msg(path, c.base.id)]
        } else {
            Seq::<Seq<char>>::empty()
        })
    }
}

/// A person, retyped as a person.
pub open spec fn spec_fix_person(p: PersonV) -> PersonV {
    PersonV { element_type: ElementType::Person, ..p }
}

/// A system, retyped as a system.
pub open spec fn spec_fix_system(s: SystemV) -> SystemV {
    SystemV { element_type: ElementType::System, ..s }
}

/// The message reported for a fragment document without the fragment shape.
pub open spec fn spec_invalid_fragment_msg(path: Seq<char>) -> Seq<char> {
    "Invalid YAML in data file: "@ + spec_quoted(path)
}

/// The records one well-shaped fragment document contributes, after context
/// inference from the file's location.
pub open spec fn spec_doc_kept(root: Seq<char>, path: Seq<char>, df: DataFileV) -> DataFileV {
    let sys = spec_context_system(root, path);
    DataFileV {
        persons: df.persons.map_values(|p: PersonV| spec_fix_person(p)),
        systems: df.systems.map_values(|s: SystemV| spec_fix_system(s)),
        containers: spec_kept_containers(df.containers, sys, df.containers.len() as int),
        components: spec_kept_components(
            df.components,
            sys,
            Seq::empty(),
            df.components.len() as int,
        ),
        relationships: df.relationships,
        flows: df.flows,
        deployments: df.deployments,
    }
}

/// The error messages one well-shaped fragment document produces.
pub open spec fn spec_doc_errs(root: Seq<char>, path: Seq<char>, df: DataFileV) -> Seq<Seq<char>> {
    let sys = spec_context_system(root, path);
    spec_container_ctx_errs(df.containers, sys, path, df.containers.len() as int)
        + spec_component_ctx_errs(
        df.components,
        sys,
        Seq::empty(),
        path,
        df.components.len() as int,
    )
}

/// An empty fragment contribution.
pub open spec fn spec_no_records() -> DataFileV {
    DataFileV {
        persons: Seq::empty(),
        systems: Seq::empty(),
        containers: Seq::empty(),
        components: Seq::empty(),
        relationships: Seq::empty(),
        flows: Seq::empty(),
        deployments: Seq::empty(),
    }
}

/// What one workspace file contributes to the model: nothing when it could
/// not be read or decoded.
pub open spec fn spec_file_kept(root: Seq<char>, f: SourceFile) -> DataFileV {
    match f.doc {
        Ok(d) => match dec_data_file(d@) {
            Some(df) => spec_doc_kept(root, f.path@, df),
            None => spec_no_records(),
        },
        Err(_) => spec_no_records(),
    }
}

/// The error messages one workspace file produces.
pub open spec fn spec_file_errs(root: Seq<char>, f: SourceFile) -> Seq<Seq<char>> {
    match f.doc {
        Ok(d) => match dec_data_file(d@) {
            Some(df) => spec_doc_errs(root, f.path@, df),
            None => seq![spec_invalid_fragment_msg(f.path@)],
        },
        Err(m) => seq![m@],
    }
}

/// Contributions of the first `k` workspace files, concatenated per
/// collection, in file order.
pub open spec fn spec_kept_upto(root: Seq<char>, files: Seq<SourceFile>, k: int) -> DataFileV
    decreases k,
{
    if k <= 0 {
        spec_no_records()
    } else {
        let prev = spec_kept_upto(root, files, k - 1);
        let cur = spec_file_kept(root, files[k - 1]);
        DataFileV {
            persons: prev.persons + cur.persons,
            systems: prev.systems + cur.systems,
            containers: prev.containers + cur.containers,
            components: prev.components + cur.components,
            relationships: prev.relationships + cur.relationships,
            flows: prev.flows + cur.flows,
            deployments: prev.deployments + cur.deployments,
        }
    }
}

/// Error messages of the first `k` workspace files, in file order.
pub open spec fn spec_errs_upto(root: Seq<char>, files: Seq<SourceFile>, k: int) -> Seq<Seq<char>>
    decreases k,
{
    if k <= 0 {
        Seq::empty()
    } else {
        spec_errs_upto(root, files, k - 1) + spec_file_errs(root, files[k - 1])
    }
}

/// The full paths the merged records will claim, in indexing scan order.
pub open spec fn spec_kept_paths(df: DataFileV) -> Seq<Seq<char>> {
    df.persons.map_values(|p: PersonV| p.base.id) + df.systems.map_values(
        |s: SystemV| s.base.id,
    ) + df.containers.map_values(|c: ContainerV| c.system_id + seq!['.'] + c.base.id)
        + df.components.map_values(
        |c: ComponentV| c.system_id + seq!['.'] + c.container_id + seq!['.'] + c.base.id,
    )
}


/// The loader.  It holds the workspace root, the manifest once loaded, the
/// model under construction, and every fragment error collected so far.
pub struct Parser {
    pub root_dir: String,
    pub mod_file: Option<ModFile>,
    pub model: Model,
    pub errors: Vec<FragmentError>,
}

impl Parser {
    /// A fresh loader for the workspace at `dir`.
    pub fn new(dir: &str) -> (r: Parser)
        ensures
            r.root_dir@ == dir@,
            r.mod_file is None,
            r.errors@.len() == 0,
            r.model.inv(),
            r.model.persons@.len() == 0,
            r.model.systems@.len() == 0,
            r.model.containers@.len() == 0,
            r.model.components@.len() == 0,
            r.model.relationships@.len() == 0,
            r.model.flows@.len() == 0,
            r.model.deployments@.len() == 0,
    {
        Parser {
            root_dir: String::from_str(dir),
            mod_file: None,
            model: Model::new(),
            errors: Vec::new(),
        }
    }

    /// The loaded manifest, if any.
    pub fn get_mod_file(&self) -> (r: Option<&ModFile>)
        ensures
            match r {
                Some(mf) => self.mod_file matches Some(m) && m == *mf,
                None => self.mod_file is None,
            },
    {
        self.mod_file.as_ref()
    }

    /// The fragment errors collected by the last load.
    pub fn errors(&self) -> (r: &Vec<FragmentError>)
        ensures
            *r == self.errors,
    {
        &self.errors
    }

    /// Interprets a manifest document and keeps it.  The document must have
    /// the manifest shape with non-empty `version` and `name`; each failure
    /// is its own error and leaves the parser unchanged.
    pub fn load_mod_file(&mut self, doc: &Result<Yaml, String>) -> (r: Result<(), ManifestError>)
        ensures
            final(self).root_dir == old(self).root_dir,
            final(self).model == old(self).model,
            final(self).errors == old(self).errors,
            match r {
                Ok(()) => {
                    &&& doc matches Ok(d)
                    &&& (dec_mod_file(d@) matches Some(mv) && mv.version.len() > 0
                        && mv.name.len() > 0 && (final(self).mod_file matches Some(mf) && mf@
                        == mv))
                },
                Err(e) => {
                    &&& final(self).mod_file == old(self).mod_file
                    &&& match e {
                        ManifestError::Unreadable(m) => doc matches Err(m0) && m == m0,
                        ManifestError::Invalid => doc matches Ok(d) && dec_mod_file(d@) is None,
                        ManifestError::MissingVersion => doc matches Ok(d) && (dec_mod_file(
                            d@,
                        ) matches Some(mv) && mv.version.len() == 0),
                        ManifestError::MissingName => doc matches Ok(d) && (dec_mod_file(
                            d@,
                        ) matches Some(mv) && mv.version.len() > 0 && mv.name.len() == 0),
                    }
                },
            },
    {
        match doc {
            Err(m) => Err(ManifestError::Unreadable(m.clone())),
            Ok(d) => {
                match mod_file_from_yaml(d) {
                    None => Err(ManifestError::Invalid),
                    Some(mf) => {
                        if mf.version.as_str().unicode_len() == 0 {
                            return Err(ManifestError::MissingVersion);
                        }
                        if mf.name.as_str().unicode_len() == 0 {
                            return Err(ManifestError::MissingName);
                        }
                        self.mod_file = Some(mf);
                        Ok(())
                    },
                }
            },
        }
    }

    /// Infers hierarchy context from a fragment file's location: a path
    /// segment `systems` followed by another segment names the system;
    /// nothing deeper is ever inferred.
    pub fn context_from_path(&self, path: &str) -> (r: FileContext)
        ensures
            r.file_path@ == path@,
            r.system_id@ == spec_context_system(self.root_dir@, path@),
            r.container@ == Seq::<char>::empty(),
    {
        let ctx = FileContext::new(String::from_str(path));
        if !str_starts_with(path, self.root_dir.as_str()) {
            return ctx;
        }
        let rootlen = self.root_dir.as_str().unicode_len();
        let plen = path.unicode_len();
        let rel: &str = if rootlen == 0 {
            proof {
                assert(path@.skip(0) =~= path@);
            }
            path
        } else if self.root_dir.as_str().get_char(rootlen - 1) == '/' {
            let t = path.substring_char(rootlen, plen);
            proof {
                assert(t@ =~= path@.skip(rootlen as int));
            }
            t
        } else if rootlen == plen {
            let t = path.substring_char(rootlen, plen);
            proof {
                assert(t@ =~= path@.skip(rootlen as int));
            }
            t
        } else if path.get_char(rootlen) == '/' {
            let t = path.substring_char(rootlen + 1, plen);
            proof {
                assert(path@.skip(rootlen as int).skip(1) =~= path@.subrange(
                    rootlen + 1,
                    plen as int,
                ));
                assert(t@ =~= path@.skip(rootlen as int).skip(1));
            }
            t
        } else {
            proof {
                assert(spec_rel_path(self.root_dir@, path@) is None);
            }
            return ctx;
        };
        proof {
            assert(spec_rel_path(self.root_dir@, path@) == Some(rel@));
        }
        let parts = split_char(rel, '/');
        let ghost pv = spec_split(rel@, '/');
        let mut segs: Vec<String> = Vec::new();
        let mut i: usize = 0;
        while i < parts.len()
            invariant
                i <= parts@.len(),
                parts.deep_view() == pv,
                pv.len() == parts@.len(),
                segs.deep_view() == spec_segs_k(pv, i as int),
            decreases parts@.len() - i,
        {
            proof {
                assert(parts@[i as int]@ == pv[i as int]);
            }
            if parts[i].as_str().unicode_len() > 0 {
                segs.push(parts[i].clone());
                proof {
                    assert(segs.deep_view() =~= spec_segs_k(pv, i + 1));
                }
            } else {
                proof {
                    assert(segs.deep_view() =~= spec_segs_k(pv, i + 1));
                }
            }
            i += 1;
        }
        let ghost sv = spec_segs_k(pv, pv.len() as int);
        let n = segs.len();
        if n < 2 {
            proof {
                assert(spec_inferred_from(sv, 0) =~= Seq::<char>::empty());
            }
            return ctx;
        }
        let mut k: usize = 0;
        while k < n - 1
            invariant
                k <= segs@.len(),
                n == segs@.len(),
                n >= 2,
                segs.deep_view() == sv,
                sv.len() == segs@.len(),
                spec_inferred_from(sv, 0) == spec_inferred_from(sv, k as int),
            decreases segs@.len() - k,
        {
            proof {
                assert(segs@[k as int]@ == sv[k as int]);
                assert(segs@[k as int + 1]@ == sv[k as int + 1]);
            }
            if str_eq(segs[k].as_str(), "systems") {
                let sys = segs[k + 1].clone();
                proof {
                    assert(spec_inferred_from(sv, k as int) == sv[k as int + 1]);
                }
                return ctx.with_system_id(sys);
            }
            k += 1;
        }
        proof {
            assert(spec_inferred_from(sv, k as int) =~= Seq::<char>::empty());
        }
        ctx
    }

    /// Merges one fragment document into the model under construction.
    /// Containers and components whose ancestry stays empty even after
    /// context inference are dropped, each with its own recoverable error; a
    /// document without the fragment shape fails as a whole.
    pub fn load_data_file(&mut self, path: &str, doc: &Yaml) -> (r: Result<(), FragmentError>)
        ensures
            final(self).root_dir == old(self).root_dir,
            final(self).mod_file == old(self).mod_file,
            final(self).model.options == old(self).model.options,
            match dec_data_file(doc@) {
                Some(df) => {
                    let root = old(self).root_dir@;
                    let kept = spec_doc_kept(root, path@, df);
                    &&& r is Ok
                    &&& final(self).model.persons@.map_values(|x: Person| x@) == old(
                        self,
                    ).model.persons@.map_values(|x: Person| x@) + kept.persons
                    &&& final(self).model.systems@.map_values(|x: SoftwareSystem| x@) == old(
                        self,
                    ).model.systems@.map_values(|x: SoftwareSystem| x@) + kept.systems
                    &&& final(self).model.containers@.map_values(|x: Container| x@) == old(
                        self,
                    ).model.containers@.map_values(|x: Container| x@) + kept.containers
                    &&& final(self).model.components@.map_values(|x: Component| x@) == old(
                        self,
                    ).model.components@.map_values(|x: Component| x@) + kept.components
                    &&& final(self).model.relationships@.map_values(
                        |x: crate::types::Relationship| x@,
                    ) == old(self).model.relationships@.map_values(
                        |x: crate::types::Relationship| x@,
                    ) + kept.relationships
                    &&& final(self).model.flows@.map_values(|x: crate::types::Flow| x@) == old(
                        self,
                    ).model.flows@.map_values(|x: crate::types::Flow| x@) + kept.flows
                    &&& final(self).model.deployments@.map_values(
                        |x: crate::types::Deployment| x@,
                    ) == old(self).model.deployments@.map_values(
                        |x: crate::types::Deployment| x@,
                    ) + kept.deployments
                    &&& frag_msgs(final(self).errors@) == frag_msgs(old(self).errors@)
                        + spec_doc_errs(root, path@, df)
                },
                None => {
                    &&& *final(self) == *old(self)
                    &&& r matches Err(e) && e.message@ == spec_invalid_fragment_msg(path@)
                },
            },
    {
        let df = match data_file_from_yaml(doc) {
            Some(df) => df,
            None => {
                let mut msg = String::from_str("Invalid YAML in data file: ");
                push_quoted(&mut msg, path);
                proof {
                    assert(msg@ =~= spec_invalid_fragment_msg(path@));
                }
                return Err(FragmentError { message: msg });
            },
        };
        let ctx = self.context_from_path(path);
        let ghost root = self.root_dir@;
        let ghost dfv = df@;
        let ghost sys = spec_context_system(root, path@);
        let crate::file::DataFile {
            persons: mut new_persons,
            systems: mut new_systems,
            containers: mut new_containers,
            components: mut new_components,
            relationships: mut new_relationships,
            flows: mut new_flows,
            deployments: mut new_deployments,
        } = df;

        // persons, uniformly typed
        let ghost base_p = self.model.persons@.map_values(|x: Person| x@);
        let ghost pv = dfv.persons;
        proof {
            assert(new_persons.len() == new_persons@.len());
        }
        let mut j: usize = 0;
        while new_persons.len() > 0
            invariant
                pv.len() <= usize::MAX,
                j + new_persons@.len() == pv.len(),
                new_persons@.map_values(|x: Person| x@) == pv.skip(j as int),
                self.model.persons@.map_values(|x: Person| x@) == base_p + pv.take(
                    j as int,
                ).map_values(|x: PersonV| spec_fix_person(x)),
                self.root_dir == old(self).root_dir,
                self.mod_file == old(self).mod_file,
                self.errors == old(self).errors,
                self.model.options == old(self).model.options,
                self.model.systems == old(self).model.systems,
                self.model.containers == old(self).model.containers,
                self.model.components == old(self).model.components,
                self.model.relationships == old(self).model.relationships,
                self.model.flows == old(self).model.flows,
                self.model.deployments == old(self).model.deployments,
            decreases new_persons@.len(),
        {
            let ghost before = new_persons@;
            let mut p = new_persons.remove(0);
            proof {
                assert(new_persons@ =~= before.drop_first());
                assert(p@ == before.map_values(|x: Person| x@)[0]);
                assert(p@ == pv[j as int]);
                assert forall|i: int|
                    0 <= i < new_persons@.len() implies (#[trigger] new_persons@[i])@ == pv.skip(
                    j + 1,
                )[i] by {
                    assert(new_persons@[i] == before[i + 1]);
                    assert(before.map_values(|x: Person| x@)[i + 1] == pv.skip(j as int)[i + 1]);
                }
                assert(new_persons@.map_values(|x: Person| x@) =~= pv.skip(j + 1));
            }
            p.element_type = ElementType::Person;
            proof {
                assert(p@ == spec_fix_person(pv[j as int]));
            }
            let ghost prev = self.model.persons@;
            self.model.persons.push(p);
            proof {
                lemma_map_push(prev, p, |x: Person| x@);
                assert(pv.take(j + 1) =~= pv.take(j as int).push(pv[j as int]));
                lemma_map_push(pv.take(j as int), pv[j as int], |x: PersonV| spec_fix_person(x));
                assert(self.model.persons@.map_values(|x: Person| x@) =~= base_p + pv.take(
                    j + 1,
                ).map_values(|x: PersonV| spec_fix_person(x)));
            }
            j += 1;
        }
        proof {
            assert(pv.take(pv.len() as int) =~= pv);
        }

        // systems, uniformly typed
        let ghost base_s = self.model.systems@.map_values(|x: SoftwareSystem| x@);
        let ghost sv = dfv.systems;
        proof {
            assert(new_systems.len() == new_systems@.len());
        }
        let mut j: usize = 0;
        while new_systems.len() > 0
            invariant
                sv.len() <= usize::MAX,
                j + new_systems@.len() == sv.len(),
                new_systems@.map_values(|x: SoftwareSystem| x@) == sv.skip(j as int),
                self.model.systems@.map_values(|x: SoftwareSystem| x@) == base_s + sv.take(
                    j as int,
                ).map_values(|x: SystemV| spec_fix_system(x)),
                self.root_dir == old(self).root_dir,
                self.mod_file == old(self).mod_file,
                self.errors == old(self).errors,
                self.model.options == old(self).model.options,
                self.model.persons@.map_values(|x: Person| x@) == base_p + pv.map_values(
                    |x: PersonV| spec_fix_person(x),
                ),
                self.model.containers == old(self).model.containers,
                self.model.components == old(self).model.components,
                self.model.relationships == old(self).model.relationships,
                self.model.flows == old(self).model.flows,
                self.model.deployments == old(self).model.deployments,
            decreases new_systems@.len(),
        {
            let ghost before = new_systems@;
            let mut sy = new_systems.remove(0);
            proof {
                assert(new_systems@ =~= before.drop_first());
                assert(sy@ == before.map_values(|x: SoftwareSystem| x@)[0]);
                assert(sy@ == sv[j as int]);
                assert forall|i: int|
                    0 <= i < new_systems@.len() implies (#[trigger] new_systems@[i])@ == sv.skip(
                    j + 1,
                )[i] by {
                    assert(new_systems@[i] == before[i + 1]);
                    assert(before.map_values(|x: SoftwareSystem| x@)[i + 1] == sv.skip(
                        j as int,
                    )[i + 1]);
                }
                assert(new_systems@.map_values(|x: SoftwareSystem| x@) =~= sv.skip(j + 1));
            }
            sy.element_type = ElementType::System;
            proof {
                assert(sy@ == spec_fix_system(sv[j as int]));
            }
            let ghost prev = self.model.systems@;
            self.model.systems.push(sy);
            proof {
                lemma_map_push(prev, sy, |x: SoftwareSystem| x@);
                assert(sv.take(j + 1) =~= sv.take(j as int).push(sv[j as int]));
                lemma_map_push(sv.take(j as int), sv[j as int], |x: SystemV| spec_fix_system(x));
                assert(self.model.systems@.map_values(|x: SoftwareSystem| x@) =~= base_s + sv.take(
                    j + 1,
                ).map_values(|x: SystemV| spec_fix_system(x)));
            }
            j += 1;
        }
        proof {
            assert(sv.take(sv.len() as int) =~= sv);
        }

        // containers, with system context inference
        let ghost base_c = self.model.containers@.map_values(|x: Container| x@);
        let ghost base_e = frag_msgs(self.errors@);
        let ghost cv = dfv.containers;
        proof {
            assert(new_containers.len() == new_containers@.len());
        }
        let mut j: usize = 0;
        while new_containers.len() > 0
            invariant
                cv.len() <= usize::MAX,
                j + new_containers@.len() == cv.len(),
                new_containers@.map_values(|x: Container| x@) == cv.skip(j as int),
                self.model.containers@.map_values(|x: Container| x@) == base_c
                    + spec_kept_containers(cv, sys, j as int),
                frag_msgs(self.errors@) == base_e + spec_container_ctx_errs(
                    cv,
                    sys,
                    path@,
                    j as int,
                ),
                ctx.system_id@ == sys,
                self.root_dir == old(self).root_dir,
                self.mod_file == old(self).mod_file,
                self.model.options == old(self).model.options,
                self.model.persons@.map_values(|x: Person| x@) == base_p + pv.map_values(
                    |x: PersonV| spec_fix_person(x),
                ),
                self.model.systems@.map_values(|x: SoftwareSystem| x@) == base_s + sv.map_values(
                    |x: SystemV| spec_fix_system(x),
                ),
                self.model.components == old(self).model.components,
                self.model.relationships == old(self).model.relationships,
                self.model.flows == old(self).model.flows,
                self.model.deployments == old(self).model.deployments,
            decreases new_containers@.len(),
        {
            let ghost before = new_containers@;
            let mut c = new_containers.remove(0);
            proof {
                assert(new_containers@ =~= before.drop_first());
                assert(c@ == before.map_values(|x: Container| x@)[0]);
                assert(c@ == cv[j as int]);
                assert forall|i: int|
                    0 <= i < new_containers@.len() implies (#[trigger] new_containers@[i])@
                    == cv.skip(j + 1)[i] by {
                    assert(new_containers@[i] == before[i + 1]);
                    assert(before.map_values(|x: Container| x@)[i + 1] == cv.skip(
                        j as int,
                    )[i + 1]);
                }
                assert(new_containers@.map_values(|x: Container| x@) =~= cv.skip(j + 1));
            }
            c.element_type = ElementType::Container;
            if c.system_id.as_str().unicode_len() == 0 {
                c.system_id = ctx.system_id.clone();
            }
            proof {
                assert(c@ == spec_fix_container(cv[j as int], sys));
            }
            if c.system_id.as_str().unicode_len() == 0 {
                let mut msg = String::new();
                push_quoted(&mut msg, path);
                msg.append(": container ");
                push_quoted(&mut msg, c.base.id.as_str());
                msg.append(" has no system context");
                proof {
                    assert(msg@ =~= spec_container_ctx_msg(path@, c@.base.id));
                }
                let ghost preve = self.errors@;
                self.errors.push(FragmentError { message: msg });
                proof {
                    lemma_map_push(
                        preve,
                        FragmentError { message: msg },
                        |e: FragmentError| e.message@,
                    );
                    assert(frag_msgs(self.errors@) =~= base_e + spec_container_ctx_errs(
                        cv,
                        sys,
                        path@,
                        j + 1,
                    ));
                    assert(self.model.containers@.map_values(|x: Container| x@) =~= base_c
                        + spec_kept_containers(cv, sys, j + 1));
                }
            } else {
                let ghost prevc = self.model.containers@;
                let ghost cval = c;
                self.model.containers.push(c);
                proof {
                    lemma_map_push(prevc, cval, |x: Container| x@);
                    assert(self.model.containers@.map_values(|x: Container| x@) =~= base_c
                        + spec_kept_containers(cv, sys, j + 1));
                    assert(frag_msgs(self.errors@) =~= base_e + spec_container_ctx_errs(
                        cv,
                        sys,
                        path@,
                        j + 1,
                    ));
                }
            }
            j += 1;
        }

        // components, with system and container context inference
        let ghost base_m = self.model.components@.map_values(|x: Component| x@);
        let ghost base_e2 = frag_msgs(self.errors@);
        let ghost mv = dfv.components;
        proof {
            assert(new_components.len() == new_components@.len());
        }
        let mut j: usize = 0;
        while new_components.len() > 0
            invariant
                mv.len() <= usize::MAX,
                j + new_components@.len() == mv.len(),
                new_components@.map_values(|x: Component| x@) == mv.skip(j as int),
                self.model.components@.map_values(|x: Component| x@) == base_m
                    + spec_kept_components(mv, sys, Seq::empty(), j as int),
                ctx.system_id@ == sys,
                ctx.container@ == Seq::<char>::empty(),
                self.root_dir == old(self).root_dir,
                self.mod_file == old(self).mod_file,
                self.model.options == old(self).model.options,
                self.model.persons@.map_values(|x: Person| x@) == base_p + pv.map_values(
                    |x: PersonV| spec_fix_person(x),
                ),
                self.model.systems@.map_values(|x: SoftwareSystem| x@) == base_s + sv.map_values(
                    |x: SystemV| spec_fix_system(x),
                ),
                self.model.containers@.map_values(|x: Container| x@) == base_c
                    + spec_kept_containers(cv, sys, cv.len() as int),
                frag_msgs(self.errors@) == base_e2 + spec_component_ctx_errs(
                    mv,
                    sys,
                    Seq::empty(),
                    path@,
                    j as int,
                ),
                self.model.relationships == old(self).model.relationships,
                self.model.flows == old(self).model.flows,
                self.model.deployments == old(self).model.deployments,
            decreases new_components@.len(),
        {
            let ghost before = new_components@;
            let mut c = new_components.remove(0);
            proof {
                assert(new_components@ =~= before.drop_first());
                assert(c@ == before.map_values(|x: Component| x@)[0]);
                assert(c@ == mv[j as int]);
                assert forall|i: int|
                    0 <= i < new_components@.len() implies (#[trigger] new_components@[i])@
                    == mv.skip(j + 1)[i] by {
                    assert(new_components@[i] == before[i + 1]);
                    assert(before.map_values(|x: Component| x@)[i + 1] == mv.skip(
                        j as int,
                    )[i + 1]);
                }
                assert(new_components@.map_values(|x: Component| x@) =~= mv.skip(j + 1));
            }
            c.element_type = ElementType::Component;
            if c.system_id.as_str().unicode_len() == 0 {
                c.system_id = ctx.system_id.clone();
            }
            if c.container_id.as_str().unicode_len() == 0 {
                c.container_id = ctx.container.clone();
            }
            proof {
                assert(c@ == spec_fix_component(mv[j as int], sys, Seq::empty()));
            }
            if c.system_id.as_str().unicode_len() == 0 || c.container_id.as_str().unicode_len()
                == 0 {
                let mut msg = String::new();
                push_quoted(&mut msg, path);
                msg.append(": component ");
                push_quoted(&mut msg, c.base.id.as_str());
                msg.append(" missing system/container context");
                proof {
                    assert(msg@ =~= spec_component_ctx_msg(path@, c@.base.id));
                }
                let ghost preve = self.errors@;
                self.errors.push(FragmentError { message: msg });
                proof {
                    lemma_map_push(
                        preve,
                        FragmentError { message: msg },
                        |e: FragmentError| e.message@,
                    );
                    assert(frag_msgs(self.errors@) =~= base_e2 + spec_component_ctx_errs(
                        mv,
                        sys,
                        Seq::empty(),
                        path@,
                        j + 1,
                    ));
                    assert(self.model.components@.map_values(|x: Component| x@) =~= base_m
                        + spec_kept_components(mv, sys, Seq::empty(), j + 1));
                }
            } else {
                let ghost prevm = self.model.components@;
                let ghost cval = c;
                self.model.components.push(c);
                proof {
                    lemma_map_push(prevm, cval, |x: Component| x@);
                    assert(self.model.components@.map_values(|x: Component| x@) =~= base_m
                        + spec_kept_components(mv, sys, Seq::empty(), j + 1));
                    assert(frag_msgs(self.errors@) =~= base_e2 + spec_component_ctx_errs(
                        mv,
                        sys,
                        Seq::empty(),
                        path@,
                        j + 1,
                    ));
                }
            }
            j += 1;
        }

        // relationships, flows and deployments carry over unchanged
        let ghost base_r = self.model.relationships@.map_values(
            |x: crate::types::Relationship| x@,
        );
        self.model.relationships.append(&mut new_relationships);
        proof {
            assert(self.model.relationships@.map_values(|x: crate::types::Relationship| x@)
                =~= base_r + dfv.relationships);
        }
        let ghost base_f = self.model.flows@.map_values(|x: crate::types::Flow| x@);
        self.model.flows.append(&mut new_flows);
        proof {
            assert(self.model.flows@.map_values(|x: crate::types::Flow| x@) =~= base_f
                + dfv.flows);
        }
        let ghost base_d = self.model.deployments@.map_values(|x: crate::types::Deployment| x@);
        self.model.deployments.append(&mut new_deployments);
        proof {
            assert(self.model.deployments@.map_values(|x: crate::types::Deployment| x@)
                =~= base_d + dfv.deployments);
        }
        proof {
            let kept = spec_doc_kept(root, path@, dfv);
            assert(pv.map_values(|x: PersonV| spec_fix_person(x)) == kept.persons);
            assert(sv.map_values(|x: SystemV| spec_fix_system(x)) == kept.systems);
            assert(spec_kept_containers(cv, sys, cv.len() as int) == kept.containers);
            assert(spec_kept_components(mv, sys, Seq::empty(), mv.len() as int)
                == kept.components);
            assert(frag_msgs(self.errors@) =~= frag_msgs(old(self).errors@) + spec_doc_errs(
                root,
                path@,
                dfv,
            ));
        }
        Ok(())
    }

    /// Loads a whole workspace from its files, in include order: merges
    /// every fragment, copies the manifest options onto the model, and
    /// finishes with one index build.  Loading is all-or-nothing: the model
    /// comes back only when every file merged cleanly and every full path is
    /// unique; otherwise the collected causes stay retrievable on the
    /// parser.
    pub fn parse(&mut self, files: &Vec<SourceFile>) -> (r: Result<Model, ParseError>)
        ensures
            final(self).root_dir == old(self).root_dir,
            final(self).mod_file == old(self).mod_file,
            match old(self).mod_file {
                None => r matches Err(ParseError::NotLoaded),
                Some(mf) => {
                    let root = old(self).root_dir@;
                    let errs = spec_errs_upto(root, files@, files@.len() as int);
                    let kept = spec_kept_upto(root, files@, files@.len() as int);
                    &&& frag_msgs(final(self).errors@) == errs
                    &&& if errs.len() > 0 {
                        r matches Err(ParseError::Fragments { count }) && count == errs.len()
                    } else if spec_first_dup(spec_kept_paths(kept)) is Some {
                        r matches Err(ParseError::Duplicate(p)) && Some(p@) == spec_first_dup(
                            spec_kept_paths(kept),
                        )
                    } else {
                        r matches Ok(m) && {
                            &&& m.inv()
                            &&& m.persons@.map_values(|x: Person| x@) == kept.persons
                            &&& m.systems@.map_values(|x: SoftwareSystem| x@) == kept.systems
                            &&& m.containers@.map_values(|x: Container| x@) == kept.containers
                            &&& m.components@.map_values(|x: Component| x@) == kept.components
                            &&& m.relationships@.map_values(|x: crate::types::Relationship| x@)
                                == kept.relationships
                            &&& m.flows@.map_values(|x: crate::types::Flow| x@) == kept.flows
                            &&& m.deployments@.map_values(|x: crate::types::Deployment| x@)
                                == kept.deployments
                            &&& m.options == mf.options
                        }
                    }
                },
            },
    {
        match &self.mod_file {
            None => {
                return Err(ParseError::NotLoaded);
            },
            Some(_) => {},
        }
        self.model = Model::new();
        self.errors = Vec::new();
        let ghost root = self.root_dir@;
        let n = files.len();
        let mut i: usize = 0;
        while i < n
            invariant
                i <= n,
                n == files@.len(),
                self.root_dir == old(self).root_dir,
                self.mod_file == old(self).mod_file,
                frag_msgs(self.errors@) == spec_errs_upto(root, files@, i as int),
                self.model.persons@.map_values(|x: Person| x@) == spec_kept_upto(
                    root,
                    files@,
                    i as int,
                ).persons,
                self.model.systems@.map_values(|x: SoftwareSystem| x@) == spec_kept_upto(
                    root,
                    files@,
                    i as int,
                ).systems,
                self.model.containers@.map_values(|x: Container| x@) == spec_kept_upto(
                    root,
                    files@,
                    i as int,
                ).containers,
                self.model.components@.map_values(|x: Component| x@) == spec_kept_upto(
                    root,
                    files@,
                    i as int,
                ).components,
                self.model.relationships@.map_values(|x: crate::types::Relationship| x@)
                    == spec_kept_upto(root, files@, i as int).relationships,
                self.model.flows@.map_values(|x: crate::types::Flow| x@) == spec_kept_upto(
                    root,
                    files@,
                    i as int,
                ).flows,
                self.model.deployments@.map_values(|x: crate::types::Deployment| x@)
                    == spec_kept_upto(root, files@, i as int).deployments,
            decreases n - i,
        {
            let ghost done_e = spec_errs_upto(root, files@, i as int);
            let ghost done_k = spec_kept_upto(root, files@, i as int);
            let f = &files[i];
            proof {
                assert(*f == files@[i as int]);
            }
            match &f.doc {
                Ok(d) => {
                    match self.load_data_file(f.path.as_str(), d) {
                        Ok(()) => {
                            proof {
                                let df = dec_data_file(d@).unwrap();
                                assert(spec_file_kept(root, files@[i as int]) == spec_doc_kept(
                                    root,
                                    f.path@,
                                    df,
                                ));
                                assert(spec_file_errs(root, files@[i as int]) == spec_doc_errs(
                                    root,
                                    f.path@,
                                    df,
                                ));
                            }
                        },
                        Err(fe) => {
                            let ghost preve = self.errors@;
                            self.errors.push(fe);
                            proof {
                                lemma_map_push(preve, fe, |e: FragmentError| e.message@);
                                assert(spec_file_errs(root, files@[i as int]) =~= seq![
                                    spec_invalid_fragment_msg(f.path@),
                                ]);
                                assert(spec_file_kept(root, files@[i as int])
                                    == spec_no_records());
                            }
                        },
                    }
                },
                Err(m) => {
                    let fe = FragmentError { message: m.clone() };
                    let ghost preve = self.errors@;
                    self.errors.push(fe);
                    proof {
                        lemma_map_push(preve, fe, |e: FragmentError| e.message@);
                        assert(spec_file_errs(root, files@[i as int]) =~= seq![m@]);
                        assert(spec_file_kept(root, files@[i as int]) == spec_no_records());
                    }
                },
            }
            proof {
                assert(frag_msgs(self.errors@) =~= spec_errs_upto(root, files@, i + 1));
                assert(self.model.persons@.map_values(|x: Person| x@) =~= spec_kept_upto(
                    root,
                    files@,
                    i + 1,
                ).persons);
                assert(self.model.systems@.map_values(|x: SoftwareSystem| x@) =~= spec_kept_upto(
                    root,
                    files@,
                    i + 1,
                ).systems);
                assert(self.model.containers@.map_values(|x: Container| x@) =~= spec_kept_upto(
                    root,
                    files@,
                    i + 1,
                ).containers);
                assert(self.model.components@.map_values(|x: Component| x@) =~= spec_kept_upto(
                    root,
                    files@,
                    i + 1,
                ).components);
                assert(self.model.relationships@.map_values(|x: crate::types::Relationship| x@)
                    =~= spec_kept_upto(root, files@, i + 1).relationships);
                assert(self.model.flows@.map_values(|x: crate::types::Flow| x@) =~= spec_kept_upto(
                    root,
                    files@,
                    i + 1,
                ).flows);
                assert(self.model.deployments@.map_values(|x: crate::types::Deployment| x@)
                    =~= spec_kept_upto(root, files@, i + 1).deployments);
            }
            i += 1;
        }
        if self.errors.len() > 0 {
            return Err(ParseError::Fragments { count: self.errors.len() });
        }
        let opts = match &self.mod_file {
            Some(mf) => mf.options,
            None => {
                proof {
                    assert(false);
                }
                crate::types::Options { show_minimap: false }
            },
        };
        self.model.options = opts;
        let ghost kept = spec_kept_upto(root, files@, files@.len() as int);
        proof {
            let m = self.model;
            let lhs = spec_all_paths(m);
            let rhs = spec_kept_paths(kept);
            let np = m.persons@.len() as int;
            let ns = m.systems@.len() as int;
            let nc = m.containers@.len() as int;
            let nm = m.components@.len() as int;
            assert(kept.persons.len() == np);
            assert(kept.systems.len() == ns);
            assert(kept.containers.len() == nc);
            assert(kept.components.len() == nm);
            assert(lhs.len() == np + ns + nc + nm);
            assert(rhs.len() == np + ns + nc + nm);
            assert forall|g: int| 0 <= g < lhs.len() implies #[trigger] lhs[g] == rhs[g] by {
                crate::model::lemma_all_paths_at(m, g);
                if g < np {
                    assert(rhs[g] == kept.persons.map_values(|p: PersonV| p.base.id)[g]);
                    assert(kept.persons[g] == (m.persons@[g])@);
                } else if g < np + ns {
                    assert(rhs[g] == kept.systems.map_values(|x: SystemV| x.base.id)[g - np]);
                    assert(kept.systems[g - np] == (m.systems@[g - np])@);
                } else if g < np + ns + nc {
                    assert(rhs[g] == kept.containers.map_values(
                        |c: ContainerV| c.system_id + seq!['.'] + c.base.id,
                    )[g - np - ns]);
                    assert(kept.containers[g - np - ns] == (m.containers@[g - np - ns])@);
                } else {
                    assert(rhs[g] == kept.components.map_values(
                        |c: ComponentV| c.system_id + seq!['.'] + c.container_id + seq!['.']
                            + c.base.id,
                    )[g - np - ns - nc]);
                    assert(kept.components[g - np - ns - nc] == (m.components@[g - np - ns
                        - nc])@);
                }
            }
            assert(lhs =~= rhs);
        }
        match self.model.build_indexes() {
            Err(e) => {
                match e {
                    ModelError::DuplicateElement(p) => {
                        return Err(ParseError::Duplicate(p));
                    },
                }
            },
            Ok(()) => {},
        }
        let mut parsed = Model::new();
        core::mem::swap(&mut self.model, &mut parsed);
        Ok(parsed)
    }
}

} // verus!
