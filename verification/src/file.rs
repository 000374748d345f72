//! File-level shapes: the manifest (`c4.mod.yaml`), the fragment record
//! (`DataFile`), the hierarchy context inferred from a file's location, and
//! the workspace files handed to the loader.

use vstd::prelude::*;
use vstd::string::StrSliceExecFns;
use crate::strutil::{lemma_split_nonempty, spec_split, split_char};
use crate::types::{
    Component, ComponentV, Container, ContainerV, Deployment, DeploymentV, Flow, FlowV, Options,
    Person, PersonV, Relationship, RelationshipV, SoftwareSystem, SystemV,
};
use crate::yaml::Yaml;

verus! {

/// One declared import of the manifest, carried through unused.
#[derive(Debug)]
pub struct Import {
    pub source: String,
    pub reference: Option<String>,
    pub path: Option<String>,
}

pub struct ImportV {
    pub source: Seq<char>,
    pub reference: Option<Seq<char>>,
    pub path: Option<Seq<char>>,
}

impl View for Import {
    type V = ImportV;

    open spec fn view(&self) -> ImportV {
        ImportV {
            source: self.source@,
            reference: crate::types::opt_str_view(self.reference),
            path: crate::types::opt_str_view(self.path),
        }
    }
}

/// The manifest: names the workspace and lists the glob include patterns of
/// its fragment files.
#[derive(Debug)]
pub struct ModFile {
    pub version: String,
    pub name: String,
    pub schema: Option<String>,
    pub patterns: Vec<String>,
    pub imports: Vec<(String, Import)>,
    pub options: Options,
}

pub struct ModFileV {
    pub version: Seq<char>,
    pub name: Seq<char>,
    pub schema: Option<Seq<char>>,
    pub patterns: Seq<Seq<char>>,
    pub imports: Seq<(Seq<char>, ImportV)>,
    pub options: Options,
}

impl View for ModFile {
    type V = ModFileV;

    open spec fn view(&self) -> ModFileV {
        ModFileV {
            version: self.version@,
            name: self.name@,
            schema: crate::types::opt_str_view(self.schema),
            patterns: self.patterns.deep_view(),
            imports: Seq::new(self.imports@.len(), |i: int| (self.imports@[i].0@, self.imports@[i].1@)),
            options: self.options,
        }
    }
}

/// One fragment file's records: any subset of the seven collections.
#[derive(Debug)]
pub struct DataFile {
    pub persons: Vec<Person>,
    pub systems: Vec<SoftwareSystem>,
    pub containers: Vec<Container>,
    pub components: Vec<Component>,
    pub relationships: Vec<Relationship>,
    pub flows: Vec<Flow>,
    pub deployments: Vec<Deployment>,
}

pub struct DataFileV {
    pub persons: Seq<PersonV>,
    pub systems: Seq<SystemV>,
    pub containers: Seq<ContainerV>,
    pub components: Seq<ComponentV>,
    pub relationships: Seq<RelationshipV>,
    pub flows: Seq<FlowV>,
    pub deployments: Seq<DeploymentV>,
}

impl View for DataFile {
    type V = DataFileV;

    open spec fn view(&self) -> DataFileV {
        DataFileV {
            persons: self.persons@.map_values(|p: Person| p@),
            systems: self.systems@.map_values(|s: SoftwareSystem| s@),
            containers: self.containers@.map_values(|c: Container| c@),
            components: self.components@.map_values(|c: Component| c@),
            relationships: self.relationships@.map_values(|r: Relationship| r@),
            flows: self.flows@.map_values(|f: Flow| f@),
            deployments: self.deployments@.map_values(|d: Deployment| d@),
        }
    }
}

/// Hierarchy context inferred from a fragment file's location under the
/// workspace root: a path segment `systems` followed by another segment sets
/// the system id; a container is only ever set explicitly per record.
#[derive(Debug)]
pub struct FileContext {
    pub file_path: String,
    pub system_id: String,
    pub container: String,
}

impl FileContext {
    pub fn new(file_path: String) -> (r: FileContext)
        ensures
            r.file_path == file_path,
            r.system_id@ == Seq::<char>::empty(),
            r.container@ == Seq::<char>::empty(),
    {
        FileContext { file_path, system_id: String::new(), container: String::new() }
    }

    pub fn with_system_id(self, system_id: String) -> (r: FileContext)
        ensures
            r.file_path == self.file_path,
            r.system_id == system_id,
            r.container == self.container,
    {
        FileContext { system_id, ..self }
    }

    pub fn with_container(self, container: String) -> (r: FileContext)
        ensures
            r.file_path == self.file_path,
            r.system_id == self.system_id,
            r.container == container,
    {
        FileContext { container, ..self }
    }
}

/// One workspace file handed to the loader: its path, and its parsed
/// document, or the message of the read or syntax failure that prevented
/// parsing it.
#[derive(Debug)]
pub struct SourceFile {
    pub path: String,
    pub doc: Result<Yaml, String>,
}

/// ASCII lower-casing of one character.
pub open spec fn spec_ascii_lower(c: char) -> char {
    if 'A' <= c && c <= 'Z' {
        (((c as u8) + 32) as char)
    } else {
        c
    }
}

/// ASCII lower-casing of a string.
pub open spec fn spec_lower(s: Seq<char>) -> Seq<char> {
    s.map_values(|c: char| spec_ascii_lower(c))
}

/// The file-name extension of a path: the text after the last dot of the
/// last `/`-separated segment; a lone leading dot names no extension.
pub open spec fn spec_extension(path: Seq<char>) -> Option<Seq<char>> {
    let seg = spec_split(path, '/').last();
    let parts = spec_split(seg, '.');
    if parts.len() < 2 {
        None
    } else if parts.len() == 2 && parts[0].len() == 0 {
        None
    } else {
        Some(parts.last())
    }
}

/// The path names a YAML file: its extension is `yaml` or `yml`, in any
/// letter case.
pub open spec fn spec_is_yaml(path: Seq<char>) -> bool {
    match spec_extension(path) {
        Some(ext) => spec_lower(ext) == "yaml"@ || spec_lower(ext) == "yml"@,
        None => false,
    }
}

fn eq_lowered(a: &str, b: &str) -> (r: bool)
    ensures
        r == (spec_lower(a@) == b@),
{
    let alen = a.unicode_len();
    let blen = b.unicode_len();
    if alen != blen {
        proof {
            assert(spec_lower(a@).len() == a@.len());
        }
        return false;
    }
    let mut i: usize = 0;
    while i < alen
        invariant
            i <= alen,
            forall|j: int| 0 <= j < i ==> spec_ascii_lower(a@[j]) == b@[j],
        decreases alen - i,
    {
        let c = a.get_char(i);
        let lc: char = if 'A' <= c && c <= 'Z' {
            (((c as u8) + 32) as char)
        } else {
            c
        };
        if lc != b.get_char(i) {
            proof {
                assert(spec_lower(a@)[i as int] == spec_ascii_lower(a@[i as int]));
            }
            return false;
        }
        i += 1;
    }
    proof {
        assert(spec_lower(a@) =~= b@);
    }
    true
}

/// True when the path names a YAML file (`.yaml` or `.yml`, any case).
pub fn is_yaml(path: &str) -> (r: bool)
    ensures
        r == spec_is_yaml(path@),
{
    let segs = split_char(path, '/');
    proof {
        lemma_split_nonempty(path@, '/');
        assert(segs@[segs@.len() - 1]@ == segs.deep_view().last());
    }
    let seg = &segs[segs.len() - 1];
    let parts = split_char(seg.as_str(), '.');
    proof {
        lemma_split_nonempty(seg@, '.');
        assert(parts@[parts@.len() - 1]@ == parts.deep_view().last());
        assert(parts@[0]@ == parts.deep_view()[0]);
    }
    if parts.len() < 2 {
        return false;
    }
    if parts.len() == 2 && parts[0].as_str().unicode_len() == 0 {
        return false;
    }
    let ext = &parts[parts.len() - 1];
    eq_lowered(ext.as_str(), "yaml") || eq_lowered(ext.as_str(), "yml")
}

} // verus!
