//! An owned, untyped document tree for YAML-shaped data (also the shape of
//! JSON data).  The loader interprets fragment files from this tree, and the
//! writer edits it while preserving every node it was not asked to touch.
//! Scalars the model never interprets (floats, timestamps, ...) are carried
//! opaquely in textual form by the `Other` variant.

use vstd::prelude::*;
use crate::strutil::str_eq;

verus! {

/// One node of an untyped YAML/JSON document tree.
#[derive(Debug)]
pub enum Yaml {
    Null,
    Bool(bool),
    Int(i64),
    Str(String),
    /// An uninterpreted scalar, kept as its textual form.
    Other(String),
    List(Vec<Yaml>),
    /// A mapping as an ordered list of key/value pairs; key order is part of
    /// the document and is preserved by every edit.
    Dict(Vec<(String, Yaml)>),
}

/// The mathematical value of a document tree.
pub enum YamlView {
    Null,
    Bool(bool),
    Int(int),
    Str(Seq<char>),
    Other(Seq<char>),
    List(Seq<YamlView>),
    Dict(Seq<(Seq<char>, YamlView)>),
}

pub open spec fn yaml_view(y: Yaml) -> YamlView
    decreases y,
{
    match y {
        Yaml::Null => YamlView::Null,
        Yaml::Bool(b) => YamlView::Bool(b),
        Yaml::Int(i) => YamlView::Int(i as int),
        Yaml::Str(s) => YamlView::Str(s@),
        Yaml::Other(s) => YamlView::Other(s@),
        Yaml::List(items) => {
            proof {
                assert(decreases_to!(y => items));
                assert(decreases_to!(items => items@));
            }
            YamlView::List(yaml_views(items@))
        },
        Yaml::Dict(entries) => {
            proof {
                assert(decreases_to!(y => entries));
                assert(decreases_to!(entries => entries@));
            }
            YamlView::Dict(entry_views(entries@))
        },
    }
}

pub open spec fn yaml_views(items: Seq<Yaml>) -> Seq<YamlView>
    decreases items,
{
    if items.len() == 0 {
        Seq::empty()
    } else {
        proof {
            assert(decreases_to!(items => items[0]));
        }
        seq![yaml_view(items[0])] + yaml_views(items.drop_first())
    }
}

pub open spec fn entry_views(entries: Seq<(String, Yaml)>) -> Seq<(Seq<char>, YamlView)>
    decreases entries,
{
    if entries.len() == 0 {
        Seq::empty()
    } else {
        proof {
            assert(decreases_to!(entries => entries[0].1));
        }
        seq![(entries[0].0@, yaml_view(entries[0].1))] + entry_views(entries.drop_first())
    }
}

pub proof fn lemma_yaml_views(items: Seq<Yaml>)
    ensures
        yaml_views(items).len() == items.len(),
        forall|i: int|
            0 <= i < items.len() ==> yaml_views(items)[i] == yaml_view(#[trigger] items[i]),
    decreases items,
{
    if items.len() > 0 {
        lemma_yaml_views(items.drop_first());
        assert forall|i: int| 0 <= i < items.len() implies yaml_views(items)[i] == yaml_view(
            #[trigger] items[i],
        ) by {
            if i > 0 {
                assert(items.drop_first()[i - 1] == items[i]);
                assert(yaml_views(items)[i] == yaml_views(items.drop_first())[i - 1]);
            }
        }
    }
}

pub proof fn lemma_entry_views(entries: Seq<(String, Yaml)>)
    ensures
        entry_views(entries).len() == entries.len(),
        forall|i: int|
            0 <= i < entries.len() ==> entry_views(entries)[i] == ((#[trigger] entries[i]).0@,
            yaml_view(entries[i].1)),
    decreases entries,
{
    if entries.len() > 0 {
        lemma_entry_views(entries.drop_first());
        assert forall|i: int|
            0 <= i < entries.len() implies entry_views(entries)[i] == ((#[trigger] entries[i]).0@,
        yaml_view(entries[i].1)) by {
            if i > 0 {
                assert(entries.drop_first()[i - 1] == entries[i]);
                assert(entry_views(entries)[i] == entry_views(entries.drop_first())[i - 1]);
            }
        }
    }
}

impl View for Yaml {
    type V = YamlView;

    open spec fn view(&self) -> YamlView {
        yaml_view(*self)
    }
}

/// Index of the first entry with the given key, or -1 when absent.
pub open spec fn spec_key_index(entries: Seq<(Seq<char>, YamlView)>, key: Seq<char>) -> int
    decreases entries.len(),
{
    if entries.len() == 0 {
        -1
    } else if entries[0].0 == key {
        0
    } else {
        let r = spec_key_index(entries.drop_first(), key);
        if r < 0 {
            -1
        } else {
            r + 1
        }
    }
}

/// The value at the first entry with the given key, if any.
pub open spec fn spec_dict_get(entries: Seq<(Seq<char>, YamlView)>, key: Seq<char>) -> Option<
    YamlView,
> {
    let i = spec_key_index(entries, key);
    if i < 0 {
        None
    } else {
        Some(entries[i].1)
    }
}

pub proof fn lemma_key_index(entries: Seq<(Seq<char>, YamlView)>, key: Seq<char>)
    ensures
        spec_key_index(entries, key) < 0 ==> forall|j: int|
            0 <= j < entries.len() ==> (#[trigger] entries[j]).0 != key,
        spec_key_index(entries, key) >= 0 ==> {
            let i = spec_key_index(entries, key);
            &&& i < entries.len()
            &&& entries[i].0 == key
            &&& forall|j: int| 0 <= j < i ==> (#[trigger] entries[j]).0 != key
        },
    decreases entries.len(),
{
    if entries.len() > 0 && entries[0].0 != key {
        lemma_key_index(entries.drop_first(), key);
        assert(forall|j: int|
            1 <= j < entries.len() ==> #[trigger] entries[j] == entries.drop_first()[j - 1]);
    }
}

/// The first occurrence fully determines the key index.
pub proof fn lemma_key_index_is(entries: Seq<(Seq<char>, YamlView)>, key: Seq<char>, i: int)
    requires
        0 <= i < entries.len(),
        entries[i].0 == key,
        forall|j: int| 0 <= j < i ==> (#[trigger] entries[j]).0 != key,
    ensures
        spec_key_index(entries, key) == i,
        spec_dict_get(entries, key) == Some(entries[i].1),
{
    lemma_key_index(entries, key);
    let x = spec_key_index(entries, key);
    if x < 0 {
        assert(entries[i].0 != key);
    } else if x < i {
        assert(entries[x].0 != key);
    } else if x > i {
        assert(entries[i].0 != key);
    }
}

/// A key under none of the entries is not found.
pub proof fn lemma_dict_get_none(entries: Seq<(Seq<char>, YamlView)>, key: Seq<char>)
    requires
        forall|j: int| 0 <= j < entries.len() ==> (#[trigger] entries[j]).0 != key,
    ensures
        spec_dict_get(entries, key) is None,
{
    lemma_key_index(entries, key);
    if spec_key_index(entries, key) >= 0 {
        assert(entries[spec_key_index(entries, key)].0 != key);
    }
}

impl Yaml {
    /// Deep copy; the copy has the same mathematical value.
    pub fn duplicate(&self) -> (r: Yaml)
        ensures
            r@ == self@,
        decreases *self,
    {
        match self {
            Yaml::Null => Yaml::Null,
            Yaml::Bool(b) => Yaml::Bool(*b),
            Yaml::Int(i) => Yaml::Int(*i),
            Yaml::Str(s) => Yaml::Str(s.clone()),
            Yaml::Other(s) => Yaml::Other(s.clone()),
            Yaml::List(items) => {
                let mut out: Vec<Yaml> = Vec::new();
                let mut i: usize = 0;
                while i < items.len()
                    invariant
                        i <= items.len(),
                        out@.len() == i,
                        forall|j: int| 0 <= j < i ==> (#[trigger] out@[j])@ == items@[j]@,
                    decreases items.len() - i,
                {
                    proof {
                        assert(decreases_to!(*self => self->List_0));
                        assert(self->List_0 == *items);
                        assert(decreases_to!(*items => items@));
                        assert(decreases_to!(items@ => items@[i as int]));
                    }
                    out.push(items[i].duplicate());
                    i += 1;
                }
                proof {
                    lemma_yaml_views(out@);
                    lemma_yaml_views(items@);
                    assert forall|j: int| 0 <= j < items@.len() implies yaml_views(out@)[j]
                        == yaml_views(items@)[j] by {
                        assert((out@[j])@ == items@[j]@);
                    }
                    assert(yaml_views(out@) =~= yaml_views(items@));
                }
                Yaml::List(out)
            },
            Yaml::Dict(entries) => {
                let mut out: Vec<(String, Yaml)> = Vec::new();
                let mut i: usize = 0;
                while i < entries.len()
                    invariant
                        i <= entries.len(),
                        out@.len() == i,
                        forall|j: int|
                            0 <= j < i ==> (#[trigger] out@[j]).0@ == entries@[j].0@ && out@[j].1@
                                == entries@[j].1@,
                    decreases entries.len() - i,
                {
                    proof {
                        assert(decreases_to!(*self => self->Dict_0));
                        assert(self->Dict_0 == *entries);
                        assert(decreases_to!(*entries => entries@));
                        assert(decreases_to!(entries@ => entries@[i as int]));
                        assert(decreases_to!(entries@[i as int] => entries@[i as int].1));
                    }
                    let key = entries[i].0.clone();
                    let val = entries[i].1.duplicate();
                    out.push((key, val));
                    i += 1;
                }
                proof {
                    lemma_entry_views(out@);
                    lemma_entry_views(entries@);
                    assert forall|j: int| 0 <= j < entries@.len() implies entry_views(out@)[j]
                        == entry_views(entries@)[j] by {
                        assert((out@[j]).0@ == entries@[j].0@ && (out@[j]).1@ == entries@[j].1@);
                    }
                    assert(entry_views(out@) =~= entry_views(entries@));
                }
                Yaml::Dict(out)
            },
        }
    }
}

/// First value under `key` in a dictionary's entry list.
pub fn dict_get<'a>(entries: &'a Vec<(String, Yaml)>, key: &str) -> (r: Option<&'a Yaml>)
    ensures
        match r {
            Some(v) => spec_dict_get(entry_views(entries@), key@) == Some(v@) && exists|i: int|
                0 <= i < entries@.len() && *v == (#[trigger] entries@[i]).1,
            None => spec_dict_get(entry_views(entries@), key@) is None,
        },
{
    let ghost evs = entry_views(entries@);
    proof {
        lemma_entry_views(entries@);
    }
    let mut i: usize = 0;
    while i < entries.len()
        invariant
            i <= entries.len(),
            evs == entry_views(entries@),
            evs.len() == entries@.len(),
            forall|i0: int|
                0 <= i0 < entries@.len() ==> #[trigger] evs[i0] == (entries@[i0].0@, yaml_view(
                    entries@[i0].1,
                )),
            forall|j: int| 0 <= j < i ==> (#[trigger] evs[j]).0 != key@,
        decreases entries.len() - i,
    {
        if str_eq(entries[i].0.as_str(), key) {
            proof {
                lemma_key_index(evs, key@);
                let k = spec_key_index(evs, key@);
                assert(evs[i as int].0 == key@);
                assert(k >= 0);
                if k < i {
                    assert(evs[k].0 != key@);
                }
                assert(k >= i);
                if k > i {
                    assert(evs[i as int].0 != key@);
                }
                assert(k == i);
            }
            return Some(&entries[i].1);
        }
        i += 1;
    }
    proof {
        lemma_key_index(evs, key@);
        if spec_key_index(evs, key@) >= 0 {
            let k = spec_key_index(evs, key@);
            assert(evs[k].0 != key@);
        }
    }
    None
}

} // verus!
