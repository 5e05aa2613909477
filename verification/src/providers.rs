//! Providers that hold their data in memory: a single key with its value,
//! and the contents of a source that was read and parsed elsewhere.

use vstd::prelude::*;
use crate::error::texts;
use crate::figment::Provider;
use crate::key::folded;
use crate::metadata::Metadata;
use crate::metadata::MetadataView;
use crate::metadata::Source;
use crate::metadata::SourceView;
use crate::path::folded_keys;
use crate::path::segments;
use crate::path::split;
use crate::profile::Profile;
use crate::tag::default_tag;
use crate::tree::Tree;
use crate::value::Dict;
use crate::value::Value;

verus! {

/// A value under a path of keys: a dict with the first key, under it a dict
/// with the second, and so on down to the value.
pub open spec fn nested(keys: Seq<Seq<char>>, leaf: Tree) -> Tree
    decreases keys.len(),
{
    if keys.len() == 0 {
        leaf
    } else {
        Tree::Table(
            default_tag(),
            Map::<Seq<char>, Tree>::empty().insert(
                folded(keys[0]),
                nested(keys.drop_first(), leaf),
            ),
        )
    }
}

/// The value is found again at the path it was put under.
pub proof fn lemma_nested_find(keys: Seq<Seq<char>>, leaf: Tree)
    ensures
        nested(keys, leaf).find(folded_keys(keys)) == Some(leaf),
    decreases keys.len(),
{
    if keys.len() > 0 {
        lemma_nested_find(keys.drop_first(), leaf);
        assert(folded_keys(keys).drop_first() =~= folded_keys(keys.drop_first()));
    }
}

/// Puts a value under a path of keys.
pub fn nest(keys: &Vec<String>, leaf: Value) -> (v: Value)
    ensures
        v@ == nested(texts(keys@), leaf@),
{
    let ghost all = texts(keys@);
    let ghost bottom = leaf@;
    let mut value = leaf;
    let mut i: usize = keys.len();
    proof {
        assert(all.subrange(i as int, all.len() as int) =~= Seq::<Seq<char>>::empty());
    }
    while i > 0
        invariant
            i <= keys@.len(),
            all == texts(keys@),
            value@ == nested(all.subrange(i as int, all.len() as int), bottom),
        decreases i,
    {
        i = i - 1;
        let ghost rest = all.subrange(i as int, all.len() as int);
        proof {
            assert(rest.drop_first() =~= all.subrange(i as int + 1, all.len() as int));
            assert(rest[0] == keys@[i as int]@);
        }
        let mut dict = Dict::new();
        dict.insert(keys[i].clone(), value);
        value = Value::from_dict(dict);
    }
    proof {
        assert(all.subrange(0, all.len() as int) =~= all);
    }
    value
}

/// A provider of one value under one dotted key, in one profile.
#[derive(Debug)]
pub struct Literal {
    key: String,
    value: Value,
    profile: Profile,
}

impl Literal {
    /// The dotted key.
    pub closed spec fn key_text(&self) -> Seq<char> {
        self.key@
    }

    /// The value.
    pub closed spec fn value_tree(&self) -> Tree {
        self.value@
    }

    /// The folded name of the profile.
    pub closed spec fn profile_name(&self) -> Seq<char> {
        self.profile@
    }

    /// The data that this provider gives: under its profile, the value under
    /// its key.
    pub open spec fn data_view(&self) -> Map<Seq<char>, Tree> {
        Map::<Seq<char>, Tree>::empty().insert(
            self.profile_name(),
            nested(segments(self.key_text()), self.value_tree()),
        )
    }

    /// The value `value` under the dotted key `key`, in the profile
    /// `default`.
    pub fn new(key: &str, value: Value) -> (p: Literal)
        ensures
            p.key_text() == key@,
            p.value_tree() == value@,
            p.profile_name() == crate::profile::default_profile(),
    {
        Literal { key: String::from_str(key), value, profile: Profile::default_profile() }
    }

    /// The same value and key in another profile.
    pub fn profile(self, profile: Profile) -> (p: Literal)
        ensures
            p.key_text() == self.key_text(),
            p.value_tree() == self.value_tree(),
            p.profile_name() == profile@,
    {
        Literal { key: self.key, value: self.value, profile }
    }
}

impl Provider for Literal {
    open spec fn metadata_spec(&self) -> MetadataView {
        MetadataView {
            id: None,
            name: "literal"@,
            source: Some(SourceView::Literal),
            interpolate: false,
        }
    }

    open spec fn data_spec(&self) -> Result<Map<Seq<char>, Tree>, Seq<char>> {
        Ok(self.data_view())
    }

    fn metadata(&self) -> (m: Metadata) {
        Metadata::named("literal").source(Source::Literal)
    }

    fn data(&self) -> (r: Result<Dict, String>) {
        let keys = split(self.key.as_str());
        let value = nest(&keys, self.value.duplicate());
        let mut data = Dict::new();
        data.insert(String::from_str(self.profile.as_str()), value);
        Ok(data)
    }
}

/// A provider of the contents of a source that was read and parsed
/// elsewhere, or of the reason why it could not be.
#[derive(Debug)]
pub struct Loaded {
    metadata: Metadata,
    contents: Result<Dict, String>,
    profile: Option<Profile>,
}

impl Loaded {
    /// The metadata that this provider gives.
    pub closed spec fn metadata_view(&self) -> MetadataView {
        self.metadata@
    }

    /// The contents, where the source could be read.
    pub closed spec fn contents(&self) -> Option<Map<Seq<char>, Tree>> {
        match self.contents {
            Ok(d) => Some(d@),
            Err(_) => None,
        }
    }

    /// Why there are no contents, where the source could not be read.
    pub closed spec fn reason(&self) -> Seq<char> {
        match self.contents {
            Ok(_) => Seq::empty(),
            Err(reason) => reason@,
        }
    }

    /// The profile that the contents belong to; none where the top-level
    /// keys of the contents are themselves profiles.
    pub closed spec fn profile_name(&self) -> Option<Seq<char>> {
        match self.profile {
            Some(p) => Some(p@),
            None => None,
        }
    }

    /// The data that this provider gives for its contents: the contents
    /// themselves where their top-level keys are profiles, else the contents
    /// under the profile that they belong to.
    pub open spec fn data_view(&self) -> Map<Seq<char>, Tree> {
        match self.profile_name() {
            Some(p) => Map::<Seq<char>, Tree>::empty().insert(
                p,
                Tree::Table(default_tag(), self.contents()->Some_0),
            ),
            None => self.contents()->Some_0,
        }
    }

    /// The contents of the file at `path`, for the profile `default`.
    pub fn file(name: &str, path: &str, contents: Dict) -> (p: Loaded)
        ensures
            p.metadata_view() == (MetadataView {
                id: None,
                name: name@,
                source: Some(SourceView::File(path@)),
                interpolate: false,
            }),
            p.contents() == Some(contents@),
            p.profile_name() == Some(crate::profile::default_profile()),
    {
        Loaded {
            metadata: Metadata::named(name).source(Source::File(String::from_str(path))),
            contents: Ok(contents),
            profile: Some(Profile::default_profile()),
        }
    }

    /// Contents that came from no file, for the profile `default`.
    pub fn from(metadata: Metadata, contents: Dict) -> (p: Loaded)
        ensures
            p.metadata_view() == metadata@,
            p.contents() == Some(contents@),
            p.profile_name() == Some(crate::profile::default_profile()),
    {
        Loaded { metadata, contents: Ok(contents), profile: Some(Profile::default_profile()) }
    }

    /// A source that could not be read or parsed, and why.
    pub fn failed(metadata: Metadata, reason: &str) -> (p: Loaded)
        ensures
            p.metadata_view() == metadata@,
            p.contents() is None,
            p.reason() == reason@,
            p.profile_name() == Some(crate::profile::default_profile()),
    {
        Loaded {
            metadata,
            contents: Err(String::from_str(reason)),
            profile: Some(Profile::default_profile()),
        }
    }

    /// The same contents, read as nested: each top-level key is a profile
    /// and its value the dict of that profile.
    pub fn nested(self) -> (p: Loaded)
        ensures
            p.metadata_view() == self.metadata_view(),
            p.contents() == self.contents(),
            p.reason() == self.reason(),
            p.profile_name() is None,
    {
        Loaded { metadata: self.metadata, contents: self.contents, profile: None }
    }

    /// The same contents, for the given profile.
    pub fn profile(self, profile: Profile) -> (p: Loaded)
        ensures
            p.metadata_view() == self.metadata_view(),
            p.contents() == self.contents(),
            p.reason() == self.reason(),
            p.profile_name() == Some(profile@),
    {
        Loaded { metadata: self.metadata, contents: self.contents, profile: Some(profile) }
    }
}

impl Provider for Loaded {
    open spec fn metadata_spec(&self) -> MetadataView {
        self.metadata_view()
    }

    open spec fn data_spec(&self) -> Result<Map<Seq<char>, Tree>, Seq<char>> {
        match self.contents() {
            Some(_) => Ok(self.data_view()),
            None => Err(self.reason()),
        }
    }

    fn metadata(&self) -> (m: Metadata) {
        Metadata {
            id: self.metadata.id,
            name: self.metadata.name.clone(),
            source: match &self.metadata.source {
                Some(s) => Some(s.duplicate()),
                None => None,
            },
            interpolate: self.metadata.interpolate,
        }
    }

    fn data(&self) -> (r: Result<Dict, String>) {
        match &self.contents {
            Ok(contents) => match &self.profile {
                Some(p) => {
                    let mut data = Dict::new();
                    data.insert(
                        String::from_str(p.as_str()),
                        Value::from_dict(contents.duplicate()),
                    );
                    Ok(data)
                },
                None => Ok(contents.duplicate()),
            },
            Err(reason) => Err(reason.clone()),
        }
    }
}

} // verus!
