//! Metadata: what is known of each provider whose data was merged.

use vstd::prelude::*;
use crate::tag::Id;

verus! {

/// Where a provider took its data from.
#[derive(Debug)]
pub enum Source {
    /// A file, by its path.
    File(String),
    /// The environment of the process.
    Environment,
    /// A value written in the program.
    Literal,
    /// Anything else, described in words.
    Custom(String),
}

/// A source as mathematics.
pub ghost enum SourceView {
    File(Seq<char>),
    Environment,
    Literal,
    Custom(Seq<char>),
}

impl View for Source {
    type V = SourceView;

    open spec fn view(&self) -> SourceView {
        match self {
            Source::File(p) => SourceView::File(p@),
            Source::Environment => SourceView::Environment,
            Source::Literal => SourceView::Literal,
            Source::Custom(s) => SourceView::Custom(s@),
        }
    }
}

impl SourceView {
    /// The path of the file, where the source is one.
    pub open spec fn file_path(self) -> Option<Seq<char>> {
        match self {
            SourceView::File(p) => Some(p),
            _ => None,
        }
    }
}

impl Source {
    /// The path of the file, where the source is one.
    pub fn file_path(&self) -> (path: Option<&str>)
        ensures
            path is Some == self@.file_path() is Some,
            path matches Some(p) ==> Some(p@) == self@.file_path(),
    {
        match self {
            Source::File(p) => Some(p.as_str()),
            _ => None,
        }
    }

    /// A copy of this source.
    pub fn duplicate(&self) -> (copy: Source)
        ensures
            copy@ == self@,
    {
        match self {
            Source::File(p) => Source::File(p.clone()),
            Source::Environment => Source::Environment,
            Source::Literal => Source::Literal,
            Source::Custom(s) => Source::Custom(s.clone()),
        }
    }
}

/// What is known of one provider: the identifier that the registry gave
/// the record, its name, where its data came from, and whether `${...}` in
/// its strings stands for another value.
#[derive(Debug)]
pub struct Metadata {
    /// The identifier of this record; none until a registry holds it.
    pub id: Option<Id>,
    pub name: String,
    pub source: Option<Source>,
    pub interpolate: bool,
}

/// A metadata record as mathematics.
pub ghost struct MetadataView {
    pub id: Option<Id>,
    pub name: Seq<char>,
    pub source: Option<SourceView>,
    pub interpolate: bool,
}

impl View for Metadata {
    type V = MetadataView;

    open spec fn view(&self) -> MetadataView {
        MetadataView {
            id: self.id,
            name: self.name@,
            source: match self.source {
                Some(s) => Some(s@),
                None => None,
            },
            interpolate: self.interpolate,
        }
    }
}

impl MetadataView {
    /// The path of the file that the provider read, where it read one.
    pub open spec fn file_path(self) -> Option<Seq<char>> {
        match self.source {
            Some(s) => s.file_path(),
            None => None,
        }
    }
}

impl Metadata {
    /// The metadata of a provider of the given name, with no source and
    /// without interpolation, not yet in a registry.
    pub fn named(name: &str) -> (m: Metadata)
        ensures
            m@ == (MetadataView { id: None, name: name@, source: None, interpolate: false }),
    {
        Metadata { id: None, name: String::from_str(name), source: None, interpolate: false }
    }

    /// The same metadata with the given source.
    pub fn source(self, source: Source) -> (m: Metadata)
        ensures
            m@ == (MetadataView { source: Some(source@), ..self@ }),
    {
        Metadata {
            id: self.id,
            name: self.name,
            source: Some(source),
            interpolate: self.interpolate,
        }
    }

    /// The same metadata with interpolation switched on or off.
    pub fn interpolate(self, interpolate: bool) -> (m: Metadata)
        ensures
            m@ == (MetadataView { interpolate, ..self@ }),
    {
        Metadata { id: self.id, name: self.name, source: self.source, interpolate }
    }

    /// The path of the file that the provider read, where it read one.
    pub fn file_path(&self) -> (path: Option<&str>)
        ensures
            path is Some == self@.file_path() is Some,
            path matches Some(p) ==> Some(p@) == self@.file_path(),
    {
        match &self.source {
            Some(s) => s.file_path(),
            None => None,
        }
    }
}

/// The records of the providers merged so far, in the order of their
/// merges, each under the identifier that its merge was given.
#[derive(Debug)]
pub struct Registry {
    records: Vec<Metadata>,
}

impl View for Registry {
    type V = Seq<MetadataView>;

    closed spec fn view(&self) -> Seq<MetadataView> {
        Seq::new(self.records@.len(), |i: int| self.records@[i]@)
    }
}

/// A record as the registry keeps it under `id`.
pub open spec fn registered(record: MetadataView, id: Id) -> MetadataView {
    MetadataView { id: Some(id), ..record }
}

/// The record that a sequence of records holds under an identifier: the
/// latest that carries it.
pub open spec fn record_of(records: Seq<MetadataView>, id: Id) -> Option<MetadataView>
    decreases records.len(),
{
    if records.len() == 0 {
        None
    } else if records.last().id == Some(id) {
        Some(records.last())
    } else {
        record_of(records.drop_last(), id)
    }
}

/// A record that was just added is found under its identifier, and every
/// other identifier finds what it found before.
pub proof fn lemma_record_added(records: Seq<MetadataView>, record: MetadataView, id: Id)
    ensures
        record_of(records.push(registered(record, id)), id) == Some(registered(record, id)),
        forall|other: Id|
            other != id ==> record_of(records.push(registered(record, id)), other)
                == #[trigger] record_of(records, other),
{
    let all = records.push(registered(record, id));
    assert(all.drop_last() =~= records);
}

/// An identifier that no record carries finds nothing.
pub proof fn lemma_record_absent(records: Seq<MetadataView>, id: Id)
    requires
        forall|i: int| 0 <= i < records.len() ==> (#[trigger] records[i]).id != Some(id),
    ensures
        record_of(records, id) is None,
    decreases records.len(),
{
    if records.len() > 0 {
        lemma_record_absent(records.drop_last(), id);
    }
}

impl Registry {
    /// A registry without records.
    pub fn new() -> (r: Registry)
        ensures
            r@.len() == 0,
    {
        Registry { records: Vec::new() }
    }

    /// The number of records.
    pub fn len(&self) -> (n: usize)
        ensures
            n == self@.len(),
    {
        self.records.len()
    }

    /// Adds a record under `id`. The record is kept with that identifier
    /// written into it.
    pub fn register(&mut self, id: Id, record: Metadata)
        ensures
            final(self)@ == old(self)@.push(registered(record@, id)),
    {
        let kept = Metadata {
            id: Some(id),
            name: record.name,
            source: record.source,
            interpolate: record.interpolate,
        };
        self.records.push(kept);
        assert(self@ =~= old(self)@.push(registered(record@, id)));
    }

    /// The record under `id`; none where no merge into this registry was
    /// given that identifier.
    pub fn lookup(&self, id: Id) -> (found: Option<&Metadata>)
        ensures
            found is Some == record_of(self@, id) is Some,
            found matches Some(m) ==> Some(m@) == record_of(self@, id),
    {
        let mut i: usize = self.records.len();
        proof {
            assert(self@.subrange(0, i as int) =~= self@);
        }
        while i > 0
            invariant
                i <= self.records@.len(),
                self@.len() == self.records@.len(),
                record_of(self@, id) == record_of(self@.subrange(0, i as int), id),
            decreases i,
        {
            i = i - 1;
            proof {
                let upto = self@.subrange(0, i as int + 1);
                assert(upto.last() == self.records@[i as int]@);
                assert(upto.drop_last() =~= self@.subrange(0, i as int));
            }
            match self.records[i].id {
                Some(x) => {
                    if x.0 == id.0 {
                        return Some(&self.records[i]);
                    }
                },
                None => {},
            }
        }
        None
    }
}

} // verus!
