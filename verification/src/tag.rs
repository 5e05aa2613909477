//! Provenance tags: which provider, under which profile, produced a value.

use vstd::prelude::*;
use crate::key::folded;

verus! {

/// The identifier of a metadata record. Only the registry that issued an
/// identifier can resolve it.
#[derive(Clone, Copy, Debug, PartialEq, Eq, Structural, Hash, PartialOrd, Ord)]
pub struct Id(pub u64);

/// What a tag says, as mathematics: the folded profile name, the metadata
/// identifier if there is one, and the ordinal of the merge that set it.
pub ghost struct TagView {
    pub profile: Seq<char>,
    pub metadata_id: Option<Id>,
    pub ordinal: nat,
}

/// The view of the tag that values built by application code carry.
pub open spec fn default_tag() -> TagView {
    TagView { profile: "default"@, metadata_id: None, ordinal: 0 }
}

/// The provenance of a value.
#[derive(Debug)]
pub struct Tag {
    profile: String,
    metadata_id: Option<Id>,
    ordinal: u64,
}

impl View for Tag {
    type V = TagView;

    closed spec fn view(&self) -> TagView {
        TagView {
            profile: folded(self.profile@),
            metadata_id: self.metadata_id,
            ordinal: self.ordinal as nat,
        }
    }
}

impl Tag {
    /// The name of the profile as it is spelled; the view holds it folded.
    pub closed spec fn spelling(&self) -> Seq<char> {
        self.profile@
    }

    /// The tag of a value that no provider produced.
    pub fn new() -> (tag: Tag)
        ensures
            tag@ == default_tag(),
            tag.spelling() == "default"@,
    {
        proof {
            lemma_default_is_folded();
        }
        Tag { profile: String::from_str("default"), metadata_id: None, ordinal: 0 }
    }

    /// The tag that the merge numbered `ordinal` sets on the values it takes
    /// from the provider whose metadata is `id`, under `profile`.
    pub fn stamped(profile: &str, id: Id, ordinal: u64) -> (tag: Tag)
        ensures
            tag@ == (TagView {
                profile: folded(profile@),
                metadata_id: Some(id),
                ordinal: ordinal as nat,
            }),
            tag.spelling() == profile@,
    {
        Tag { profile: String::from_str(profile), metadata_id: Some(id), ordinal }
    }

    /// The name of the profile under which the value was merged.
    pub fn profile(&self) -> (name: &str)
        ensures
            name@ == self.spelling(),
            folded(name@) == self@.profile,
    {
        self.profile.as_str()
    }

    /// The identifier of the metadata of the provider that produced the value.
    pub fn metadata_id(&self) -> (id: Option<Id>)
        ensures
            id == self@.metadata_id,
    {
        self.metadata_id
    }

    /// The ordinal of the merge that set this tag; 0 on a default tag.
    pub fn ordinal(&self) -> (n: u64)
        ensures
            n as nat == self@.ordinal,
    {
        self.ordinal
    }

    /// Whether this is the tag of a value that no provider produced.
    pub fn is_default(&self) -> (yes: bool)
        ensures
            yes == (self@.metadata_id is None),
    {
        self.metadata_id.is_none()
    }

    /// A copy of this tag.
    pub fn duplicate(&self) -> (tag: Tag)
        ensures
            tag@ == self@,
            tag.spelling() == self.spelling(),
    {
        Tag { profile: self.profile.clone(), metadata_id: self.metadata_id, ordinal: self.ordinal }
    }
}

/// The name `default` is written in lower case, so folding leaves it alone.
pub proof fn lemma_default_is_folded()
    ensures
        folded("default"@) == "default"@,
{
    reveal_strlit("default");
    assert(folded("default"@) =~= "default"@);
}

/// A source of identifiers: it issues each number once, in rising order.
/// Engines that draw on one source get different identifiers, so one
/// source for a whole process makes identifiers differ across its engines.
#[derive(Debug)]
pub struct Ids {
    next: u64,
}

impl View for Ids {
    type V = nat;

    /// The number of the identifier that comes next.
    closed spec fn view(&self) -> nat {
        self.next as nat
    }
}

impl Ids {
    /// A source that starts at 0.
    pub fn new() -> (ids: Ids)
        ensures
            ids@ == 0,
    {
        Ids { next: 0 }
    }

    /// A source that starts at `first`.
    pub fn starting_at(first: u64) -> (ids: Ids)
        ensures
            ids@ == first,
    {
        Ids { next: first }
    }

    /// Whether the source has an identifier left to issue.
    pub fn has_next(&self) -> (yes: bool)
        ensures
            yes == (self@ < u64::MAX),
    {
        self.next < u64::MAX
    }

    /// Issues the next identifier: one that this source has not issued
    /// before, greater than all that it has.
    pub fn issue(&mut self) -> (id: Id)
        requires
            old(self)@ < u64::MAX,
        ensures
            id.0 == old(self)@,
            final(self)@ == old(self)@ + 1,
    {
        let id = Id(self.next);
        self.next = self.next + 1;
        id
    }
}

} // verus!
