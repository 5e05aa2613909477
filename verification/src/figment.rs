//! The engine: an ordered merge of providers into one document, scoped by
//! profile.

use vstd::prelude::*;
use crate::error::Error;
use crate::error::ErrorView;
use crate::error::Fault;
use crate::error::FaultView;
use crate::key::folded;
use crate::metadata::lemma_record_added;
use crate::metadata::record_of;
use crate::metadata::registered;
use crate::metadata::Metadata;
use crate::metadata::MetadataView;
use crate::metadata::Registry;
use crate::profile::default_profile;
use crate::profile::global_profile;
use crate::profile::Profile;
use crate::tag::default_tag;
use crate::tag::Id;
use crate::tag::Ids;
use crate::tag::Tag;
use crate::tag::TagView;
use crate::tree::coalesced_entries;
use crate::tree::lemma_coalesce_keeps_absent;
use crate::tree::lemma_coalesced_entries;
use crate::tree::lemma_retagged_lacks;
use crate::tree::lemma_join_keeps_existing;
use crate::tree::lemma_merge_incoming_wins;
use crate::tree::lemma_retagged_find;
use crate::tree::Order;
use crate::tree::Tree;
use crate::value::coalesced_layout;
use crate::value::entries_view;
use crate::value::Layout;
use crate::value::first_at;
use crate::value::key_at;
use crate::value::name_at;
use crate::value::named_at;
use crate::value::lemma_entries_same_keys;
use crate::value::Dict;
use crate::value::Value;

verus! {

/// A source of configuration data. A provider says in its two
/// specification functions what its metadata and its data are; `metadata`
/// and `data` hand out just that.
pub trait Provider {
    /// The metadata of this provider.
    spec fn metadata_spec(&self) -> MetadataView;

    /// The data of this provider, by profile; or the reason why it has
    /// none.
    spec fn data_spec(&self) -> Result<Map<Seq<char>, Tree>, Seq<char>>;

    /// What is to be recorded of this provider.
    fn metadata(&self) -> (m: Metadata)
        ensures
            m@ == self.metadata_spec(),
    ;

    /// The data: a dict whose keys are profile names and whose values are
    /// the dicts of those profiles. An error says why there is none.
    fn data(&self) -> (r: Result<Dict, String>)
        ensures
            match self.data_spec() {
                Ok(d) => r matches Ok(x) && x@ == d,
                Err(reason) => r matches Err(said) && said@ == reason,
            },
    ;
}

/// The error of a provider that gave no data.
pub open spec fn failure(name: Seq<char>, reason: Seq<char>) -> ErrorView {
    ErrorView { fault: FaultView::ProviderFailure(name, reason), path: Seq::empty() }
}

/// The data of a provider with every value stamped: under each profile, every
/// node carries that profile, the identifier of the provider's metadata and
/// the ordinal of the merge.
pub open spec fn stamped(data: Map<Seq<char>, Tree>, id: Id, ordinal: nat) -> Map<
    Seq<char>,
    Tree,
> {
    Map::new(
        |p: Seq<char>| data.dom().contains(p),
        |p: Seq<char>| data[p].retagged(TagView { profile: p, metadata_id: Some(id), ordinal }),
    )
}

/// The entries that a document holds under a profile; none where it holds
/// no dict there.
pub open spec fn scope(document: Map<Seq<char>, Tree>, profile: Seq<char>) -> Map<
    Seq<char>,
    Tree,
> {
    if document.dom().contains(profile) {
        document[profile].entries()
    } else {
        Map::empty()
    }
}

/// Whether a folded profile name is neither `default` nor `global`.
pub open spec fn is_custom(profile: Seq<char>) -> bool {
    profile != default_profile() && profile != global_profile()
}

/// What a document holds for a selected profile: the entries of `default`,
/// over them those of the selected profile where it is a custom one, and
/// over both those of `global`.
pub open spec fn projected(document: Map<Seq<char>, Tree>, selected: Seq<char>) -> Map<
    Seq<char>,
    Tree,
> {
    let base = scope(document, default_profile());
    let chosen = if is_custom(selected) {
        coalesced_entries(base, scope(document, selected), Order::Merge)
    } else {
        base
    };
    coalesced_entries(chosen, scope(document, global_profile()), Order::Merge)
}

/// The layout of the data of a provider with every value stamped: under each
/// profile, every tag carries the name of that profile as the data spells
/// it.
pub open spec fn stamped_layout(data: Seq<(Seq<char>, Layout)>) -> Seq<(Seq<char>, Layout)> {
    Seq::new(data.len(), |i: int| (data[i].0, data[i].1.respelled(data[i].0)))
}

/// The layout of the dict that a document holds under a profile; no entries
/// where it holds no dict there.
pub open spec fn scope_layout(
    document: Seq<(Seq<char>, Layout)>,
    profile: Seq<char>,
) -> Seq<(Seq<char>, Layout)> {
    let i = named_at(document, profile);
    if 0 <= i < document.len() {
        match document[i].1 {
            Layout::Table(_, entries) => entries,
            _ => Seq::empty(),
        }
    } else {
        Seq::empty()
    }
}

/// The layout of what a document holds for a selected profile: the keys of
/// `default`, then the new ones of the selected profile where it is a
/// custom one, then the new ones of `global`.
pub open spec fn projected_layout(
    document: Seq<(Seq<char>, Layout)>,
    selected: Seq<char>,
) -> Seq<(Seq<char>, Layout)> {
    let base = scope_layout(document, default_profile());
    let chosen = if is_custom(folded(selected)) {
        coalesced_layout(base, scope_layout(document, selected), Order::Merge)
    } else {
        base
    };
    coalesced_layout(chosen, scope_layout(document, global_profile()), Order::Merge)
}

/// Whether the names of `before` stand in `after` at the same places, spelled
/// the same.
pub open spec fn kept_names(
    before: Seq<(Seq<char>, Layout)>,
    after: Seq<(Seq<char>, Layout)>,
) -> bool {
    after.len() >= before.len() && forall|i: int|
        0 <= i < before.len() ==> (#[trigger] after[i]).0 == before[i].0
}

/// The engine as mathematics.
pub ghost struct FigmentView {
    /// The folded name of the selected profile.
    pub profile: Seq<char>,
    /// The metadata of the providers merged so far, in order.
    pub metadata: Seq<MetadataView>,
    /// The document: under each folded profile name, that profile's table.
    pub document: Map<Seq<char>, Tree>,
}

impl FigmentView {
    /// The engine after one more provider came in with this metadata and
    /// data, in a merge that was given the identifier `id`.
    pub open spec fn merged(
        self,
        id: Id,
        metadata: MetadataView,
        data: Map<Seq<char>, Tree>,
        order: Order,
    ) -> FigmentView {
        FigmentView {
            profile: self.profile,
            metadata: self.metadata.push(registered(metadata, id)),
            document: coalesced_entries(
                self.document,
                stamped(data, id, self.metadata.len()),
                order,
            ),
        }
    }

    /// What the engine holds for the selected profile.
    pub open spec fn projected(self) -> Map<Seq<char>, Tree> {
        projected(self.document, self.profile)
    }
}

/// The engine. It owns the document and the metadata of every provider
/// that was merged into it.
#[derive(Debug)]
pub struct Figment {
    profile: Profile,
    registry: Registry,
    document: Dict,
}

impl View for Figment {
    type V = FigmentView;

    closed spec fn view(&self) -> FigmentView {
        FigmentView {
            profile: self.profile@,
            metadata: self.registry@,
            document: self.document@,
        }
    }
}

/// Stamps the data of a provider: a copy in which, under each profile, every
/// node carries that profile, `id` and `ordinal`.
pub fn stamp(data: &Dict, id: Id, ordinal: u64) -> (r: Dict)
    ensures
        r@ == stamped(data@, id, ordinal as nat),
        r.layout() == stamped_layout(data.layout()),
{
    let n = data.len();
    let mut entries: Vec<(String, Value)> = Vec::new();
    let mut i: usize = 0;
    while i < n
        invariant
            i <= n,
            n == data.entries().len(),
            entries@.len() == i,
            forall|j: int|
                0 <= j < i ==> (#[trigger] entries@[j]).0@ == data.entries()[j].0@
                    && entries@[j].1.view() == data.entries()[j].1.view().retagged(
                    TagView {
                        profile: key_at(data.entries(), j),
                        metadata_id: Some(id),
                        ordinal: ordinal as nat,
                    },
                ) && entries@[j].1.layout() == data.entries()[j].1.layout().respelled(
                    data.entries()[j].0@,
                ),
        decreases n - i,
    {
        let name = data.key(i);
        let tag = Tag::stamped(name, id, ordinal);
        let value = data.value(i).retagged(&tag);
        entries.push((String::from_str(name), value));
        i = i + 1;
    }
    proof {
        assert forall|j: int| 0 <= j < entries@.len() implies #[trigger] key_at(entries@, j)
            == key_at(data.entries(), j) by {
            assert(entries@[j].0@ == data.entries()[j].0@);
        }
        lemma_entries_same_keys(data.entries(), entries@);
        assert(entries_view(entries@) =~= stamped(data@, id, ordinal as nat));
        assert(crate::value::entries_layout(entries@) =~= stamped_layout(
            crate::value::entries_layout(data.entries()),
        ));
    }
    Dict::from_entries(entries)
}

impl Figment {
    /// What the view of the engine leaves out of the document: the profile
    /// names as they are spelled, in the order in which they first came,
    /// each with the layout of its dict.
    pub closed spec fn layout(&self) -> Seq<(Seq<char>, Layout)> {
        self.document.layout()
    }

    /// The name of the selected profile as it is spelled.
    pub closed spec fn selected(&self) -> Seq<char> {
        self.profile.spelling()
    }

    /// An engine without data, with the profile `default` selected.
    pub fn new() -> (f: Figment)
        ensures
            f@ == Figment::empty(),
            f.layout().len() == 0,
    {
        let f = Figment {
            profile: Profile::default_profile(),
            registry: Registry::new(),
            document: Dict::new(),
        };
        assert(f@.metadata =~= Seq::empty());
        f
    }

    /// An engine with the data of one provider, in a merge that gets its
    /// identifier from `ids`.
    pub fn from<P: Provider>(ids: &mut Ids, provider: &P) -> (r: Result<Figment, Error>)
        requires
            old(ids)@ < u64::MAX,
        ensures
            match provider.data_spec() {
                Ok(d) => r matches Ok(f) && f@ == Figment::empty().merged(
                    Id(old(ids)@ as u64),
                    provider.metadata_spec(),
                    d,
                    Order::Merge,
                ) && final(ids)@ == old(ids)@ + 1,
                Err(reason) => r matches Err(e) && e@ == failure(
                    provider.metadata_spec().name,
                    reason,
                ) && final(ids)@ == old(ids)@,
            },
    {
        Figment::new().provide(ids, provider, Order::Merge)
    }

    /// The engine without data, as mathematics.
    pub open spec fn empty() -> FigmentView {
        FigmentView { profile: default_profile(), metadata: Seq::empty(), document: Map::empty() }
    }

    /// Takes in what a provider gave, in a merge that was given the fresh
    /// identifier `id`. Where it gave data, its metadata is registered
    /// under `id`, every value of the data is stamped with `id`, and the
    /// data is brought into the document in the given order. Where it gave
    /// none, nothing is merged and the error names the provider.
    pub fn merge_data(
        self,
        id: Id,
        metadata: Metadata,
        data: Result<Dict, String>,
        order: Order,
    ) -> (r: Result<Figment, Error>)
        ensures
            match data {
                Ok(d) => r matches Ok(f) && f@ == self@.merged(id, metadata@, d@, order)
                    && f.layout() == coalesced_layout(
                    self.layout(),
                    stamped_layout(d.layout()),
                    order,
                )
                    && f.selected() == self.selected() && kept_names(self.layout(), f.layout()),
                Err(reason) => r matches Err(e) && e@ == failure(metadata@.name, reason@),
            },
    {
        match data {
            Ok(d) => {
                let Figment { profile, registry, document } = self;
                let mut registry = registry;
                let ordinal = registry.len() as u64;
                registry.register(id, metadata);
                let incoming = stamp(&d, id, ordinal);
                let document = document.coalesce(incoming, order);
                Ok(Figment { profile, registry, document })
            },
            Err(reason) => Err(Error::new(Fault::ProviderFailure(metadata.name, reason))),
        }
    }

    /// Brings a provider in, in the given order. Where the provider has
    /// data, the merge takes the next identifier of `ids`; where it has
    /// none, no identifier is taken, nothing is merged and the error names
    /// the provider.
    pub fn provide<P: Provider>(self, ids: &mut Ids, provider: &P, order: Order) -> (r: Result<
        Figment,
        Error,
    >)
        requires
            old(ids)@ < u64::MAX,
        ensures
            match provider.data_spec() {
                Ok(d) => r matches Ok(f) && f@ == self@.merged(
                    Id(old(ids)@ as u64),
                    provider.metadata_spec(),
                    d,
                    order,
                ) && final(ids)@ == old(ids)@ + 1 && f.selected() == self.selected()
                    && kept_names(self.layout(), f.layout()),
                Err(reason) => r matches Err(e) && e@ == failure(
                    provider.metadata_spec().name,
                    reason,
                ) && final(ids)@ == old(ids)@,
            },
    {
        let metadata = provider.metadata();
        match provider.data() {
            Ok(d) => {
                let id = ids.issue();
                self.merge_data(id, metadata, Ok(d), order)
            },
            Err(reason) => Err(Error::new(Fault::ProviderFailure(metadata.name, reason))),
        }
    }

    /// Merges a provider: where its data meets data that is already there,
    /// its data wins.
    pub fn merge<P: Provider>(self, ids: &mut Ids, provider: &P) -> (r: Result<Figment, Error>)
        requires
            old(ids)@ < u64::MAX,
        ensures
            match provider.data_spec() {
                Ok(d) => r matches Ok(f) && f@ == self@.merged(
                    Id(old(ids)@ as u64),
                    provider.metadata_spec(),
                    d,
                    Order::Merge,
                ) && final(ids)@ == old(ids)@ + 1 && f.selected() == self.selected()
                    && kept_names(self.layout(), f.layout()),
                Err(reason) => r matches Err(e) && e@ == failure(
                    provider.metadata_spec().name,
                    reason,
                ) && final(ids)@ == old(ids)@,
            },
    {
        self.provide(ids, provider, Order::Merge)
    }

    /// Joins a provider: where its data meets data that is already there,
    /// the data that is there stays.
    pub fn join<P: Provider>(self, ids: &mut Ids, provider: &P) -> (r: Result<Figment, Error>)
        requires
            old(ids)@ < u64::MAX,
        ensures
            match provider.data_spec() {
                Ok(d) => r matches Ok(f) && f@ == self@.merged(
                    Id(old(ids)@ as u64),
                    provider.metadata_spec(),
                    d,
                    Order::Join,
                ) && final(ids)@ == old(ids)@ + 1 && f.selected() == self.selected()
                    && kept_names(self.layout(), f.layout()),
                Err(reason) => r matches Err(e) && e@ == failure(
                    provider.metadata_spec().name,
                    reason,
                ) && final(ids)@ == old(ids)@,
            },
    {
        self.provide(ids, provider, Order::Join)
    }

    /// Selects the profile to read under.
    pub fn select(self, profile: Profile) -> (f: Figment)
        ensures
            f@ == (FigmentView { profile: profile@, ..self@ }),
            f.layout() == self.layout(),
            f.selected() == profile.spelling(),
    {
        Figment { profile, registry: self.registry, document: self.document }
    }

    /// The selected profile.
    pub fn profile(&self) -> (p: &Profile)
        ensures
            p@ == self@.profile,
            p.spelling() == self.selected(),
    {
        &self.profile
    }

    /// The metadata that a merge into this engine registered under `id`;
    /// none for any other identifier.
    pub fn get_metadata(&self, id: Id) -> (found: Option<&Metadata>)
        ensures
            found is Some == record_of(self@.metadata, id) is Some,
            found matches Some(m) ==> Some(m@) == record_of(self@.metadata, id),
    {
        self.registry.lookup(id)
    }

    /// A copy of the entries that the document holds under a profile.
    fn scope_of(&self, profile: &str) -> (d: Dict)
        ensures
            d@ == scope(self@.document, folded(profile@)),
            d.layout() == scope_layout(self.layout(), profile@),
    {
        let ghost laid = self.document.layout();
        let ghost entries = self.document.entries();
        let ghost k = folded(profile@);
        proof {
            assert forall|j: int| 0 <= j < entries.len() implies #[trigger] name_at(laid, j)
                == key_at(entries, j) by {}
        }
        match self.document.get(profile) {
            Some(v) => {
                proof {
                    let f = first_at(entries, k);
                    crate::value::lemma_entries_lookup(entries, k);
                    assert(name_at(laid, f) == k);
                    let at = named_at(laid, profile@);
                    assert(0 <= at < laid.len() && name_at(laid, at) == k);
                    assert(key_at(entries, at) == k);
                    assert(at == f);
                    assert(laid[f].1 == v.layout());
                }
                match v.as_dict() {
                    Some(d) => d.duplicate(),
                    None => {
                        let d = Dict::new();
                        assert(d.layout() =~= Seq::<(Seq<char>, Layout)>::empty());
                        d
                    },
                }
            },
            None => {
                proof {
                    crate::value::lemma_entries_lookup(entries, k);
                    if exists|j: int| 0 <= j < laid.len() && #[trigger] name_at(laid, j) == k {
                        let j = choose|j: int|
                            0 <= j < laid.len() && #[trigger] name_at(laid, j) == k;
                        assert(key_at(entries, j) == k);
                    }
                    assert(named_at(laid, profile@) == laid.len());
                }
                let d = Dict::new();
                assert(d.layout() =~= Seq::<(Seq<char>, Layout)>::empty());
                d
            },
        }
    }

    /// What the engine holds for the selected profile, as one dict with the
    /// default tag.
    pub fn merged(&self) -> (v: Value)
        ensures
            v@ == Tree::Table(default_tag(), self@.projected()),
            v.layout() == Layout::Table(
                "default"@,
                projected_layout(self.layout(), self.selected()),
            ),
    {
        proof {
            crate::profile::lemma_reserved_profiles();
        }
        let base = self.scope_of("default");
        let chosen = if self.profile.is_custom() {
            base.coalesce(self.scope_of(self.profile.as_str()), Order::Merge)
        } else {
            base
        };
        let all = chosen.coalesce(self.scope_of("global"), Order::Merge);
        Value::from_dict(all)
    }
}

/// A value merged under `global` is visible under every selected profile:
/// what the `global` table holds at a path, if it is no table, is what the
/// projection holds there.
pub proof fn lemma_global_visible(
    document: Map<Seq<char>, Tree>,
    selected: Seq<char>,
    path: Seq<Seq<char>>,
)
    requires
        Tree::Table(default_tag(), scope(document, global_profile())).find(path) is Some,
        !(Tree::Table(default_tag(), scope(document, global_profile())).find(path)->Some_0
            is Table),
    ensures
        Tree::Table(default_tag(), projected(document, selected)).find(path) == Tree::Table(
            default_tag(),
            scope(document, global_profile()),
        ).find(path),
{
    let base = scope(document, default_profile());
    let chosen = if is_custom(selected) {
        coalesced_entries(base, scope(document, selected), Order::Merge)
    } else {
        base
    };
    let global = scope(document, global_profile());
    lemma_coalesced_entries(chosen, global, Order::Merge);
    lemma_merge_incoming_wins(
        Tree::Table(default_tag(), chosen),
        Tree::Table(default_tag(), global),
        path,
    );
}

/// A value of the selected profile wins over `default`: what the selected
/// custom profile holds at a path, if it is no table, is what the
/// projection holds there, unless `global` has the first key of the path.
pub proof fn lemma_selected_wins(
    document: Map<Seq<char>, Tree>,
    selected: Seq<char>,
    path: Seq<Seq<char>>,
)
    requires
        is_custom(selected),
        path.len() > 0,
        !scope(document, global_profile()).dom().contains(path[0]),
        Tree::Table(default_tag(), scope(document, selected)).find(path) is Some,
        !(Tree::Table(default_tag(), scope(document, selected)).find(path)->Some_0 is Table),
    ensures
        Tree::Table(default_tag(), projected(document, selected)).find(path) == Tree::Table(
            default_tag(),
            scope(document, selected),
        ).find(path),
{
    let base = scope(document, default_profile());
    let chosen = coalesced_entries(base, scope(document, selected), Order::Merge);
    let global = scope(document, global_profile());
    lemma_coalesced_entries(base, scope(document, selected), Order::Merge);
    lemma_coalesced_entries(chosen, global, Order::Merge);
    lemma_merge_incoming_wins(
        Tree::Table(default_tag(), base),
        Tree::Table(default_tag(), scope(document, selected)),
        path,
    );
}

/// A value merged under `default` is visible exactly where nothing else
/// is: under a key that neither the selected profile nor `global` has, the
/// projection holds what `default` holds; and a key of the projection that
/// `default` alone could have given is a key of `default`.
pub proof fn lemma_default_fallback(
    document: Map<Seq<char>, Tree>,
    selected: Seq<char>,
    key: Seq<char>,
)
    requires
        !is_custom(selected) || !scope(document, selected).dom().contains(key),
        !scope(document, global_profile()).dom().contains(key),
    ensures
        projected(document, selected).dom().contains(key) == scope(
            document,
            default_profile(),
        ).dom().contains(key),
        scope(document, default_profile()).dom().contains(key) ==> projected(
            document,
            selected,
        )[key] == scope(document, default_profile())[key],
{
    let base = scope(document, default_profile());
    let chosen = if is_custom(selected) {
        coalesced_entries(base, scope(document, selected), Order::Merge)
    } else {
        base
    };
    lemma_coalesced_entries(base, scope(document, selected), Order::Merge);
    lemma_coalesced_entries(chosen, scope(document, global_profile()), Order::Merge);
}

/// Every value that a merge brings in carries the identifier that the
/// merge issued: whatever stands at a path under a profile of the stamped
/// data has that profile, that identifier and that ordinal as its tag.
pub proof fn lemma_stamped_tags(
    data: Map<Seq<char>, Tree>,
    id: Id,
    ordinal: nat,
    profile: Seq<char>,
    path: Seq<Seq<char>>,
)
    requires
        data.dom().contains(profile),
        data[profile].find(path) is Some,
    ensures
        stamped(data, id, ordinal)[profile].find(path) is Some,
        stamped(data, id, ordinal)[profile].find(path)->Some_0.tag() == (TagView {
            profile,
            metadata_id: Some(id),
            ordinal,
        }),
        stamped(data, id, ordinal)[profile].find(path)->Some_0.content() == data[profile].find(
            path,
        )->Some_0.content(),
{
    let tag = TagView { profile, metadata_id: Some(id), ordinal };
    lemma_retagged_find(data[profile], tag, path);
    let v = data[profile].find(path)->Some_0;
    lemma_retagged_find(v, tag, Seq::empty());
    crate::tree::lemma_retagged_twice(v, tag, default_tag());
}

/// Identifiers follow the order of the merges and none is used twice:
/// of two merges that take their identifiers from one source, one after
/// the other, into whatever engines, the second gets the greater
/// identifier, and each engine finds the metadata of its merge under the
/// identifier of that merge.
pub proof fn lemma_ids_increase(
    first: FigmentView,
    second: FigmentView,
    next: nat,
    m1: MetadataView,
    d1: Map<Seq<char>, Tree>,
    o1: Order,
    m2: MetadataView,
    d2: Map<Seq<char>, Tree>,
    o2: Order,
)
    requires
        next + 1 <= u64::MAX,
    ensures
        Id(next as u64) != Id((next + 1) as u64),
        Id(next as u64).0 < Id((next + 1) as u64).0,
        record_of(first.merged(Id(next as u64), m1, d1, o1).metadata, Id(next as u64)) == Some(
            registered(m1, Id(next as u64)),
        ),
        record_of(
            second.merged(Id((next + 1) as u64), m2, d2, o2).metadata,
            Id((next + 1) as u64),
        ) == Some(registered(m2, Id((next + 1) as u64))),
        record_of(
            first.merged(Id(next as u64), m1, d1, o1).merged(
                Id((next + 1) as u64),
                m2,
                d2,
                o2,
            ).metadata,
            Id(next as u64),
        ) == Some(registered(m1, Id(next as u64))),
{
    lemma_record_added(first.metadata, m1, Id(next as u64));
    lemma_record_added(second.metadata, m2, Id((next + 1) as u64));
    lemma_record_added(
        first.metadata.push(registered(m1, Id(next as u64))),
        m2,
        Id((next + 1) as u64),
    );
}

/// Last write wins: what the data of a merged provider holds at a path
/// under a profile, if it is no table, is what the document holds there
/// after the merge, whatever it held before, and it carries the tag of
/// that merge.
pub proof fn lemma_merge_last_write_wins(
    f: FigmentView,
    id: Id,
    metadata: MetadataView,
    data: Map<Seq<char>, Tree>,
    profile: Seq<char>,
    path: Seq<Seq<char>>,
)
    requires
        data.dom().contains(profile),
        data[profile].find(path) is Some,
        !(data[profile].find(path)->Some_0 is Table),
    ensures
        f.merged(id, metadata, data, Order::Merge).document.dom().contains(profile),
        f.merged(id, metadata, data, Order::Merge).document[profile].find(path) == Some(
            data[profile].find(path)->Some_0.retagged(
                TagView { profile, metadata_id: Some(id), ordinal: f.metadata.len() },
            ),
        ),
{
    let tag = TagView { profile, metadata_id: Some(id), ordinal: f.metadata.len() };
    let incoming = stamped(data, id, f.metadata.len());
    lemma_retagged_find(data[profile], tag, path);
    lemma_coalesced_entries(f.document, incoming, Order::Merge);
    if f.document.dom().contains(profile) {
        lemma_merge_incoming_wins(f.document[profile], incoming[profile], path);
    }
}

/// A join never overwrites: what the document holds at a path under a
/// profile, if it is no table, is what it holds there after a join,
/// whatever the joined provider gave.
pub proof fn lemma_join_never_overwrites(
    f: FigmentView,
    id: Id,
    metadata: MetadataView,
    data: Map<Seq<char>, Tree>,
    profile: Seq<char>,
    path: Seq<Seq<char>>,
)
    requires
        f.document.dom().contains(profile),
        f.document[profile].find(path) is Some,
        !(f.document[profile].find(path)->Some_0 is Table),
    ensures
        f.merged(id, metadata, data, Order::Join).document.dom().contains(profile),
        f.merged(id, metadata, data, Order::Join).document[profile].find(path)
            == f.document[profile].find(path),
{
    let incoming = stamped(data, id, f.metadata.len());
    lemma_coalesced_entries(f.document, incoming, Order::Join);
    if incoming.dom().contains(profile) {
        lemma_join_keeps_existing(f.document[profile], incoming[profile], path);
    }
}

/// What a later provider lacks is kept: what the document holds at a path
/// under a profile is what it holds there after a merge or a join of a
/// provider whose data has nothing under that profile, or lacks a key on
/// the way.
pub proof fn lemma_merge_keeps_missing(
    f: FigmentView,
    id: Id,
    metadata: MetadataView,
    data: Map<Seq<char>, Tree>,
    order: Order,
    profile: Seq<char>,
    path: Seq<Seq<char>>,
)
    requires
        f.document.dom().contains(profile),
        f.document[profile].find(path) is Some,
        !data.dom().contains(profile) || data[profile].lacks(path),
    ensures
        f.merged(id, metadata, data, order).document.dom().contains(profile),
        f.merged(id, metadata, data, order).document[profile].find(path)
            == f.document[profile].find(path),
{
    let incoming = stamped(data, id, f.metadata.len());
    lemma_coalesced_entries(f.document, incoming, order);
    if data.dom().contains(profile) {
        let tag = TagView { profile, metadata_id: Some(id), ordinal: f.metadata.len() };
        lemma_retagged_lacks(data[profile], tag, path);
        lemma_coalesce_keeps_absent(f.document[profile], incoming[profile], order, path);
    }
}

} // verus!
