//! Configuration values: a self-describing tree in which every node carries
//! the tag of the provider that produced it.

use vstd::prelude::*;
use crate::key::folded;
use crate::key::keys_match;
use crate::tag::Id;
use crate::tag::Tag;
use crate::tag::default_tag;
use crate::tag::TagView;
use crate::tree::Order;
use crate::tree::Tree;

verus! {

/// An integer, stored unsigned or signed.
#[derive(Clone, Copy, Debug)]
pub enum Num {
    Unsigned(u128),
    Signed(i128),
}

impl View for Num {
    type V = int;

    open spec fn view(&self) -> int {
        match self {
            Num::Unsigned(n) => *n as int,
            Num::Signed(n) => *n as int,
        }
    }
}

/// A configuration value.
#[derive(Debug)]
pub enum Value {
    Null(Tag),
    Bool(Tag, bool),
    /// A text, and whether it is meant to be read without regard to case.
    String(Tag, String, bool),
    Num(Tag, Num),
    Array(Tag, Vec<Value>),
    Dict(Tag, Dict),
}

/// A mapping from keys to values. Keys that differ only in ASCII case are
/// one key; the entries keep the order in which their keys first came, and
/// each key keeps the spelling under which it first came.
#[derive(Debug)]
pub struct Dict {
    entries: Vec<(String, Value)>,
}

/// The folded key of the entry at `i`.
pub open spec fn key_at(es: Seq<(String, Value)>, i: int) -> Seq<char> {
    folded(es[i].0@)
}

/// Whether an entry of `es` before position `n` has the folded key `k`.
pub open spec fn has_key(es: Seq<(String, Value)>, n: int, k: Seq<char>) -> bool {
    exists|i: int| 0 <= i < n && i < es.len() && #[trigger] key_at(es, i) == k
}

/// The position of the first entry of `es` with the folded key `k`.
pub open spec fn first_at(es: Seq<(String, Value)>, k: Seq<char>) -> int {
    choose|i: int|
        0 <= i < es.len() && #[trigger] key_at(es, i) == k && !has_key(es, i, k)
}

/// The mapping that a sequence of entries stands for: each folded key with
/// the value of the first entry that has it.
pub open spec fn entries_view(es: Seq<(String, Value)>) -> Map<Seq<char>, Tree>
    decreases es,
{
    Map::new(
        |k: Seq<char>| has_key(es, es.len() as int, k),
        |k: Seq<char>|
            {
                let i = first_at(es, k);
                if 0 <= i < es.len() {
                    es[i].1.view()
                } else {
                    arbitrary()
                }
            },
    )
}

/// The list that a sequence of values stands for.
pub open spec fn items_view(items: Seq<Value>) -> Seq<Tree>
    decreases items,
{
    Seq::new(
        items.len(),
        |i: int|
            if 0 <= i < items.len() {
                items[i].view()
            } else {
                arbitrary()
            },
    )
}

/// What the model of a value leaves out: how each number is stored, the
/// keys of each dict as they are spelled, in their order, and with each
/// node the profile name of its tag as it is spelled.
pub ghost enum Layout {
    /// A null, a boolean or a text.
    Leaf(Seq<char>),
    /// A number, as it is stored.
    Number(Seq<char>, Num),
    List(Seq<char>, Seq<Layout>),
    Table(Seq<char>, Seq<(Seq<char>, Layout)>),
}

/// The layouts of a sequence of entries, each with its key as spelled.
pub open spec fn entries_layout(es: Seq<(String, Value)>) -> Seq<(Seq<char>, Layout)>
    decreases es,
{
    Seq::new(
        es.len(),
        |i: int|
            if 0 <= i < es.len() {
                (es[i].0@, es[i].1.layout())
            } else {
                arbitrary()
            },
    )
}

/// The layouts of a sequence of values.
pub open spec fn items_layout(items: Seq<Value>) -> Seq<Layout>
    decreases items,
{
    Seq::new(
        items.len(),
        |i: int|
            if 0 <= i < items.len() {
                items[i].layout()
            } else {
                arbitrary()
            },
    )
}

impl Value {
    /// How this value is laid out: the stored form of its numbers, and the
    /// spelling and order of the keys of its dicts.
    pub open spec fn layout(&self) -> Layout
        decreases self,
    {
        match self {
            Value::Null(t) => Layout::Leaf(t.spelling()),
            Value::Bool(t, _) => Layout::Leaf(t.spelling()),
            Value::String(t, _, _) => Layout::Leaf(t.spelling()),
            Value::Num(t, n) => Layout::Number(t.spelling(), *n),
            Value::Array(t, items) => Layout::List(t.spelling(), items_layout(items@)),
            Value::Dict(t, d) => Layout::Table(t.spelling(), d.layout()),
        }
    }

    /// The profile name of the tag of this value, as it is spelled.
    pub open spec fn tag_name(&self) -> Seq<char> {
        match self {
            Value::Null(t) => t.spelling(),
            Value::Bool(t, _) => t.spelling(),
            Value::String(t, _, _) => t.spelling(),
            Value::Num(t, _) => t.spelling(),
            Value::Array(t, _) => t.spelling(),
            Value::Dict(t, _) => t.spelling(),
        }
    }
}

/// The layouts of a list, each with `name` as the profile name of every tag.
pub open spec fn respelled_items(items: Seq<Layout>, name: Seq<char>) -> Seq<Layout>
    decreases items,
{
    Seq::new(
        items.len(),
        |i: int|
            if 0 <= i < items.len() {
                items[i].respelled(name)
            } else {
                arbitrary()
            },
    )
}

/// The entries of a dict, each with `name` as the profile name of every tag
/// of its value.
pub open spec fn respelled_entries(es: Seq<(Seq<char>, Layout)>, name: Seq<char>) -> Seq<
    (Seq<char>, Layout),
>
    decreases es,
{
    Seq::new(
        es.len(),
        |i: int|
            if 0 <= i < es.len() {
                (es[i].0, es[i].1.respelled(name))
            } else {
                arbitrary()
            },
    )
}

/// The place of an entry whose key is `key`, whatever the case; the number
/// of entries where there is none.
pub open spec fn named_at(es: Seq<(Seq<char>, Layout)>, key: Seq<char>) -> int {
    if exists|i: int| 0 <= i < es.len() && #[trigger] name_at(es, i) == folded(key) {
        choose|i: int| 0 <= i < es.len() && #[trigger] name_at(es, i) == folded(key)
    } else {
        es.len() as int
    }
}

/// The folded key of the entry at `i`.
pub open spec fn name_at(es: Seq<(Seq<char>, Layout)>, i: int) -> Seq<char> {
    folded(es[i].0)
}

/// The layout of two dicts brought together: the entries that were there
/// keep their places and spellings, each with the layouts brought together
/// where the incoming dict has its key; the keys that are new follow, in
/// the order and spelling of the incoming dict.
pub open spec fn coalesced_layout(
    ours: Seq<(Seq<char>, Layout)>,
    theirs: Seq<(Seq<char>, Layout)>,
    order: Order,
) -> Seq<(Seq<char>, Layout)>
    decreases theirs,
{
    if theirs.len() == 0 {
        ours
    } else {
        let so_far = coalesced_layout(ours, theirs.drop_last(), order);
        let i = named_at(so_far, theirs.last().0);
        if 0 <= i < so_far.len() {
            so_far.update(i, (so_far[i].0, so_far[i].1.coalesced(theirs.last().1, order)))
        } else {
            so_far.push(theirs.last())
        }
    }
}

impl Layout {
    /// The layout of two values brought together: of two dicts, their
    /// layouts brought together; of any other pair, the layout of the value
    /// that stands.
    pub open spec fn coalesced(self, incoming: Layout, order: Order) -> Layout
        decreases incoming,
    {
        match self {
            Layout::Table(name, ours) => match incoming {
                Layout::Table(_, theirs) => Layout::Table(
                    name,
                    coalesced_layout(ours, theirs, order),
                ),
                _ => match order {
                    Order::Merge => incoming,
                    Order::Join => self,
                },
            },
            _ => match order {
                Order::Merge => incoming,
                Order::Join => self,
            },
        }
    }
}

impl Layout {
    /// The same layout with `name` as the profile name of every tag.
    pub open spec fn respelled(self, name: Seq<char>) -> Layout
        decreases self,
    {
        match self {
            Layout::Leaf(_) => Layout::Leaf(name),
            Layout::Number(_, n) => Layout::Number(name, n),
            Layout::List(_, items) => Layout::List(name, respelled_items(items, name)),
            Layout::Table(_, es) => Layout::Table(name, respelled_entries(es, name)),
        }
    }

    /// The layout at the end of a path of keys, in whatever case.
    pub open spec fn find(self, path: Seq<Seq<char>>) -> Option<Layout>
        decreases path.len(),
    {
        if path.len() == 0 {
            Some(self)
        } else {
            match self {
                Layout::Table(_, es) => {
                    let i = named_at(es, path[0]);
                    if 0 <= i < es.len() {
                        es[i].1.find(path.drop_first())
                    } else {
                        None
                    }
                },
                _ => None,
            }
        }
    }
}

/// Where no two entries share a key, the entry that the layout names
/// under a key is the first entry of that key, and the layout names none
/// where no entry has the key.
pub proof fn lemma_named_first(es: Seq<(String, Value)>, key: Seq<char>)
    requires
        distinct_keys(es),
    ensures
        has_key(es, es.len() as int, folded(key)) ==> named_at(entries_layout(es), key)
            == first_at(es, folded(key)),
        !has_key(es, es.len() as int, folded(key)) ==> named_at(entries_layout(es), key)
            == es.len(),
        entries_layout(es).len() == es.len(),
{
    let laid = entries_layout(es);
    let k = folded(key);
    assert forall|j: int| 0 <= j < es.len() implies #[trigger] name_at(laid, j) == key_at(
        es,
        j,
    ) by {}
    lemma_entries_lookup(es, k);
    if has_key(es, es.len() as int, k) {
        let f = first_at(es, k);
        assert(name_at(laid, f) == k);
        let at = named_at(laid, key);
        assert(0 <= at < laid.len() && name_at(laid, at) == k);
        assert(key_at(es, at) == k);
        assert(at == f);
    } else {
        if exists|j: int| 0 <= j < laid.len() && #[trigger] name_at(laid, j) == k {
            let j = choose|j: int| 0 <= j < laid.len() && #[trigger] name_at(laid, j) == k;
            assert(key_at(es, j) == k);
        }
    }
}

impl Value {
    /// The model of this value.
    pub open spec fn view(&self) -> Tree
        decreases self,
    {
        match self {
            Value::Null(t) => Tree::Null(t@),
            Value::Bool(t, b) => Tree::Bool(t@, *b),
            Value::String(t, s, u) => Tree::Text(t@, s@, *u),
            Value::Num(t, n) => Tree::Number(t@, n@),
            Value::Array(t, items) => Tree::List(t@, items_view(items@)),
            Value::Dict(t, d) => Tree::Table(t@, d.view()),
        }
    }
}

/// No two entries have the same folded key.
pub open spec fn distinct_keys(es: Seq<(String, Value)>) -> bool {
    forall|i: int, j: int|
        0 <= i < j < es.len() ==> #[trigger] key_at(es, i) != #[trigger] key_at(es, j)
}

/// The position of the entry whose key matches `key`, if there is one.
pub fn position_of(entries: &Vec<(String, Value)>, key: &str) -> (at: Option<usize>)
    ensures
        at is Some == has_key(entries@, entries@.len() as int, folded(key@)),
        at matches Some(i) ==> i < entries@.len() && key_at(entries@, i as int) == folded(key@)
            && !has_key(entries@, i as int, folded(key@)),
{
    let mut i: usize = 0;
    while i < entries.len()
        invariant
            i <= entries@.len(),
            !has_key(entries@, i as int, folded(key@)),
        decreases entries@.len() - i,
    {
        if keys_match(entries[i].0.as_str(), key) {
            assert(key_at(entries@, i as int) == folded(key@));
            return Some(i);
        }
        assert(key_at(entries@, i as int) != folded(key@));
        i = i + 1;
    }
    None
}

impl Dict {
    /// The entries in the order in which their keys first came.
    pub closed spec fn entries(&self) -> Seq<(String, Value)> {
        self.entries@
    }

    /// The mapping that this dict stands for, by folded key.
    pub open spec fn view(&self) -> Map<Seq<char>, Tree>
        decreases self,
    {
        entries_view(self.entries())
    }

    /// The keys as they are spelled, in their order, each with the layout
    /// of its value.
    pub open spec fn layout(&self) -> Seq<(Seq<char>, Layout)>
        decreases self,
    {
        entries_layout(self.entries())
    }

    #[verifier::type_invariant]
    spec fn inv(&self) -> bool {
        distinct_keys(self.entries@)
    }

    /// A dict without entries.
    pub fn new() -> (dict: Dict)
        ensures
            dict@ == Map::<Seq<char>, Tree>::empty(),
            dict.entries().len() == 0,
    {
        let dict = Dict { entries: Vec::new() };
        assert(dict@ =~= Map::<Seq<char>, Tree>::empty());
        dict
    }

    /// The position of the entry whose key matches `key`, if there is one.
    pub fn position(&self, key: &str) -> (at: Option<usize>)
        ensures
            at is Some == self@.dom().contains(folded(key@)),
            at matches Some(i) ==> {
                &&& i < self.entries().len()
                &&& key_at(self.entries(), i as int) == folded(key@)
                &&& first_at(self.entries(), folded(key@)) == i
                &&& self@[folded(key@)] == self.entries()[i as int].1.view()
            },
    {
        let at = position_of(&self.entries, key);
        proof {
            if let Some(i) = at {
                lemma_first_entry(self.entries@, i as int);
            }
        }
        at
    }

    /// The value under `key`, whatever the case of its letters.
    pub fn get(&self, key: &str) -> (found: Option<&Value>)
        ensures
            found is Some == self@.dom().contains(folded(key@)),
            found matches Some(v) ==> v@ == self@[folded(key@)],
            found matches Some(v) ==> 0 <= first_at(self.entries(), folded(key@))
                < self.entries().len() && *v == self.entries()[first_at(
                self.entries(),
                folded(key@),
            )].1,
            distinct_keys(self.entries()),
    {
        proof {
            use_type_invariant(self);
        }
        match self.position(key) {
            Some(i) => Some(&self.entries[i].1),
            None => None,
        }
    }

    /// Whether there is a value under `key`, whatever the case of its letters.
    pub fn contains_key(&self, key: &str) -> (yes: bool)
        ensures
            yes == self@.dom().contains(folded(key@)),
    {
        self.position(key).is_some()
    }

    /// The number of entries, which is the number of keys.
    pub fn len(&self) -> (n: usize)
        ensures
            n == self.entries().len(),
            self@.dom().finite(),
            n == self@.dom().len(),
            distinct_keys(self.entries()),
    {
        proof {
            use_type_invariant(self);
            lemma_entries_count(self.entries@);
        }
        self.entries.len()
    }

    /// Whether the dict has no entries.
    pub fn is_empty(&self) -> (yes: bool)
        ensures
            yes == (self.entries().len() == 0),
            yes == (self@ == Map::<Seq<char>, Tree>::empty()),
    {
        proof {
            use_type_invariant(self);
            lemma_entries_count(self.entries@);
            if self.entries@.len() == 0 {
                assert(self@ =~= Map::<Seq<char>, Tree>::empty());
            }
        }
        self.entries.len() == 0
    }

    /// The key of the entry at `i`, spelled as it first came.
    pub fn key(&self, i: usize) -> (name: &str)
        requires
            i < self.entries().len(),
        ensures
            name@ == self.entries()[i as int].0@,
            self@.dom().contains(folded(name@)),
    {
        proof {
            use_type_invariant(self);
            lemma_distinct_entry(self.entries@, i as int);
        }
        self.entries[i].0.as_str()
    }

    /// The value of the entry at `i`.
    pub fn value(&self, i: usize) -> (v: &Value)
        requires
            i < self.entries().len(),
        ensures
            *v == self.entries()[i as int].1,
            self@.dom().contains(key_at(self.entries(), i as int)),
            self@[key_at(self.entries(), i as int)] == v@,
    {
        proof {
            use_type_invariant(self);
            lemma_distinct_entry(self.entries@, i as int);
        }
        &self.entries[i].1
    }

    /// A dict of the given entries, no two of which share a key.
    pub(crate) fn from_entries(entries: Vec<(String, Value)>) -> (dict: Dict)
        requires
            distinct_keys(entries@),
        ensures
            dict.entries() == entries@,
    {
        Dict { entries }
    }

    /// Gives up the entries, in order.
    pub fn into_entries(self) -> (es: Vec<(String, Value)>)
        ensures
            es@ == self.entries(),
            distinct_keys(es@),
    {
        proof {
            use_type_invariant(&self);
        }
        self.entries
    }

    /// Puts `value` under `key` and returns the value that was there. A key
    /// that is already there keeps its place and its spelling.
    pub fn insert(&mut self, key: String, value: Value) -> (previous: Option<Value>)
        ensures
            final(self)@ == old(self)@.insert(folded(key@), value@),
            previous is Some == old(self)@.dom().contains(folded(key@)),
            previous matches Some(v) ==> v@ == old(self)@[folded(key@)],
            !old(self)@.dom().contains(folded(key@)) ==> final(self).entries() == old(
                self,
            ).entries().push((key, value)),
            old(self)@.dom().contains(folded(key@)) ==> final(self).entries() == old(
                self,
            ).entries().update(
                first_at(old(self).entries(), folded(key@)),
                (
                    old(self).entries()[first_at(old(self).entries(), folded(key@))].0,
                    value,
                ),
            ),
    {
        proof {
            use_type_invariant(&*self);
        }
        let at = self.position(key.as_str());
        let mut taken = Dict { entries: Vec::new() };
        core::mem::swap(self, &mut taken);
        let mut entries = taken.entries;
        let ghost before = entries@;
        proof {
            lemma_entries_lookup(before, folded(key@));
        }
        match at {
            Some(i) => {
                let (name, previous) = entries.remove(i);
                let ghost entry = (name, value);
                entries.insert(i, (name, value));
                proof {
                    assert(name == before[i as int].0);
                    assert(entries@ =~= before.update(i as int, entry));
                    lemma_entries_update(before, i as int, entry);
                    assert forall|a: int, b: int| 0 <= a < b < entries@.len() implies key_at(
                        entries@,
                        a,
                    ) != key_at(entries@, b) by {
                        assert(key_at(entries@, a) == key_at(before, a));
                        assert(key_at(entries@, b) == key_at(before, b));
                    }
                }
                *self = Dict { entries };
                Some(previous)
            },
            None => {
                proof {
                    lemma_entries_push(before, (key, value));
                    let after = before.push((key, value));
                    assert forall|a: int, b: int| 0 <= a < b < after.len() implies key_at(
                        after,
                        a,
                    ) != key_at(after, b) by {
                        assert(key_at(after, a) == key_at(before, a));
                        if b < before.len() {
                            assert(key_at(after, b) == key_at(before, b));
                        } else {
                            assert(key_at(after, b) == folded(key@));
                        }
                    }
                }
                entries.push((key, value));
                *self = Dict { entries };
                None
            },
        }
    }
}

/// Among the entries before `n` that have the key `k`, one comes first.
pub proof fn lemma_first_exists(es: Seq<(String, Value)>, n: int, k: Seq<char>)
    requires
        has_key(es, n, k),
    ensures
        exists|i: int|
            0 <= i < es.len() && i < n && #[trigger] key_at(es, i) == k && !has_key(es, i, k),
    decreases n,
{
    let j = choose|j: int| 0 <= j < n && j < es.len() && #[trigger] key_at(es, j) == k;
    if has_key(es, j, k) {
        lemma_first_exists(es, j, k);
        let i = choose|i: int|
            0 <= i < es.len() && i < j && #[trigger] key_at(es, i) == k && !has_key(es, i, k);
        assert(0 <= i < es.len() && i < n && key_at(es, i) == k && !has_key(es, i, k));
    } else {
        assert(0 <= j < es.len() && j < n && key_at(es, j) == k && !has_key(es, j, k));
    }
}

/// An entry that no earlier entry shares its key with is the first of its
/// key, and the mapping has its value under that key.
pub proof fn lemma_first_entry(es: Seq<(String, Value)>, i: int)
    requires
        0 <= i < es.len(),
        !has_key(es, i, key_at(es, i)),
    ensures
        first_at(es, key_at(es, i)) == i,
        entries_view(es).dom().contains(key_at(es, i)),
        entries_view(es)[key_at(es, i)] == es[i].1.view(),
{
    let k = key_at(es, i);
    assert(has_key(es, es.len() as int, k));
    let f = first_at(es, k);
    assert(0 <= f < es.len() && key_at(es, f) == k && !has_key(es, f, k));
    if f < i {
        assert(has_key(es, i, k));
    }
    if i < f {
        assert(has_key(es, f, k));
    }
}

/// A key is in the mapping exactly when some entry has it, and then the
/// mapping has the value of the first such entry.
pub proof fn lemma_entries_lookup(es: Seq<(String, Value)>, k: Seq<char>)
    ensures
        entries_view(es).dom().contains(k) == has_key(es, es.len() as int, k),
        has_key(es, es.len() as int, k) ==> {
            &&& 0 <= first_at(es, k) < es.len()
            &&& key_at(es, first_at(es, k)) == k
            &&& !has_key(es, first_at(es, k), k)
            &&& entries_view(es)[k] == es[first_at(es, k)].1.view()
        },
{
    if has_key(es, es.len() as int, k) {
        lemma_first_exists(es, es.len() as int, k);
    }
}

/// Where no two entries share a key, each entry is the first of its key.
pub proof fn lemma_distinct_entry(es: Seq<(String, Value)>, i: int)
    requires
        distinct_keys(es),
        0 <= i < es.len(),
    ensures
        !has_key(es, i, key_at(es, i)),
        first_at(es, key_at(es, i)) == i,
        entries_view(es).dom().contains(key_at(es, i)),
        entries_view(es)[key_at(es, i)] == es[i].1.view(),
{
    if has_key(es, i, key_at(es, i)) {
        let j = choose|j: int| 0 <= j < i && j < es.len() && #[trigger] key_at(es, j) == key_at(es, i);
        assert(key_at(es, j) != key_at(es, i));
    }
    lemma_first_entry(es, i);
}

/// Where no two entries share a key, there are as many keys as entries.
pub proof fn lemma_entries_count(es: Seq<(String, Value)>)
    requires
        distinct_keys(es),
    ensures
        entries_view(es).dom().finite(),
        entries_view(es).dom().len() == es.len(),
    decreases es.len(),
{
    if es.len() == 0 {
        assert(entries_view(es).dom() =~= Set::<Seq<char>>::empty());
    } else {
        let rest = es.drop_last();
        let e = es.last();
        assert(es =~= rest.push(e));
        assert forall|i: int, j: int| 0 <= i < j < rest.len() implies #[trigger] key_at(rest, i)
            != #[trigger] key_at(rest, j) by {
            assert(key_at(rest, i) == key_at(es, i));
            assert(key_at(rest, j) == key_at(es, j));
        }
        lemma_entries_count(rest);
        if has_key(rest, rest.len() as int, folded(e.0@)) {
            let j = choose|j: int|
                0 <= j < rest.len() && j < rest.len() && #[trigger] key_at(rest, j) == folded(e.0@);
            assert(key_at(es, j) == key_at(rest, j));
            assert(key_at(es, es.len() - 1) == folded(e.0@));
        }
        lemma_entries_push(rest, e);
        lemma_entries_lookup(rest, folded(e.0@));
        assert(entries_view(es).dom() =~= entries_view(rest).dom().insert(folded(e.0@)));
    }
}

/// Adding an entry at the end adds its key, unless an entry has it already.
pub proof fn lemma_entries_push(es: Seq<(String, Value)>, e: (String, Value))
    ensures
        has_key(es, es.len() as int, folded(e.0@)) ==> entries_view(es.push(e)) == entries_view(
            es,
        ),
        !has_key(es, es.len() as int, folded(e.0@)) ==> entries_view(es.push(e)) == entries_view(
            es,
        ).insert(folded(e.0@), e.1.view()),
{
    let k = folded(e.0@);
    let es2 = es.push(e);
    let n = es.len() as int;
    assert(key_at(es2, n) == k);
    assert forall|i: int| 0 <= i < n implies #[trigger] key_at(es2, i) == key_at(es, i) by {}
    assert forall|q: Seq<char>, m: int| m <= n implies has_key(es2, m, q) == has_key(es, m, q) by {
        if has_key(es2, m, q) {
            let i = choose|i: int| 0 <= i < m && i < es2.len() && #[trigger] key_at(es2, i) == q;
            assert(key_at(es, i) == q);
        }
        if has_key(es, m, q) {
            let i = choose|i: int| 0 <= i < m && i < es.len() && #[trigger] key_at(es, i) == q;
            assert(key_at(es2, i) == q);
        }
    }
    let target = if has_key(es, n, k) {
        entries_view(es)
    } else {
        entries_view(es).insert(k, e.1.view())
    };
    assert forall|q: Seq<char>| entries_view(es2).dom().contains(q) == target.dom().contains(
        q,
    ) by {
        if has_key(es2, n + 1, q) {
            let i = choose|i: int|
                0 <= i < n + 1 && i < es2.len() && #[trigger] key_at(es2, i) == q;
            if i < n {
                assert(key_at(es, i) == q);
            }
        }
        if has_key(es, n, q) {
            let i = choose|i: int| 0 <= i < n && i < es.len() && #[trigger] key_at(es, i) == q;
            assert(key_at(es2, i) == q);
        }
        if q == k {
            assert(key_at(es2, n) == q);
        }
    }
    assert forall|q: Seq<char>| entries_view(es2).dom().contains(q) implies entries_view(es2)[q]
        == target[q] by {
        lemma_entries_lookup(es2, q);
        let f = first_at(es2, q);
        if f < n {
            assert(key_at(es, f) == q);
            assert(!has_key(es, f, q));
            lemma_first_entry(es, f);
        } else {
            assert(!has_key(es, n, q));
            assert(q == k);
        }
    }
    assert(entries_view(es2) =~= target);
}

/// Replacing the value of the first entry of a key replaces the value that
/// the mapping has under that key.
pub proof fn lemma_entries_update(es: Seq<(String, Value)>, i: int, e: (String, Value))
    requires
        0 <= i < es.len(),
        !has_key(es, i, key_at(es, i)),
        folded(e.0@) == key_at(es, i),
    ensures
        entries_view(es.update(i, e)) == entries_view(es).insert(key_at(es, i), e.1.view()),
{
    let k = key_at(es, i);
    let es2 = es.update(i, e);
    let n = es.len() as int;
    assert forall|j: int| 0 <= j < n implies #[trigger] key_at(es2, j) == key_at(es, j) by {}
    assert forall|q: Seq<char>, m: int| has_key(es2, m, q) == has_key(es, m, q) by {
        if has_key(es2, m, q) {
            let j = choose|j: int| 0 <= j < m && j < es2.len() && #[trigger] key_at(es2, j) == q;
            assert(key_at(es, j) == q);
        }
        if has_key(es, m, q) {
            let j = choose|j: int| 0 <= j < m && j < es.len() && #[trigger] key_at(es, j) == q;
            assert(key_at(es2, j) == q);
        }
    }
    let target = entries_view(es).insert(k, e.1.view());
    assert(has_key(es, n, k)) by {
        assert(key_at(es, i) == k);
    }
    assert forall|q: Seq<char>| entries_view(es2).dom().contains(q) implies entries_view(es2)[q]
        == target[q] by {
        lemma_entries_lookup(es2, q);
        lemma_entries_lookup(es, q);
        let f = first_at(es2, q);
        assert(!has_key(es, f, q));
        assert(key_at(es, f) == q);
        lemma_first_entry(es, f);
        if q == k {
            lemma_first_entry(es, i);
        }
    }
    assert(entries_view(es2) =~= target);
}

/// Two sequences of entries with the same keys at the same places have the
/// same keys in their mappings, each with the value at the same place.
pub proof fn lemma_entries_same_keys(es: Seq<(String, Value)>, es2: Seq<(String, Value)>)
    requires
        es.len() == es2.len(),
        forall|i: int| 0 <= i < es.len() ==> #[trigger] key_at(es2, i) == key_at(es, i),
    ensures
        entries_view(es2).dom() == entries_view(es).dom(),
        distinct_keys(es) ==> distinct_keys(es2),
        forall|k: Seq<char>| #[trigger]
            entries_view(es).dom().contains(k) ==> {
                &&& 0 <= first_at(es, k) < es.len()
                &&& entries_view(es)[k] == es[first_at(es, k)].1.view()
                &&& entries_view(es2)[k] == es2[first_at(es, k)].1.view()
            },
{
    assert forall|q: Seq<char>, m: int| has_key(es2, m, q) == has_key(es, m, q) by {
        if has_key(es2, m, q) {
            let j = choose|j: int| 0 <= j < m && j < es2.len() && #[trigger] key_at(es2, j) == q;
            assert(key_at(es, j) == q);
        }
        if has_key(es, m, q) {
            let j = choose|j: int| 0 <= j < m && j < es.len() && #[trigger] key_at(es, j) == q;
            assert(key_at(es2, j) == q);
        }
    }
    assert(entries_view(es2).dom() =~= entries_view(es).dom());
    assert forall|k: Seq<char>| #[trigger] entries_view(es).dom().contains(k) implies {
        &&& 0 <= first_at(es, k) < es.len()
        &&& entries_view(es)[k] == es[first_at(es, k)].1.view()
        &&& entries_view(es2)[k] == es2[first_at(es, k)].1.view()
    } by {
        lemma_entries_lookup(es, k);
        let f = first_at(es, k);
        assert(key_at(es2, f) == k);
        lemma_first_entry(es2, f);
    }
    if distinct_keys(es) {
        assert forall|i: int, j: int| 0 <= i < j < es2.len() implies #[trigger] key_at(es2, i)
            != #[trigger] key_at(es2, j) by {
            assert(key_at(es, i) != key_at(es, j));
        }
    }
}

impl Dict {
    /// A deep copy.
    pub fn duplicate(&self) -> (copy: Dict)
        ensures
            copy@ == self@,
            copy.layout() == self.layout(),
            copy.entries().len() == self.entries().len(),
            forall|i: int|
                0 <= i < self.entries().len() ==> #[trigger] copy.entries()[i].0@
                    == self.entries()[i].0@,
        decreases self,
    {
        proof {
            use_type_invariant(self);
        }
        let mut entries: Vec<(String, Value)> = Vec::new();
        let mut i: usize = 0;
        while i < self.entries.len()
            invariant
                i <= self.entries@.len(),
                entries@.len() == i,
                forall|j: int|
                    0 <= j < i ==> (#[trigger] entries@[j]).0@ == self.entries@[j].0@
                        && entries@[j].1.view() == self.entries@[j].1.view()
                        && entries@[j].1.layout() == self.entries@[j].1.layout(),
            decreases self.entries@.len() - i,
        {
            let name = self.entries[i].0.clone();
            let value = self.entries[i].1.duplicate();
            entries.push((name, value));
            i = i + 1;
        }
        proof {
            assert forall|j: int| 0 <= j < entries@.len() implies #[trigger] key_at(entries@, j)
                == key_at(self.entries@, j) by {
                assert(entries@[j].0@ == self.entries@[j].0@);
            }
            lemma_entries_same_keys(self.entries@, entries@);
            assert(entries_view(entries@) =~= entries_view(self.entries@));
            assert(entries_layout(entries@) =~= entries_layout(self.entries@));
        }
        Dict { entries }
    }
}

impl Value {
    /// A deep copy.
    pub fn duplicate(&self) -> (copy: Value)
        ensures
            copy@ == self@,
            copy.layout() == self.layout(),
        decreases self,
    {
        match self {
            Value::Null(t) => Value::Null(t.duplicate()),
            Value::Bool(t, b) => Value::Bool(t.duplicate(), *b),
            Value::String(t, s, u) => Value::String(t.duplicate(), s.clone(), *u),
            Value::Num(t, n) => Value::Num(t.duplicate(), *n),
            Value::Array(t, items) => {
                let mut copies: Vec<Value> = Vec::new();
                let mut i: usize = 0;
                while i < items.len()
                    invariant
                        self matches Value::Array(_, its) && its == items,
                        i <= items@.len(),
                        copies@.len() == i,
                        forall|j: int|
                            0 <= j < i ==> (#[trigger] copies@[j]).view() == items@[j].view()
                                && copies@[j].layout() == items@[j].layout(),
                    decreases items@.len() - i,
                {
                    let copy = items[i].duplicate();
                    copies.push(copy);
                    i = i + 1;
                }
                assert(items_view(copies@) =~= items_view(items@));
                assert(items_layout(copies@) =~= items_layout(items@));
                Value::Array(t.duplicate(), copies)
            },
            Value::Dict(t, d) => Value::Dict(t.duplicate(), d.duplicate()),
        }
    }
}

/// The entries of a table, each retagged.
pub open spec fn retagged_entries(m: Map<Seq<char>, Tree>, tag: TagView) -> Map<Seq<char>, Tree> {
    Tree::Table(tag, m).retagged(tag).entries()
}

/// What retagging does to a table, entry by entry.
pub proof fn lemma_retagged_table(t: TagView, m: Map<Seq<char>, Tree>, tag: TagView)
    ensures
        Tree::Table(t, m).retagged(tag) == Tree::Table(tag, retagged_entries(m, tag)),
        retagged_entries(m, tag).dom() == m.dom(),
        forall|k: Seq<char>| #[trigger]
            m.dom().contains(k) ==> retagged_entries(m, tag)[k] == m[k].retagged(tag),
{
    assert(retagged_entries(m, tag).dom() =~= m.dom());
}

/// What retagging does to a list, item by item.
pub proof fn lemma_retagged_list(t: TagView, items: Seq<Tree>, tag: TagView)
    ensures
        Tree::List(t, items).retagged(tag) is List,
        Tree::List(t, items).retagged(tag)->List_0 == tag,
        Tree::List(t, items).retagged(tag)->List_1.len() == items.len(),
        forall|i: int|
            0 <= i < items.len() ==> (#[trigger] Tree::List(t, items).retagged(tag)->List_1[i])
                == items[i].retagged(tag),
{
}

impl Num {
    /// Whether two numbers are the same integer, however each is stored.
    pub fn same(&self, other: &Num) -> (yes: bool)
        ensures
            yes == (self@ == other@),
    {
        match (self, other) {
            (Num::Unsigned(a), Num::Unsigned(b)) => *a == *b,
            (Num::Signed(a), Num::Signed(b)) => *a == *b,
            (Num::Unsigned(a), Num::Signed(b)) => *b >= 0 && *a == *b as u128,
            (Num::Signed(a), Num::Unsigned(b)) => *a >= 0 && *a as u128 == *b,
        }
    }
}

impl Dict {
    /// A deep copy in which every value carries `tag`.
    pub fn retagged(&self, tag: &Tag) -> (copy: Dict)
        ensures
            copy@ == retagged_entries(self@, tag@),
            copy.layout() == respelled_entries(self.layout(), tag.spelling()),
        decreases self,
    {
        proof {
            use_type_invariant(self);
        }
        let mut entries: Vec<(String, Value)> = Vec::new();
        let mut i: usize = 0;
        while i < self.entries.len()
            invariant
                i <= self.entries@.len(),
                entries@.len() == i,
                forall|j: int|
                    0 <= j < i ==> (#[trigger] entries@[j]).0@ == self.entries@[j].0@
                        && entries@[j].1.view() == self.entries@[j].1.view().retagged(tag@)
                        && entries@[j].1.layout() == self.entries@[j].1.layout().respelled(
                        tag.spelling(),
                    ),
            decreases self.entries@.len() - i,
        {
            let name = self.entries[i].0.clone();
            let value = self.entries[i].1.retagged(tag);
            entries.push((name, value));
            i = i + 1;
        }
        proof {
            assert forall|j: int| 0 <= j < entries@.len() implies #[trigger] key_at(entries@, j)
                == key_at(self.entries@, j) by {
                assert(entries@[j].0@ == self.entries@[j].0@);
            }
            lemma_entries_same_keys(self.entries@, entries@);
            lemma_retagged_table(tag@, self@, tag@);
            assert(entries_view(entries@) =~= retagged_entries(self@, tag@));
            assert(entries_layout(entries@) =~= respelled_entries(
                entries_layout(self.entries@),
                tag.spelling(),
            ));
        }
        Dict { entries }
    }

    /// Whether two dicts hold the same keys with equal values, tags and
    /// order aside.
    pub fn same(&self, other: &Dict) -> (yes: bool)
        ensures
            yes == (retagged_entries(self@, default_tag()) == retagged_entries(
                other@,
                default_tag(),
            )),
        decreases self,
    {
        let ghost d = default_tag();
        proof {
            lemma_retagged_table(d, self@, d);
            lemma_retagged_table(d, other@, d);
        }
        if self.len() != other.len() {
            return false;
        }
        let mut i: usize = 0;
        while i < self.entries.len()
            invariant
                d == default_tag(),
                i <= self.entries@.len(),
                self.entries@ == self.entries(),
                distinct_keys(self.entries()),
                retagged_entries(self@, d).dom() == self@.dom(),
                retagged_entries(other@, d).dom() == other@.dom(),
                forall|k: Seq<char>| #[trigger]
                    self@.dom().contains(k) ==> retagged_entries(self@, d)[k] == self@[k].retagged(
                        d,
                    ),
                forall|k: Seq<char>| #[trigger]
                    other@.dom().contains(k) ==> retagged_entries(other@, d)[k]
                        == other@[k].retagged(d),
                forall|j: int|
                    0 <= j < i ==> other@.dom().contains(#[trigger] key_at(self.entries(), j))
                        && self@[key_at(self.entries(), j)].retagged(d) == other@[key_at(
                        self.entries(),
                        j,
                    )].retagged(d),
            decreases self.entries@.len() - i,
        {
            let ghost k = key_at(self.entries(), i as int);
            proof {
                lemma_distinct_entry(self.entries(), i as int);
            }
            match other.get(self.entries[i].0.as_str()) {
                None => {
                    assert(retagged_entries(self@, d).dom().contains(k));
                    assert(!retagged_entries(other@, d).dom().contains(k));
                    return false;
                },
                Some(theirs) => {
                    if !self.entries[i].1.same(theirs) {
                        assert(self@.dom().contains(k));
                        assert(other@.dom().contains(k));
                        assert(retagged_entries(self@, d)[k] != retagged_entries(other@, d)[k]);
                        return false;
                    }
                },
            }
            i = i + 1;
        }
        proof {
            assert forall|k: Seq<char>| self@.dom().contains(k) implies other@.dom().contains(k)
                && self@[k].retagged(d) == other@[k].retagged(d) by {
                lemma_entries_lookup(self.entries(), k);
                let f = first_at(self.entries(), k);
                assert(key_at(self.entries(), f) == k);
            }
            assert(self@.dom().subset_of(other@.dom()));
            vstd::set_lib::lemma_subset_equality(self@.dom(), other@.dom());
            assert(retagged_entries(self@, d) =~= retagged_entries(other@, d));
        }
        true
    }
}

impl Value {
    /// A deep copy in which every node carries `tag`.
    pub fn retagged(&self, tag: &Tag) -> (copy: Value)
        ensures
            copy@ == self@.retagged(tag@),
            copy.layout() == self.layout().respelled(tag.spelling()),
        decreases self,
    {
        match self {
            Value::Null(_) => Value::Null(tag.duplicate()),
            Value::Bool(_, b) => Value::Bool(tag.duplicate(), *b),
            Value::String(_, s, u) => Value::String(tag.duplicate(), s.clone(), *u),
            Value::Num(_, n) => Value::Num(tag.duplicate(), *n),
            Value::Array(t, items) => {
                let mut copies: Vec<Value> = Vec::new();
                let mut i: usize = 0;
                while i < items.len()
                    invariant
                        self matches Value::Array(_, its) && its == items,
                        i <= items@.len(),
                        copies@.len() == i,
                        forall|j: int|
                            0 <= j < i ==> (#[trigger] copies@[j]).view() == items@[j].view().retagged(
                                tag@,
                            ) && copies@[j].layout() == items@[j].layout().respelled(
                                tag.spelling(),
                            ),
                    decreases items@.len() - i,
                {
                    let copy = items[i].retagged(tag);
                    copies.push(copy);
                    i = i + 1;
                }
                proof {
                    lemma_retagged_list(t@, items_view(items@), tag@);
                    assert(items_view(copies@) =~= self@.retagged(tag@)->List_1);
                    assert(items_layout(copies@) =~= respelled_items(
                        items_layout(items@),
                        tag.spelling(),
                    ));
                }
                Value::Array(tag.duplicate(), copies)
            },
            Value::Dict(t, d) => {
                proof {
                    lemma_retagged_table(t@, d@, tag@);
                }
                Value::Dict(tag.duplicate(), d.retagged(tag))
            },
        }
    }

    /// Whether two values are equal: the same structure with the same
    /// contents, whatever their tags.
    pub fn same(&self, other: &Value) -> (yes: bool)
        ensures
            yes == (self@.content() == other@.content()),
        decreases self,
    {
        let ghost d = default_tag();
        match (self, other) {
            (Value::Null(_), Value::Null(_)) => true,
            (Value::Bool(_, a), Value::Bool(_, b)) => *a == *b,
            (Value::String(_, a, ua), Value::String(_, b, ub)) => *a == *b && *ua == *ub,
            (Value::Num(_, a), Value::Num(_, b)) => a.same(b),
            (Value::Array(ta, xs), Value::Array(tb, ys)) => {
                proof {
                    lemma_retagged_list(ta@, items_view(xs@), d);
                    lemma_retagged_list(tb@, items_view(ys@), d);
                }
                if xs.len() != ys.len() {
                    return false;
                }
                let mut i: usize = 0;
                while i < xs.len()
                    invariant
                        self matches Value::Array(_, its) && its == xs,
                        other matches Value::Array(_, its) && its == ys,
                        d == default_tag(),
                        xs@.len() == ys@.len(),
                        i <= xs@.len(),
                        self@.retagged(d) is List,
                        other@.retagged(d) is List,
                        self@.retagged(d)->List_0 == d,
                        other@.retagged(d)->List_0 == d,
                        self@.retagged(d)->List_1.len() == xs@.len(),
                        other@.retagged(d)->List_1.len() == ys@.len(),
                        forall|j: int|
                            0 <= j < xs@.len() ==> (#[trigger] self@.retagged(d)->List_1[j])
                                == xs@[j].view().retagged(d),
                        forall|j: int|
                            0 <= j < ys@.len() ==> (#[trigger] other@.retagged(d)->List_1[j])
                                == ys@[j].view().retagged(d),
                        forall|j: int|
                            0 <= j < i ==> (#[trigger] xs@[j]).view().retagged(d)
                                == ys@[j].view().retagged(d),
                    decreases xs@.len() - i,
                {
                    if !xs[i].same(&ys[i]) {
                        assert(self@.retagged(d)->List_1[i as int] != other@.retagged(
                            d,
                        )->List_1[i as int]);
                        return false;
                    }
                    i = i + 1;
                }
                assert(self@.retagged(d)->List_1 =~= other@.retagged(d)->List_1);
                true
            },
            (Value::Dict(ta, a), Value::Dict(tb, b)) => {
                proof {
                    lemma_retagged_table(ta@, a@, d);
                    lemma_retagged_table(tb@, b@, d);
                }
                a.same(b)
            },
            _ => false,
        }
    }
}

impl Num {
    /// The number as a `u128`, if it is one.
    pub fn to_u128(&self) -> (r: Option<u128>)
        ensures
            r is Some == (0 <= self@ <= u128::MAX),
            r matches Some(n) ==> n == self@,
    {
        match self {
            Num::Unsigned(n) => Some(*n),
            Num::Signed(n) => if *n >= 0 {
                Some(*n as u128)
            } else {
                None
            },
        }
    }

    /// The number as an `i128`, if it is one.
    pub fn to_i128(&self) -> (r: Option<i128>)
        ensures
            r is Some == (i128::MIN <= self@ <= i128::MAX),
            r matches Some(n) ==> n == self@,
    {
        match self {
            Num::Unsigned(n) => if *n <= 0x7fff_ffff_ffff_ffff_ffff_ffff_ffff_ffffu128 {
                Some(*n as i128)
            } else {
                None
            },
            Num::Signed(n) => Some(*n),
        }
    }

    /// The number as a `u64`, if it is one.
    pub fn to_u64(&self) -> (r: Option<u64>)
        ensures
            r is Some == (0 <= self@ <= u64::MAX),
            r matches Some(n) ==> n == self@,
    {
        match self.to_u128() {
            Some(n) => if n <= 0xffff_ffff_ffff_ffffu128 {
                Some(n as u64)
            } else {
                None
            },
            None => None,
        }
    }

    /// The number as a `u32`, if it is one.
    pub fn to_u32(&self) -> (r: Option<u32>)
        ensures
            r is Some == (0 <= self@ <= u32::MAX),
            r matches Some(n) ==> n == self@,
    {
        match self.to_u128() {
            Some(n) => if n <= 0xffff_ffffu128 {
                Some(n as u32)
            } else {
                None
            },
            None => None,
        }
    }

    /// The number as a `u16`, if it is one.
    pub fn to_u16(&self) -> (r: Option<u16>)
        ensures
            r is Some == (0 <= self@ <= u16::MAX),
            r matches Some(n) ==> n == self@,
    {
        match self.to_u128() {
            Some(n) => if n <= 0xffffu128 {
                Some(n as u16)
            } else {
                None
            },
            None => None,
        }
    }

    /// The number as a `u8`, if it is one.
    pub fn to_u8(&self) -> (r: Option<u8>)
        ensures
            r is Some == (0 <= self@ <= u8::MAX),
            r matches Some(n) ==> n == self@,
    {
        match self.to_u128() {
            Some(n) => if n <= 0xffu128 {
                Some(n as u8)
            } else {
                None
            },
            None => None,
        }
    }

    /// The number as a `usize`, if it is one.
    pub fn to_usize(&self) -> (r: Option<usize>)
        ensures
            r is Some == (0 <= self@ <= usize::MAX),
            r matches Some(n) ==> n == self@,
    {
        match self.to_u128() {
            Some(n) => if n <= usize::MAX as u128 {
                Some(n as usize)
            } else {
                None
            },
            None => None,
        }
    }

    /// The number as an `i64`, if it is one.
    pub fn to_i64(&self) -> (r: Option<i64>)
        ensures
            r is Some == (i64::MIN <= self@ <= i64::MAX),
            r matches Some(n) ==> n == self@,
    {
        match self.to_i128() {
            Some(n) => if -0x8000_0000_0000_0000i128 <= n && n <= 0x7fff_ffff_ffff_ffffi128 {
                Some(n as i64)
            } else {
                None
            },
            None => None,
        }
    }
}

impl Num {
    /// The number as an `i32`, if it is one.
    pub fn to_i32(&self) -> (r: Option<i32>)
        ensures
            r is Some == (i32::MIN <= self@ <= i32::MAX),
            r matches Some(n) ==> n == self@,
    {
        match self.to_i128() {
            Some(n) => if -0x8000_0000i128 <= n && n <= 0x7fff_ffffi128 {
                Some(n as i32)
            } else {
                None
            },
            None => None,
        }
    }

    /// The number as an `i16`, if it is one.
    pub fn to_i16(&self) -> (r: Option<i16>)
        ensures
            r is Some == (i16::MIN <= self@ <= i16::MAX),
            r matches Some(n) ==> n == self@,
    {
        match self.to_i128() {
            Some(n) => if -0x8000i128 <= n && n <= 0x7fffi128 {
                Some(n as i16)
            } else {
                None
            },
            None => None,
        }
    }

    /// The number as an `i8`, if it is one.
    pub fn to_i8(&self) -> (r: Option<i8>)
        ensures
            r is Some == (i8::MIN <= self@ <= i8::MAX),
            r matches Some(n) ==> n == self@,
    {
        match self.to_i128() {
            Some(n) => if -0x80i128 <= n && n <= 0x7fi128 {
                Some(n as i8)
            } else {
                None
            },
            None => None,
        }
    }

    /// The number as an `isize`, if it is one.
    pub fn to_isize(&self) -> (r: Option<isize>)
        ensures
            r is Some == (isize::MIN <= self@ <= isize::MAX),
            r matches Some(n) ==> n == self@,
    {
        match self.to_i128() {
            Some(n) => if isize::MIN as i128 <= n && n <= isize::MAX as i128 {
                Some(n as isize)
            } else {
                None
            },
            None => None,
        }
    }
}

/// The kinds of value there are.
#[derive(Clone, Copy, Debug, PartialEq, Eq, Structural)]
pub enum Kind {
    Null,
    Bool,
    String,
    Num,
    Array,
    Dict,
}

impl Tree {
    /// The kind of the root node.
    pub open spec fn kind(self) -> Kind {
        match self {
            Tree::Null(_) => Kind::Null,
            Tree::Bool(_, _) => Kind::Bool,
            Tree::Text(_, _, _) => Kind::String,
            Tree::Number(_, _) => Kind::Num,
            Tree::List(_, _) => Kind::Array,
            Tree::Table(_, _) => Kind::Dict,
        }
    }
}

impl Value {
    /// The null value, with the default tag.
    pub fn null() -> (v: Value)
        ensures
            v@ == Tree::Null(default_tag()),
            v.layout() == Layout::Leaf("default"@),
    {
        Value::Null(Tag::new())
    }

    /// A boolean, with the default tag.
    pub fn from_bool(b: bool) -> (v: Value)
        ensures
            v@ == Tree::Bool(default_tag(), b),
            v.layout() == Layout::Leaf("default"@),
    {
        Value::Bool(Tag::new(), b)
    }

    /// A text that is read as it is written, with the default tag.
    pub fn from_str(s: &str) -> (v: Value)
        ensures
            v@ == Tree::Text(default_tag(), s@, false),
            v.layout() == Layout::Leaf("default"@),
    {
        Value::String(Tag::new(), String::from_str(s), false)
    }

    /// A text that is meant to be read without regard to case, with the
    /// default tag.
    pub fn uncased(s: &str) -> (v: Value)
        ensures
            v@ == Tree::Text(default_tag(), s@, true),
            v.layout() == Layout::Leaf("default"@),
    {
        Value::String(Tag::new(), String::from_str(s), true)
    }

    /// An integer stored unsigned, with the default tag.
    pub fn from_unsigned(n: u128) -> (v: Value)
        ensures
            v@ == Tree::Number(default_tag(), n as int),
            v.layout() == Layout::Number("default"@, Num::Unsigned(n)),
    {
        Value::Num(Tag::new(), Num::Unsigned(n))
    }

    /// An integer stored signed, with the default tag.
    pub fn from_signed(n: i128) -> (v: Value)
        ensures
            v@ == Tree::Number(default_tag(), n as int),
            v.layout() == Layout::Number("default"@, Num::Signed(n)),
    {
        Value::Num(Tag::new(), Num::Signed(n))
    }

    /// An array of the given items, with the default tag.
    pub fn from_array(items: Vec<Value>) -> (v: Value)
        ensures
            v@ == Tree::List(default_tag(), items_view(items@)),
            v.layout() == Layout::List("default"@, items_layout(items@)),
    {
        Value::Array(Tag::new(), items)
    }

    /// A dict, with the default tag.
    pub fn from_dict(dict: Dict) -> (v: Value)
        ensures
            v@ == Tree::Table(default_tag(), dict@),
            v.layout() == Layout::Table("default"@, dict.layout()),
    {
        Value::Dict(Tag::new(), dict)
    }

    /// A sequence of bytes: an array of the bytes as unsigned integers.
    pub fn from_bytes(bytes: &Vec<u8>) -> (v: Value)
        ensures
            v@ == Tree::List(
                default_tag(),
                Seq::new(bytes@.len(), |i: int| Tree::Number(default_tag(), bytes@[i] as int)),
            ),
            v.layout() == Layout::List(
                "default"@,
                Seq::new(
                    bytes@.len(),
                    |i: int| Layout::Number("default"@, Num::Unsigned(bytes@[i] as u128)),
                ),
            ),
    {
        let mut items: Vec<Value> = Vec::new();
        let mut i: usize = 0;
        while i < bytes.len()
            invariant
                i <= bytes@.len(),
                items@.len() == i,
                forall|j: int|
                    0 <= j < i ==> (#[trigger] items@[j]).view() == Tree::Number(
                        default_tag(),
                        bytes@[j] as int,
                    ) && items@[j].layout() == Layout::Number(
                        "default"@,
                        Num::Unsigned(bytes@[j] as u128),
                    ),
            decreases bytes@.len() - i,
        {
            items.push(Value::from_unsigned(bytes[i] as u128));
            i = i + 1;
        }
        assert(items_view(items@) =~= Seq::new(
            bytes@.len(),
            |i: int| Tree::Number(default_tag(), bytes@[i] as int),
        ));
        assert(items_layout(items@) =~= Seq::new(
            bytes@.len(),
            |i: int| Layout::Number("default"@, Num::Unsigned(bytes@[i] as u128)),
        ));
        Value::Array(Tag::new(), items)
    }

    /// The tag of this value.
    pub fn tag(&self) -> (t: &Tag)
        ensures
            t@ == self@.tag(),
            t.spelling() == self.tag_name(),
    {
        match self {
            Value::Null(t) => t,
            Value::Bool(t, _) => t,
            Value::String(t, _, _) => t,
            Value::Num(t, _) => t,
            Value::Array(t, _) => t,
            Value::Dict(t, _) => t,
        }
    }

    /// The identifier of the metadata of the provider that produced this
    /// value, if a provider did.
    pub fn metadata_id(&self) -> (id: Option<Id>)
        ensures
            id == self@.tag().metadata_id,
    {
        self.tag().metadata_id()
    }

    /// The kind of this value.
    pub fn kind(&self) -> (k: Kind)
        ensures
            k == self@.kind(),
    {
        match self {
            Value::Null(_) => Kind::Null,
            Value::Bool(_, _) => Kind::Bool,
            Value::String(_, _, _) => Kind::String,
            Value::Num(_, _) => Kind::Num,
            Value::Array(_, _) => Kind::Array,
            Value::Dict(_, _) => Kind::Dict,
        }
    }

    /// The text, if this is a string.
    pub fn as_str(&self) -> (r: Option<&str>)
        ensures
            r is Some == self@ is Text,
            r matches Some(s) ==> s@ == self@->Text_1,
    {
        match self {
            Value::String(_, s, _) => Some(s.as_str()),
            _ => None,
        }
    }

    /// The boolean, if this is one.
    pub fn to_bool(&self) -> (r: Option<bool>)
        ensures
            r is Some == self@ is Bool,
            r matches Some(b) ==> b == self@->Bool_1,
    {
        match self {
            Value::Bool(_, b) => Some(*b),
            _ => None,
        }
    }

    /// The number, if this is one.
    pub fn to_num(&self) -> (r: Option<Num>)
        ensures
            r is Some == self@ is Number,
            r matches Some(n) ==> n@ == self@->Number_1 && self.layout() == Layout::Number(
                self.tag_name(),
                n,
            ),
    {
        match self {
            Value::Num(_, n) => Some(*n),
            _ => None,
        }
    }

    /// The items, if this is an array.
    pub fn as_array(&self) -> (r: Option<&Vec<Value>>)
        ensures
            r is Some == self@ is List,
            r matches Some(items) ==> items_view(items@) == self@->List_1 && self.layout()
                == Layout::List(self.tag_name(), items_layout(items@)),
    {
        match self {
            Value::Array(_, items) => Some(items),
            _ => None,
        }
    }

    /// The dict, if this is one.
    pub fn as_dict(&self) -> (r: Option<&Dict>)
        ensures
            r is Some == self@ is Table,
            r matches Some(d) ==> d@ == self@->Table_1 && self.layout() == Layout::Table(
                self.tag_name(),
                d.layout(),
            ),
    {
        match self {
            Value::Dict(_, d) => Some(d),
            _ => None,
        }
    }

    /// Gives up the dict, if this is one.
    pub fn into_dict(self) -> (r: Option<Dict>)
        ensures
            r is Some == self@ is Table,
            r matches Some(d) ==> d@ == self@->Table_1 && self.layout() == Layout::Table(
                self.tag_name(),
                d.layout(),
            ),
    {
        match self {
            Value::Dict(_, d) => Some(d),
            _ => None,
        }
    }
}

} // verus!
