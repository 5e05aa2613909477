//! Bringing an incoming value together with the value that is already there.

use vstd::prelude::*;
use crate::error::Error;
use crate::error::ErrorView;
use crate::error::Fault;
use crate::error::FaultView;
use crate::key::folded;
use crate::tree::coalesced_entries;
use crate::tree::lemma_coalesced_entries;
use crate::tree::Order;
use crate::value::coalesced_layout;
use crate::value::distinct_keys;
use crate::value::entries_layout;
use crate::value::name_at;
use crate::value::named_at;
use crate::value::Layout;
use crate::value::entries_view;
use crate::value::has_key;
use crate::value::key_at;
use crate::value::lemma_distinct_entry;
use crate::value::lemma_entries_lookup;
use crate::value::lemma_entries_push;
use crate::value::lemma_entries_update;
use crate::value::position_of;
use crate::value::Dict;
use crate::value::Value;

verus! {

impl Value {
    /// Brings `incoming` together with this value: two dicts key by key,
    /// the dict keeping its tag; of any other pair the incoming value under
    /// `Merge`, this one under `Join`. An array is never merged item by item.
    pub fn coalesce(self, incoming: Value, order: Order) -> (r: Value)
        ensures
            r@ == self@.coalesced(incoming@, order),
            r.layout() == self.layout().coalesced(incoming.layout(), order),
        decreases incoming@,
    {
        match self {
            Value::Dict(t, ours) => match incoming {
                Value::Dict(u, theirs) => {
                    proof {
                        lemma_coalesced_entries(ours@, theirs@, order);
                    }
                    Value::Dict(t, ours.coalesce(theirs, order))
                },
                other => match order {
                    Order::Merge => other,
                    Order::Join => Value::Dict(t, ours),
                },
            },
            mine => match order {
                Order::Merge => incoming,
                Order::Join => mine,
            },
        }
    }
}

impl Dict {
    /// Brings the entries of `incoming` into this dict. A key of both keeps
    /// its place and spelling and gets the two values brought together; a
    /// new key is added at the end, in the order of `incoming`.
    pub fn coalesce(self, incoming: Dict, order: Order) -> (r: Dict)
        ensures
            r@ == coalesced_entries(self@, incoming@, order),
            r.layout() == coalesced_layout(self.layout(), incoming.layout(), order),
            r.entries().len() >= self.entries().len(),
            forall|i: int|
                0 <= i < self.entries().len() ==> (#[trigger] r.entries()[i]).0
                    == self.entries()[i].0,
        decreases incoming@,
    {
        let ghost ours = self@;
        let ghost mine = self.entries();
        let ghost theirs = incoming@;
        let ghost their_layout = incoming.layout();
        let ghost my_layout = self.layout();
        let n = incoming.len();
        let mut entries = self.into_entries();
        let mut rest = incoming.into_entries();
        let ghost all = rest@;
        let mut done: usize = 0;
        proof {
            assert(entries_layout(all.subrange(0, 0)) =~= Seq::<(Seq<char>, Layout)>::empty());
            lemma_coalesced_entries(ours, entries_view(all.subrange(0, 0)), order);
            assert(entries_view(entries@) =~= coalesced_entries(
                ours,
                entries_view(all.subrange(0, 0)),
                order,
            ));
        }
        while done < n
            invariant
                done <= n,
                n == all.len(),
                distinct_keys(all),
                theirs == entries_view(all),
                theirs == incoming@,
                theirs.dom().finite(),
                rest@ == all.subrange(done as int, n as int),
                distinct_keys(entries@),
                entries@.len() >= mine.len(),
                forall|i: int| 0 <= i < mine.len() ==> (#[trigger] entries@[i]).0 == mine[i].0,
                entries_view(entries@) == coalesced_entries(
                    ours,
                    entries_view(all.subrange(0, done as int)),
                    order,
                ),
                their_layout == entries_layout(all),
                entries_layout(entries@) == coalesced_layout(
                    my_layout,
                    entries_layout(all.subrange(0, done as int)),
                    order,
                ),
            decreases n - done,
        {
            let ghost seen = all.subrange(0, done as int);
            let ghost before = entries@;
            let (key, value) = rest.remove(0);
            let ghost k = folded(key@);
            let ghost incoming_layout = value.layout();
            let ghost laid = entries_layout(before);
            proof {
                let next = entries_layout(all.subrange(0, done as int + 1));
                assert(next.last() == (key@, incoming_layout));
                assert(next.drop_last() =~= entries_layout(seen));
                assert forall|j: int| 0 <= j < before.len() implies #[trigger] name_at(laid, j)
                    == key_at(before, j) by {}
                assert(rest@ =~= all.subrange(done as int + 1, n as int));
                assert((key, value) == all[done as int]);
                assert(all.subrange(0, done as int + 1) =~= seen.push((key, value)));
                lemma_distinct_entry(all, done as int);
                assert(!has_key(seen, seen.len() as int, k)) by {
                    if has_key(seen, seen.len() as int, k) {
                        let j = choose|j: int|
                            0 <= j < seen.len() && j < seen.len() && #[trigger] key_at(seen, j)
                                == k;
                        assert(key_at(all, j) == key_at(seen, j));
                        assert(key_at(all, done as int) == k);
                    }
                }
                lemma_entries_push(seen, (key, value));
                lemma_entries_lookup(seen, k);
                lemma_entries_lookup(before, k);
                lemma_coalesced_entries(ours, entries_view(seen), order);
                lemma_coalesced_entries(ours, entries_view(seen).insert(k, value@), order);
                assert(theirs.dom().contains(k) && theirs[k] == value@);
            }
            match position_of(&entries, key.as_str()) {
                Some(i) => {
                    let (name, mine) = entries.remove(i);
                    let ghost mine_view = mine@;
                    let ghost mine_layout = mine.layout();
                    let both = mine.coalesce(value, order);
                    let ghost entry = (name, both);
                    entries.insert(i, (name, both));
                    proof {
                        assert(entries@ =~= before.update(i as int, entry));
                        lemma_distinct_entry(before, i as int);
                        lemma_entries_update(before, i as int, entry);
                        assert forall|a: int, b: int|
                            0 <= a < b < entries@.len() implies key_at(entries@, a) != key_at(
                            entries@,
                            b,
                        ) by {
                            assert(key_at(entries@, a) == key_at(before, a));
                            assert(key_at(entries@, b) == key_at(before, b));
                        }
                        assert(name_at(laid, i as int) == k);
                        let at = named_at(laid, key@);
                        assert(0 <= at < laid.len() && name_at(laid, at) == k);
                        assert(key_at(before, at) == k);
                        assert(at == i);
                        assert(entries_layout(entries@) =~= laid.update(
                            i as int,
                            (laid[i as int].0, mine_layout.coalesced(incoming_layout, order)),
                        ));
                        assert(ours.dom().contains(k));
                        assert(mine_view == ours[k]);
                        assert(entries_view(entries@) =~= coalesced_entries(
                            ours,
                            entries_view(seen).insert(k, value@),
                            order,
                        ));
                    }
                },
                None => {
                    proof {
                        lemma_entries_push(before, (key, value));
                        let after = before.push((key, value));
                        assert forall|a: int, b: int| 0 <= a < b < after.len() implies key_at(
                            after,
                            a,
                        ) != key_at(after, b) by {
                            assert(key_at(after, a) == key_at(before, a));
                            if b < before.len() {
                                assert(key_at(after, b) == key_at(before, b));
                            } else {
                                assert(key_at(after, b) == k);
                            }
                        }
                        assert(entries_view(after) =~= coalesced_entries(
                            ours,
                            entries_view(seen).insert(k, value@),
                            order,
                        ));
                        if exists|j: int|
                            0 <= j < laid.len() && #[trigger] name_at(laid, j) == k {
                            let j = choose|j: int|
                                0 <= j < laid.len() && #[trigger] name_at(laid, j) == k;
                            assert(key_at(before, j) == k);
                        }
                        assert(named_at(laid, key@) == laid.len());
                        assert(entries_layout(after) =~= laid.push((key@, incoming_layout)));
                    }
                    entries.push((key, value));
                },
            }
            done = done + 1;
        }
        proof {
            assert(all.subrange(0, n as int) =~= all);
        }
        Dict::from_entries(entries)
    }
}

impl Dict {
    /// A dict of the given pairs, in their order. A key that comes twice,
    /// in whatever case, is an error that names its second spelling.
    pub fn from_pairs(pairs: Vec<(String, Value)>) -> (r: Result<Dict, Error>)
        ensures
            r is Ok == distinct_keys(pairs@),
            r matches Ok(d) ==> d.entries() == pairs@,
            r matches Err(e) ==> exists|i: int|
                0 <= i < pairs@.len() && has_key(pairs@, i, #[trigger] key_at(pairs@, i))
                    && distinct_keys(pairs@.subrange(0, i)) && e@ == (ErrorView {
                    fault: FaultView::DuplicateField(pairs@[i].0@),
                    path: Seq::empty(),
                }),
    {
        let mut i: usize = 0;
        while i < pairs.len()
            invariant
                i <= pairs@.len(),
                distinct_keys(pairs@.subrange(0, i as int)),
            decreases pairs@.len() - i,
        {
            let ghost seen = pairs@.subrange(0, i as int);
            let mut j: usize = 0;
            while j < i
                invariant
                    j <= i,
                    i < pairs@.len(),
                    distinct_keys(pairs@.subrange(0, i as int)),
                    !has_key(pairs@, j as int, key_at(pairs@, i as int)),
                decreases i - j,
            {
                if crate::key::keys_match(pairs[j].0.as_str(), pairs[i].0.as_str()) {
                    proof {
                        assert(key_at(pairs@, j as int) == key_at(pairs@, i as int));
                        assert(has_key(pairs@, i as int, key_at(pairs@, i as int)));
                        assert(!distinct_keys(pairs@));
                    }
                    return Err(Error::new(Fault::DuplicateField(pairs[i].0.clone())));
                }
                assert(key_at(pairs@, j as int) != key_at(pairs@, i as int));
                j = j + 1;
            }
            proof {
                let next = pairs@.subrange(0, i as int + 1);
                assert forall|a: int, b: int| 0 <= a < b < next.len() implies #[trigger] key_at(
                    next,
                    a,
                ) != #[trigger] key_at(next, b) by {
                    assert(key_at(next, a) == key_at(pairs@, a));
                    assert(key_at(next, b) == key_at(pairs@, b));
                    if b < i {
                        assert(key_at(seen, a) == key_at(pairs@, a));
                        assert(key_at(seen, b) == key_at(pairs@, b));
                    } else {
                        if key_at(pairs@, a) == key_at(pairs@, b) {
                            assert(has_key(pairs@, i as int, key_at(pairs@, i as int)));
                        }
                    }
                }
            }
            i = i + 1;
        }
        proof {
            assert(pairs@.subrange(0, pairs@.len() as int) =~= pairs@);
        }
        Ok(Dict::from_entries(pairs))
    }
}

} // verus!
