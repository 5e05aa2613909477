//! The mathematical model of a configuration value.

use vstd::prelude::*;
use crate::tag::TagView;
use crate::tag::default_tag;

verus! {

/// How an incoming value meets the value that is already there.
#[derive(Clone, Copy, Debug, PartialEq, Eq, Structural)]
pub enum Order {
    /// The incoming value wins.
    Merge,
    /// The value that is already there wins.
    Join,
}

/// A configuration value as mathematics. Every node carries its tag; the keys
/// of a table are folded, so that keys that differ only in ASCII case are one
/// key, and a table has no order.
pub ghost enum Tree {
    Null(TagView),
    Bool(TagView, bool),
    /// A text and whether it is meant to be read without regard to case.
    Text(TagView, Seq<char>, bool),
    /// An integer; the model does not keep how it was stored.
    Number(TagView, int),
    List(TagView, Seq<Tree>),
    Table(TagView, Map<Seq<char>, Tree>),
}

impl Tree {
    /// The tag of the root node.
    pub open spec fn tag(self) -> TagView {
        match self {
            Tree::Null(t) => t,
            Tree::Bool(t, _) => t,
            Tree::Text(t, _, _) => t,
            Tree::Number(t, _) => t,
            Tree::List(t, _) => t,
            Tree::Table(t, _) => t,
        }
    }

    /// The same tree with every node carrying `tag`.
    pub open spec fn retagged(self, tag: TagView) -> Tree
        decreases self,
    {
        match self {
            Tree::Null(_) => Tree::Null(tag),
            Tree::Bool(_, b) => Tree::Bool(tag, b),
            Tree::Text(_, s, u) => Tree::Text(tag, s, u),
            Tree::Number(_, n) => Tree::Number(tag, n),
            Tree::List(_, items) => Tree::List(
                tag,
                Seq::new(
                    items.len(),
                    |i: int|
                        if 0 <= i < items.len() {
                            items[i].retagged(tag)
                        } else {
                            Tree::Null(tag)
                        },
                ),
            ),
            Tree::Table(_, m) => Tree::Table(
                tag,
                Map::new(
                    |k: Seq<char>| m.dom().contains(k),
                    |k: Seq<char>|
                        if m.dom().contains(k) {
                            m[k].retagged(tag)
                        } else {
                            Tree::Null(tag)
                        },
                ),
            ),
        }
    }

    /// What the tree holds, with the provenance taken away: every node
    /// carries the default tag. Two values are equal when these are.
    pub open spec fn content(self) -> Tree {
        self.retagged(default_tag())
    }

    /// The entries of a table; no entries for any other value.
    pub open spec fn entries(self) -> Map<Seq<char>, Tree> {
        match self {
            Tree::Table(_, m) => m,
            _ => Map::empty(),
        }
    }
}

/// The entries of two tables brought together: every key of either, and
/// under a key of both the two values brought together.
pub open spec fn coalesced_entries(
    ours: Map<Seq<char>, Tree>,
    theirs: Map<Seq<char>, Tree>,
    order: Order,
) -> Map<Seq<char>, Tree> {
    Tree::Table(default_tag(), ours).coalesced(Tree::Table(default_tag(), theirs), order).entries()
}

impl Tree {
    /// This value brought together with an incoming one. Two tables are
    /// brought together key by key, and the table keeps the tag it had. Of
    /// any other pair one value stands whole: the incoming one under
    /// `Merge`, the one that was there under `Join`.
    pub open spec fn coalesced(self, incoming: Tree, order: Order) -> Tree
        decreases incoming,
    {
        match self {
            Tree::Table(t, ours) => match incoming {
                Tree::Table(_, theirs) => Tree::Table(
                    t,
                    Map::new(
                        |k: Seq<char>| ours.dom().contains(k) || theirs.dom().contains(k),
                        |k: Seq<char>|
                            if theirs.dom().contains(k) {
                                if ours.dom().contains(k) {
                                    ours[k].coalesced(theirs[k], order)
                                } else {
                                    theirs[k]
                                }
                            } else {
                                ours[k]
                            },
                    ),
                ),
                _ => match order {
                    Order::Merge => incoming,
                    Order::Join => self,
                },
            },
            _ => match order {
                Order::Merge => incoming,
                Order::Join => self,
            },
        }
    }

    /// The value at the end of a path of folded keys, each a key of the
    /// table that the keys before it led to.
    pub open spec fn find(self, path: Seq<Seq<char>>) -> Option<Tree>
        decreases path.len(),
    {
        if path.len() == 0 {
            Some(self)
        } else {
            match self {
                Tree::Table(_, m) => if m.dom().contains(path[0]) {
                    m[path[0]].find(path.drop_first())
                } else {
                    None
                },
                _ => None,
            }
        }
    }
}

/// Last write wins: a value of the incoming tree that is no table stands in
/// the merged tree at the same path, whatever was there.
pub proof fn lemma_merge_incoming_wins(ours: Tree, theirs: Tree, path: Seq<Seq<char>>)
    requires
        theirs.find(path) is Some,
        !(theirs.find(path)->Some_0 is Table),
    ensures
        ours.coalesced(theirs, Order::Merge).find(path) == theirs.find(path),
    decreases path.len(),
{
    if path.len() > 0 {
        let m = theirs->Table_1;
        let k = path[0];
        if ours is Table {
            let o = ours->Table_1;
            if o.dom().contains(k) {
                lemma_merge_incoming_wins(o[k], m[k], path.drop_first());
            }
        }
    }
}

/// A join never overwrites: a value of the tree that was there that is no
/// table stands in the joined tree at the same path, whatever came in.
pub proof fn lemma_join_keeps_existing(ours: Tree, theirs: Tree, path: Seq<Seq<char>>)
    requires
        ours.find(path) is Some,
        !(ours.find(path)->Some_0 is Table),
    ensures
        ours.coalesced(theirs, Order::Join).find(path) == ours.find(path),
    decreases path.len(),
{
    if path.len() > 0 {
        let o = ours->Table_1;
        let k = path[0];
        if theirs is Table {
            let m = theirs->Table_1;
            if m.dom().contains(k) {
                lemma_join_keeps_existing(o[k], m[k], path.drop_first());
            }
        }
    }
}

/// What bringing two tables together gives: every key of either; under a
/// key of both, the two values brought together; under a key of one, its
/// value there.
pub proof fn lemma_coalesced_entries(
    ours: Map<Seq<char>, Tree>,
    theirs: Map<Seq<char>, Tree>,
    order: Order,
)
    ensures
        forall|t: TagView, u: TagView| #[trigger]
            Tree::Table(t, ours).coalesced(Tree::Table(u, theirs), order) == Tree::Table(
                t,
                coalesced_entries(ours, theirs, order),
            ),
        forall|k: Seq<char>| #[trigger]
            coalesced_entries(ours, theirs, order).dom().contains(k) == (ours.dom().contains(k)
                || theirs.dom().contains(k)),
        forall|k: Seq<char>|
            ours.dom().contains(k) && theirs.dom().contains(k) ==> #[trigger] coalesced_entries(
                ours,
                theirs,
                order,
            )[k] == ours[k].coalesced(theirs[k], order),
        forall|k: Seq<char>|
            ours.dom().contains(k) && !theirs.dom().contains(k) ==> #[trigger] coalesced_entries(
                ours,
                theirs,
                order,
            )[k] == ours[k],
        forall|k: Seq<char>|
            !ours.dom().contains(k) && theirs.dom().contains(k) ==> #[trigger] coalesced_entries(
                ours,
                theirs,
                order,
            )[k] == theirs[k],
{
    assert forall|t: TagView, u: TagView| #[trigger]
        Tree::Table(t, ours).coalesced(Tree::Table(u, theirs), order) == Tree::Table(
            t,
            coalesced_entries(ours, theirs, order),
        ) by {
        assert(Tree::Table(t, ours).coalesced(Tree::Table(u, theirs), order)->Table_1
            =~= coalesced_entries(ours, theirs, order));
    }
}

/// What bringing two tables together does under one key of both: two
/// tables are brought together in turn, and of any other pair the incoming
/// value stands under `Merge`, the one that was there under `Join`.
pub proof fn lemma_coalesced_key(
    ours: Map<Seq<char>, Tree>,
    theirs: Map<Seq<char>, Tree>,
    order: Order,
    k: Seq<char>,
)
    requires
        ours.dom().contains(k),
        theirs.dom().contains(k),
    ensures
        coalesced_entries(ours, theirs, order).dom().contains(k),
        ours[k] is Table && theirs[k] is Table ==> coalesced_entries(ours, theirs, order)[k]
            == Tree::Table(
            ours[k].tag(),
            coalesced_entries(ours[k]->Table_1, theirs[k]->Table_1, order),
        ),
        !(ours[k] is Table && theirs[k] is Table) ==> coalesced_entries(ours, theirs, order)[k]
            == (match order {
            Order::Merge => theirs[k],
            Order::Join => ours[k],
        }),
{
    lemma_coalesced_entries(ours, theirs, order);
    if ours[k] is Table && theirs[k] is Table {
        lemma_coalesced_entries(ours[k]->Table_1, theirs[k]->Table_1, order);
    }
}

/// Retagging changes no structure: what stands at a path of the retagged
/// tree is what stood there, retagged.
pub proof fn lemma_retagged_find(tree: Tree, tag: TagView, path: Seq<Seq<char>>)
    ensures
        tree.retagged(tag).find(path) == (match tree.find(path) {
            Some(v) => Some(v.retagged(tag)),
            None => None,
        }),
        tree.retagged(tag).tag() == tag,
    decreases path.len(),
{
    if path.len() > 0 {
        match tree {
            Tree::Table(_, m) => {
                if m.dom().contains(path[0]) {
                    lemma_retagged_find(m[path[0]], tag, path.drop_first());
                }
            },
            _ => {},
        }
    }
}

/// Retagging forgets the tags that were there: retagging twice is
/// retagging with the second tag.
pub proof fn lemma_retagged_twice(tree: Tree, first: TagView, second: TagView)
    ensures
        tree.retagged(first).retagged(second) == tree.retagged(second),
    decreases tree,
{
    match tree {
        Tree::List(_, items) => {
            let a = tree.retagged(first).retagged(second)->List_1;
            let b = tree.retagged(second)->List_1;
            assert forall|i: int| 0 <= i < items.len() implies a[i] == b[i] by {
                lemma_retagged_twice(items[i], first, second);
            }
            assert(a =~= b);
        },
        Tree::Table(_, m) => {
            let a = tree.retagged(first).retagged(second)->Table_1;
            let b = tree.retagged(second)->Table_1;
            assert forall|k: Seq<char>| m.dom().contains(k) implies a[k] == b[k] by {
                lemma_retagged_twice(m[k], first, second);
            }
            assert(a =~= b);
        },
        _ => {},
    }
}

impl Tree {
    /// Whether the tree has nothing at the path because a table on the way
    /// lacks the next key.
    pub open spec fn lacks(self, path: Seq<Seq<char>>) -> bool
        decreases path.len(),
    {
        path.len() > 0 && match self {
            Tree::Table(_, m) => !m.dom().contains(path[0]) || m[path[0]].lacks(
                path.drop_first(),
            ),
            _ => false,
        }
    }
}

/// What the incoming tree lacks is kept: a value of the tree that was
/// there stands at the same path after a merge or a join, where a table
/// of the incoming tree on the way to it lacks the next key.
pub proof fn lemma_coalesce_keeps_absent(
    ours: Tree,
    theirs: Tree,
    order: Order,
    path: Seq<Seq<char>>,
)
    requires
        ours.find(path) is Some,
        theirs.lacks(path),
    ensures
        ours.coalesced(theirs, order).find(path) == ours.find(path),
    decreases path.len(),
{
    let o = ours->Table_1;
    let m = theirs->Table_1;
    let k = path[0];
    if m.dom().contains(k) {
        lemma_coalesce_keeps_absent(o[k], m[k], order, path.drop_first());
    }
}

/// Retagging changes no structure: the retagged tree lacks what the tree
/// lacked.
pub proof fn lemma_retagged_lacks(tree: Tree, tag: TagView, path: Seq<Seq<char>>)
    ensures
        tree.retagged(tag).lacks(path) == tree.lacks(path),
    decreases path.len(),
{
    if path.len() > 0 {
        match tree {
            Tree::Table(_, m) => {
                if m.dom().contains(path[0]) {
                    lemma_retagged_lacks(m[path[0]], tag, path.drop_first());
                }
            },
            _ => {},
        }
    }
}

} // verus!
