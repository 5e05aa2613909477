//! Dotted paths: `a.b.c` names the value under `c` in the dict under `b` in
//! the dict under `a`.

use vstd::prelude::*;
use crate::error::joined;
use crate::error::texts;
use crate::key::folded;
use crate::value::lemma_entries_lookup;
use crate::value::lemma_named_first;
use crate::value::Value;

verus! {

/// The keys of a dotted path: the pieces between its dots, read from the
/// left one character at a time.
pub open spec fn segments(s: Seq<char>) -> Seq<Seq<char>>
    decreases s.len(),
{
    if s.len() == 0 {
        seq![Seq::empty()]
    } else {
        let head = segments(s.drop_last());
        if s.last() == '.' {
            head.push(Seq::empty())
        } else {
            head.drop_last().push(head.last().push(s.last()))
        }
    }
}

/// The folded keys of a dotted path.
pub open spec fn folded_segments(s: Seq<char>) -> Seq<Seq<char>> {
    Seq::new(segments(s).len(), |i: int| folded(segments(s)[i]))
}

/// A path has at least one key, no key holds a dot, and the keys with dots
/// between them are the path.
pub proof fn lemma_segments(s: Seq<char>)
    ensures
        segments(s).len() >= 1,
        forall|i: int, j: int|
            0 <= i < segments(s).len() && 0 <= j < segments(s)[i].len() ==> segments(s)[i][j]
                != '.',
        joined(segments(s), "."@) == s,
    decreases s.len(),
{
    reveal_strlit(".");
    assert("."@ =~= seq!['.']);
    if s.len() == 0 {
        assert(joined(segments(s), "."@) =~= s);
    } else {
        let rest = s.drop_last();
        lemma_segments(rest);
        let head = segments(rest);
        if s.last() == '.' {
            let all = head.push(Seq::empty());
            assert(all.drop_last() =~= head);
            assert(joined(all, "."@) =~= s);
        } else {
            let all = head.drop_last().push(head.last().push(s.last()));
            assert(all.drop_last() =~= head.drop_last());
            if head.len() == 1 {
                assert(joined(all, "."@) =~= s);
            } else {
                assert(joined(head, "."@) == joined(head.drop_last(), "."@) + "."@ + head.last());
                assert(joined(all, "."@) == joined(all.drop_last(), "."@) + "."@ + all.last());
                let pre = joined(head.drop_last(), "."@) + "."@;
                assert(all.last() == head.last().push(s.last()));
                assert(pre + head.last().push(s.last()) =~= (pre + head.last()).push(s.last()));
                assert(rest.push(s.last()) =~= s);
            }
        }
    }
}

/// Splits a dotted path into its keys.
pub fn split(path: &str) -> (keys: Vec<String>)
    ensures
        texts(keys@) == segments(path@),
{
    let n = path.unicode_len();
    let mut keys: Vec<String> = Vec::new();
    let mut start: usize = 0;
    let mut i: usize = 0;
    proof {
        assert(path@.subrange(0, 0) =~= Seq::empty());
        assert(texts(keys@).push(path@.subrange(0, 0)) =~= seq![Seq::empty()]);
    }
    while i < n
        invariant
            n == path@.len(),
            start <= i <= n,
            segments(path@.subrange(0, i as int)) == texts(keys@).push(
                path@.subrange(start as int, i as int),
            ),
        decreases n - i,
    {
        let ghost before = path@.subrange(0, i as int);
        let ghost after = path@.subrange(0, i as int + 1);
        proof {
            assert(after.drop_last() =~= before);
            assert(after.last() == path@[i as int]);
        }
        if path.get_char(i) == '.' {
            let key = path.substring_char(start, i);
            let ghost earlier = texts(keys@);
            keys.push(String::from_str(key));
            start = i + 1;
            proof {
                assert(texts(keys@) =~= earlier.push(key@));
                assert(path@.subrange(start as int, i as int + 1) =~= Seq::empty());
            }
        } else {
            proof {
                let head = segments(before);
                assert(head.drop_last() =~= texts(keys@));
                assert(head.last().push(path@[i as int]) =~= path@.subrange(
                    start as int,
                    i as int + 1,
                ));
            }
        }
        i = i + 1;
    }
    let key = path.substring_char(start, n);
    let ghost before = texts(keys@);
    keys.push(String::from_str(key));
    proof {
        assert(path@.subrange(0, n as int) =~= path@);
        assert(texts(keys@) =~= before.push(key@));
    }
    keys
}

/// The folded keys of a list of keys.
pub open spec fn folded_keys(keys: Seq<Seq<char>>) -> Seq<Seq<char>> {
    Seq::new(keys.len(), |i: int| folded(keys[i]))
}

impl Value {
    /// The value at the end of a path of keys, each a key of the dict that
    /// the keys before it led to.
    pub fn find_keys(&self, keys: &Vec<String>) -> (found: Option<&Value>)
        ensures
            found is Some == self@.find(folded_keys(texts(keys@))) is Some,
            found matches Some(v) ==> Some(v@) == self@.find(folded_keys(texts(keys@))),
            found matches Some(v) ==> Some(v.layout()) == self.layout().find(texts(keys@)),
    {
        let ghost path = folded_keys(texts(keys@));
        let ghost spelled = texts(keys@);
        let mut at: &Value = self;
        let mut i: usize = 0;
        proof {
            assert(path.subrange(0, path.len() as int) =~= path);
            assert(spelled.subrange(0, spelled.len() as int) =~= spelled);
        }
        while i < keys.len()
            invariant
                i <= keys@.len(),
                path == folded_keys(texts(keys@)),
                spelled == texts(keys@),
                self@.find(path) == at@.find(path.subrange(i as int, path.len() as int)),
                self.layout().find(spelled) == at.layout().find(
                    spelled.subrange(i as int, spelled.len() as int),
                ),
            decreases keys@.len() - i,
        {
            let ghost rest = path.subrange(i as int, path.len() as int);
            let ghost named = spelled.subrange(i as int, spelled.len() as int);
            proof {
                assert(rest.drop_first() =~= path.subrange(i as int + 1, path.len() as int));
                assert(rest[0] == folded(keys@[i as int]@));
                assert(named.drop_first() =~= spelled.subrange(
                    i as int + 1,
                    spelled.len() as int,
                ));
                assert(named[0] == keys@[i as int]@);
            }
            match at.as_dict() {
                Some(d) => match d.get(keys[i].as_str()) {
                    Some(v) => {
                        proof {
                            lemma_entries_lookup(d.entries(), folded(keys@[i as int]@));
                            lemma_named_first(d.entries(), keys@[i as int]@);
                        }
                        at = v;
                    },
                    None => {
                        return None;
                    },
                },
                None => {
                    return None;
                },
            }
            i = i + 1;
        }
        proof {
            assert(path.subrange(i as int, path.len() as int).len() == 0);
            assert(spelled.subrange(i as int, spelled.len() as int).len() == 0);
        }
        Some(at)
    }

    /// The value at a dotted path, whatever the case of its keys.
    pub fn find(&self, path: &str) -> (found: Option<&Value>)
        ensures
            found is Some == self@.find(folded_segments(path@)) is Some,
            found matches Some(v) ==> Some(v@) == self@.find(folded_segments(path@)),
            found matches Some(v) ==> Some(v.layout()) == self.layout().find(segments(path@)),
    {
        let keys = split(path);
        proof {
            assert(folded_keys(texts(keys@)) =~= folded_segments(path@));
        }
        let found = self.find_keys(&keys);
        match found {
            Some(v) => Some(v),
            None => None,
        }
    }
}

} // verus!
