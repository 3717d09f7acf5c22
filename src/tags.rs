//! The tag pairs of a game: a map from tag name to value, where a later value
//! for a name replaces the earlier one.

use vstd::prelude::*;
use vstd::string::StringExecFns;

verus! {

/// The map that a list of (name, value) entries denotes.
pub open spec fn map_of(e: Seq<(Seq<char>, Seq<char>)>) -> Map<Seq<char>, Seq<char>>
    decreases e.len(),
{
    if e.len() == 0 {
        Map::empty()
    } else {
        map_of(e.drop_last()).insert(e.last().0, e.last().1)
    }
}

pub open spec fn keys_unique(e: Seq<(Seq<char>, Seq<char>)>) -> bool {
    forall|i: int, j: int| 0 <= i < j < e.len() ==> e[i].0 != e[j].0
}

proof fn lemma_map_of_index(e: Seq<(Seq<char>, Seq<char>)>, i: int)
    requires
        keys_unique(e),
        0 <= i < e.len(),
    ensures
        map_of(e).contains_key(e[i].0),
        map_of(e)[e[i].0] == e[i].1,
    decreases e.len(),
{
    if i < e.len() - 1 {
        let d = e.drop_last();
        assert(d[i] == e[i]);
        assert(keys_unique(d));
        lemma_map_of_index(d, i);
    }
}

proof fn lemma_map_of_absent(e: Seq<(Seq<char>, Seq<char>)>, k: Seq<char>)
    requires
        forall|i: int| 0 <= i < e.len() ==> e[i].0 != k,
    ensures
        !map_of(e).contains_key(k),
    decreases e.len(),
{
    if e.len() > 0 {
        let d = e.drop_last();
        assert forall|i: int| 0 <= i < d.len() implies d[i].0 != k by {
            assert(d[i] == e[i]);
        }
        lemma_map_of_absent(d, k);
    }
}

proof fn lemma_map_of_update(e: Seq<(Seq<char>, Seq<char>)>, i: int, v: Seq<char>)
    requires
        keys_unique(e),
        0 <= i < e.len(),
    ensures
        map_of(e.update(i, (e[i].0, v))) == map_of(e).insert(e[i].0, v),
    decreases e.len(),
{
    let u = e.update(i, (e[i].0, v));
    let d = e.drop_last();
    if i == e.len() - 1 {
        assert(u.drop_last() =~= d);
        assert(map_of(u) =~= map_of(e).insert(e[i].0, v));
    } else {
        assert(u.drop_last() =~= d.update(i, (d[i].0, v)));
        assert(keys_unique(d));
        lemma_map_of_update(d, i, v);
        assert(e.last().0 != e[i].0);
        assert(map_of(u) =~= map_of(e).insert(e[i].0, v));
    }
}

/// Tag pairs, kept in the order their names first appeared.
pub struct Tags {
    entries: Vec<(String, String)>,
}

impl Tags {
    /// The entries as (name, value) character sequences.
    pub closed spec fn entries(&self) -> Seq<(Seq<char>, Seq<char>)> {
        self.entries@.map_values(|p: (String, String)| (p.0@, p.1@))
    }

    /// Names are unique.
    pub open spec fn wf(&self) -> bool {
        keys_unique(self.entries())
    }

    pub fn new() -> (r: Tags)
        ensures
            r.wf(),
            r@ == Map::<Seq<char>, Seq<char>>::empty(),
    {
        let r = Tags { entries: Vec::new() };
        assert(r.entries() =~= seq![]);
        r
    }

    /// The number of distinct names.
    pub fn len(&self) -> (r: usize)
        requires
            self.wf(),
        ensures
            r == self@.len(),
    {
        proof {
            self.lemma_len();
        }
        self.entries.len()
    }

    pub fn is_empty(&self) -> (r: bool)
        requires
            self.wf(),
        ensures
            r == (self@.len() == 0),
    {
        self.len() == 0
    }

    proof fn lemma_len(&self)
        requires
            self.wf(),
        ensures
            self@.len() == self.entries@.len(),
    {
        let e = self.entries();
        let names = Seq::new(e.len(), |i: int| e[i].0);
        assert(names.no_duplicates());
        names.unique_seq_to_set();
        assert(names.to_set() =~= self@.dom()) by {
            assert forall|k: Seq<char>| names.to_set().contains(k) implies self@.dom().contains(k) by {
                let i = choose|i: int| 0 <= i < names.len() && names[i] == k;
                lemma_map_of_index(e, i);
            }
            assert forall|k: Seq<char>| self@.dom().contains(k) implies names.to_set().contains(k) by {
                if !(exists|i: int| 0 <= i < e.len() && e[i].0 == k) {
                    lemma_map_of_absent(e, k);
                }
                let i = choose|i: int| 0 <= i < e.len() && e[i].0 == k;
                assert(names[i] == k);
            }
        }
    }

    /// The position of `key` among the entries.
    fn find(&self, key: &String) -> (r: Option<usize>)
        requires
            self.wf(),
        ensures
            match r {
                None => !self@.contains_key(key@),
                Some(i) => i < self.entries@.len() && self.entries()[i as int].0 == key@,
            },
    {
        let mut i: usize = 0;
        while i < self.entries.len()
            invariant
                i <= self.entries@.len(),
                forall|j: int| 0 <= j < i ==> self.entries()[j].0 != key@,
            decreases self.entries@.len() - i,
        {
            if self.entries[i].0 == *key {
                return Some(i);
            }
            i += 1;
        }
        proof {
            lemma_map_of_absent(self.entries(), key@);
        }
        None
    }

    /// The value of the tag named `key`.
    pub fn get(&self, key: &str) -> (r: Option<&String>)
        requires
            self.wf(),
        ensures
            match r {
                None => !self@.contains_key(key@),
                Some(v) => self@.contains_key(key@) && v@ == self@[key@],
            },
    {
        let k = String::from_str(key);
        match self.find(&k) {
            None => None,
            Some(i) => {
                proof {
                    lemma_map_of_index(self.entries(), i as int);
                }
                Some(&self.entries[i].1)
            },
        }
    }

    /// Sets the tag `key` to `value`, replacing any earlier value.
    pub fn insert(&mut self, key: String, value: String)
        requires
            old(self).wf(),
        ensures
            final(self).wf(),
            final(self)@ == old(self)@.insert(key@, value@),
    {
        match self.find(&key) {
            Some(i) => {
                let ghost e = self.entries();
                proof {
                    lemma_map_of_update(e, i as int, value@);
                }
                self.entries.set(i, (key, value));
                assert(self.entries() =~= e.update(i as int, (e[i as int].0, value@)));
            },
            None => {
                let ghost e = self.entries();
                let ghost kv = key@;
                let ghost vv = value@;
                self.entries.push((key, value));
                assert(self.entries() =~= e.push((kv, vv)));
                assert(self.entries().drop_last() =~= e);
                proof {
                    assert forall|j: int| 0 <= j < e.len() implies e[j].0 != kv by {
                        if e[j].0 == kv {
                            lemma_map_of_index(e, j);
                        }
                    }
                }
            },
        }
    }
}

impl View for Tags {
    type V = Map<Seq<char>, Seq<char>>;

    closed spec fn view(&self) -> Map<Seq<char>, Seq<char>> {
        map_of(self.entries())
    }
}

} // verus!
