//! The two mappings of a document: a group, from keys to values, and the
//! sections, from names to groups. Each keeps its entries in the order in
//! which they first came, and holds no key twice.

use crate::grammar::{fold, lemma_fold_empty, Atom, Datum};
use crate::parse::{Key, Value};
use crate::scan::same_text;
use vstd::prelude::*;
use vstd::string::*;

verus! {

/// Whether no two entries of `p` have the same key.
pub open spec fn distinct<K, V>(p: Seq<(K, V)>) -> bool {
    forall|i: int, j: int| 0 <= i < j < p.len() ==> p[i].0 != p[j].0
}

/// The keys of `fold(p)` are the keys of the entries of `p`.
pub proof fn lemma_fold_keys<K, V>(p: Seq<(K, V)>, k: K)
    ensures
        fold(p).contains_key(k) <==> exists|i: int| 0 <= i < p.len() && (#[trigger] p[i]).0 == k,
    decreases p.len(),
{
    if p.len() > 0 {
        let q = p.drop_last();
        lemma_fold_keys(q, k);
        if fold(p).contains_key(k) {
            if p.last().0 == k {
                assert(p[p.len() - 1].0 == k);
            } else {
                let i = choose|i: int| 0 <= i < q.len() && (#[trigger] q[i]).0 == k;
                assert(p[i].0 == k);
            }
        }
        if exists|i: int| 0 <= i < p.len() && (#[trigger] p[i]).0 == k {
            let i = choose|i: int| 0 <= i < p.len() && (#[trigger] p[i]).0 == k;
            if i < p.len() - 1 {
                assert(q[i].0 == k);
            }
        }
    }
}

/// Where no key comes twice, `fold(p)` gives each key the value of its entry.
pub proof fn lemma_fold_at<K, V>(p: Seq<(K, V)>, i: int)
    requires
        distinct(p),
        0 <= i < p.len(),
    ensures
        fold(p).contains_key(p[i].0),
        fold(p)[p[i].0] == p[i].1,
    decreases p.len(),
{
    let q = p.drop_last();
    if i < p.len() - 1 {
        assert(distinct(q)) by {
            assert forall|a: int, b: int| 0 <= a < b < q.len() implies q[a].0 != q[b].0 by {
                assert(p[a].0 != p[b].0);
            }
        }
        lemma_fold_at(q, i);
        assert(q[i] == p[i]);
        assert(p[i].0 != p[p.len() - 1].0);
    }
}

/// Where no key comes twice, `fold(p)` has as many keys as `p` has entries.
pub proof fn lemma_fold_len<K, V>(p: Seq<(K, V)>)
    requires
        distinct(p),
    ensures
        fold(p).dom().finite(),
        fold(p).len() == p.len(),
    decreases p.len(),
{
    if p.len() > 0 {
        let q = p.drop_last();
        assert(distinct(q)) by {
            assert forall|a: int, b: int| 0 <= a < b < q.len() implies q[a].0 != q[b].0 by {
                assert(p[a].0 != p[b].0);
            }
        }
        lemma_fold_len(q);
        lemma_fold_keys(q, p.last().0);
        if fold(q).contains_key(p.last().0) {
            let i = choose|i: int| 0 <= i < q.len() && (#[trigger] q[i]).0 == p.last().0;
            assert(p[i].0 == p[p.len() - 1].0);
        }
    }
}

/// To write a new value into the entry of a key is to insert the key anew.
pub proof fn lemma_fold_update<K, V>(p: Seq<(K, V)>, i: int, v: V)
    requires
        distinct(p),
        0 <= i < p.len(),
    ensures
        distinct(p.update(i, (p[i].0, v))),
        fold(p.update(i, (p[i].0, v))) == fold(p).insert(p[i].0, v),
    decreases p.len(),
{
    let k = p[i].0;
    let r = p.update(i, (k, v));
    let q = p.drop_last();
    assert(distinct(r)) by {
        assert forall|a: int, b: int| 0 <= a < b < r.len() implies r[a].0 != r[b].0 by {
            assert(p[a].0 != p[b].0);
        }
    }
    if i == p.len() - 1 {
        assert(r.drop_last() =~= q);
        assert(fold(r) =~= fold(p).insert(k, v));
    } else {
        assert(distinct(q)) by {
            assert forall|a: int, b: int| 0 <= a < b < q.len() implies q[a].0 != q[b].0 by {
                assert(p[a].0 != p[b].0);
            }
        }
        lemma_fold_update(q, i, v);
        assert(r.drop_last() =~= q.update(i, (k, v)));
        assert(p[i].0 != p[p.len() - 1].0);
        assert(fold(r) =~= fold(p).insert(k, v));
    }
}

/// The keys and values of the entries, as the contracts speak of them.
pub open spec fn pairs_of(e: Seq<(Key<'_>, Value<'_>)>) -> Seq<(Atom, Datum)> {
    Seq::new(e.len(), |i: int| (e[i].0@, e[i].1@))
}

/// The keys and values of one section, or of the lines before the first one.
#[derive(Debug)]
pub struct Group<'a> {
    entries: Vec<(Key<'a>, Value<'a>)>,
}

impl<'a> View for Group<'a> {
    type V = Map<Atom, Datum>;

    closed spec fn view(&self) -> Map<Atom, Datum> {
        fold(pairs_of(self.entries@))
    }
}

impl<'a> Group<'a> {
    #[verifier::type_invariant]
    spec fn wf(self) -> bool {
        distinct(pairs_of(self.entries@))
    }

    /// A group without entries.
    pub fn new() -> (r: Self)
        ensures
            r@ == Map::<Atom, Datum>::empty(),
    {
        Group { entries: Vec::new() }
    }

    /// The number of keys.
    pub fn len(&self) -> (r: usize)
        ensures
            self@.dom().finite(),
            r == self@.len(),
    {
        proof {
            use_type_invariant(self);
            lemma_fold_len(pairs_of(self.entries@));
        }
        self.entries.len()
    }

    /// The entries of the group, each key once, in the order in which the
    /// keys first came.
    pub fn entries(&self) -> (r: &Vec<(Key<'a>, Value<'a>)>)
        ensures
            distinct(pairs_of(r@)),
            fold(pairs_of(r@)) == self@,
    {
        proof {
            use_type_invariant(self);
        }
        &self.entries
    }

    /// Whether the group has no key.
    pub fn is_empty(&self) -> (r: bool)
        ensures
            r == (self@ == Map::<Atom, Datum>::empty()),
    {
        proof {
            lemma_fold_empty(pairs_of(self.entries@));
        }
        self.entries.len() == 0
    }

    fn find(&self, key: &Key<'a>) -> (r: Option<usize>)
        ensures
            match r {
                Some(i) => i < self.entries@.len() && self.entries@[i as int].0@ == key@,
                None => forall|j: int|
                    0 <= j < self.entries@.len() ==> (#[trigger] self.entries@[j]).0@ != key@,
            },
    {
        let mut i: usize = 0;
        while i < self.entries.len()
            invariant
                i <= self.entries@.len(),
                forall|j: int| 0 <= j < i ==> (#[trigger] self.entries@[j]).0@ != key@,
            decreases self.entries@.len() - i,
        {
            if self.entries[i].0 == *key {
                return Some(i);
            }
            i += 1;
        }
        None
    }

    /// The value of `key`, where the group has the key.
    pub fn get(&self, key: &Key<'a>) -> (r: Option<&Value<'a>>)
        ensures
            match r {
                Some(v) => self@.contains_key(key@) && self@[key@] == v@,
                None => !self@.contains_key(key@),
            },
    {
        let ghost p = pairs_of(self.entries@);
        proof {
            use_type_invariant(self);
            lemma_fold_keys(p, key@);
        }
        match self.find(key) {
            Some(i) => {
                proof {
                    lemma_fold_at(p, i as int);
                    assert(p[i as int].0 == key@);
                }
                Some(&self.entries[i].1)
            },
            None => {
                proof {
                    if fold(p).contains_key(key@) {
                        let j = choose|j: int| 0 <= j < p.len() && (#[trigger] p[j]).0 == key@;
                        assert(self.entries@[j].0@ == key@);
                    }
                }
                None
            },
        }
    }

    /// Whether the group has `key`.
    pub fn contains_key(&self, key: &Key<'a>) -> (r: bool)
        ensures
            r == self@.contains_key(key@),
    {
        self.get(key).is_some()
    }

    /// The group with `key` given the value `value`, in place of the one it had, if any.
    fn with(self, key: Key<'a>, value: Value<'a>) -> (r: Self)
        ensures
            r@ == self@.insert(key@, value@),
    {
        let ghost p = pairs_of(self.entries@);
        proof {
            use_type_invariant(&self);
        }
        let found = self.find(&key);
        let mut entries = self.entries;
        match found {
            Some(i) => {
                proof {
                    lemma_fold_update(p, i as int, value@);
                    assert(p[i as int].0 == key@);
                }
                entries.set(i, (key, value));
                assert(pairs_of(entries@) =~= p.update(i as int, (key@, value@)));
            },
            None => {
                entries.push((key, value));
                proof {
                    let r = pairs_of(entries@);
                    assert(r.drop_last() =~= p);
                    assert(r.last() == (key@, value@));
                    assert forall|a: int, b: int| 0 <= a < b < r.len() implies r[a].0
                        != r[b].0 by {
                        assert(r[a] == p[a]);
                        if b < p.len() {
                            assert(r[b] == p[b]);
                        } else {
                            assert(self.entries@[a].0@ != key@);
                        }
                    }
                }
            },
        }
        Group { entries }
    }

    /// Gives `key` the value `value`, in place of the one it had, if any.
    pub fn insert(&mut self, key: Key<'a>, value: Value<'a>)
        ensures
            final(self)@ == old(self)@.insert(key@, value@),
    {
        let mut held = Group::new();
        core::mem::swap(self, &mut held);
        *self = held.with(key, value);
    }
}

/// The names and groups of the entries, as the contracts speak of them.
pub open spec fn groups_of(e: Seq<(&str, Group<'_>)>) -> Seq<(Seq<u8>, Map<Atom, Datum>)> {
    Seq::new(e.len(), |i: int| (e[i].0.spec_bytes(), e[i].1@))
}

/// The groups of a document, each under the name of its section.
#[derive(Debug)]
pub struct Sections<'a> {
    entries: Vec<(&'a str, Group<'a>)>,
}

impl<'a> View for Sections<'a> {
    type V = Map<Seq<u8>, Map<Atom, Datum>>;

    closed spec fn view(&self) -> Map<Seq<u8>, Map<Atom, Datum>> {
        fold(groups_of(self.entries@))
    }
}

impl<'a> Sections<'a> {
    #[verifier::type_invariant]
    spec fn wf(self) -> bool {
        distinct(groups_of(self.entries@))
    }

    /// A document without sections.
    pub fn new() -> (r: Self)
        ensures
            r@ == Map::<Seq<u8>, Map<Atom, Datum>>::empty(),
    {
        Sections { entries: Vec::new() }
    }

    /// The number of sections.
    pub fn len(&self) -> (r: usize)
        ensures
            self@.dom().finite(),
            r == self@.len(),
    {
        proof {
            use_type_invariant(self);
            lemma_fold_len(groups_of(self.entries@));
        }
        self.entries.len()
    }

    /// The sections of the document, each name once, in the order in which
    /// the names first came.
    pub fn entries(&self) -> (r: &Vec<(&'a str, Group<'a>)>)
        ensures
            distinct(groups_of(r@)),
            fold(groups_of(r@)) == self@,
    {
        proof {
            use_type_invariant(self);
        }
        &self.entries
    }

    fn find(&self, name: &str) -> (r: Option<usize>)
        ensures
            match r {
                Some(i) => i < self.entries@.len() && self.entries@[i as int].0.spec_bytes()
                    == name.spec_bytes(),
                None => forall|j: int|
                    0 <= j < self.entries@.len() ==> (#[trigger] self.entries@[j]).0.spec_bytes()
                        != name.spec_bytes(),
            },
    {
        let mut i: usize = 0;
        while i < self.entries.len()
            invariant
                i <= self.entries@.len(),
                forall|j: int|
                    0 <= j < i ==> (#[trigger] self.entries@[j]).0.spec_bytes()
                        != name.spec_bytes(),
            decreases self.entries@.len() - i,
        {
            if same_text(self.entries[i].0, name) {
                return Some(i);
            }
            i += 1;
        }
        None
    }

    /// The group of the section `name`, where the document has one.
    pub fn get(&self, name: &str) -> (r: Option<&Group<'a>>)
        ensures
            match r {
                Some(g) => self@.contains_key(name.spec_bytes()) && self@[name.spec_bytes()]
                    == g@,
                None => !self@.contains_key(name.spec_bytes()),
            },
    {
        let ghost p = groups_of(self.entries@);
        proof {
            use_type_invariant(self);
            lemma_fold_keys(p, name.spec_bytes());
        }
        match self.find(name) {
            Some(i) => {
                proof {
                    lemma_fold_at(p, i as int);
                    assert(p[i as int].0 == name.spec_bytes());
                }
                Some(&self.entries[i].1)
            },
            None => {
                proof {
                    if fold(p).contains_key(name.spec_bytes()) {
                        let j = choose|j: int|
                            0 <= j < p.len() && (#[trigger] p[j]).0 == name.spec_bytes();
                        assert(self.entries@[j].0.spec_bytes() == name.spec_bytes());
                    }
                }
                None
            },
        }
    }

    /// Whether the document has a section `name`.
    pub fn contains_key(&self, name: &str) -> (r: bool)
        ensures
            r == self@.contains_key(name.spec_bytes()),
    {
        self.get(name).is_some()
    }

    fn with(self, name: &'a str, group: Group<'a>) -> (r: Self)
        ensures
            r@ == self@.insert(name.spec_bytes(), group@),
    {
        let ghost p = groups_of(self.entries@);
        proof {
            use_type_invariant(&self);
        }
        let found = self.find(name);
        let mut entries = self.entries;
        match found {
            Some(i) => {
                proof {
                    lemma_fold_update(p, i as int, group@);
                    assert(p[i as int].0 == name.spec_bytes());
                }
                entries.set(i, (name, group));
                assert(groups_of(entries@) =~= p.update(i as int, (name.spec_bytes(), group@)));
            },
            None => {
                entries.push((name, group));
                proof {
                    let r = groups_of(entries@);
                    assert(r.drop_last() =~= p);
                    assert(r.last() == (name.spec_bytes(), group@));
                    assert forall|a: int, b: int| 0 <= a < b < r.len() implies r[a].0
                        != r[b].0 by {
                        assert(r[a] == p[a]);
                        if b < p.len() {
                            assert(r[b] == p[b]);
                        } else {
                            assert(self.entries@[a].0.spec_bytes() != name.spec_bytes());
                        }
                    }
                }
            },
        }
        Sections { entries }
    }

    /// Puts `group` under `name`, in place of the group that was there, if any.
    pub fn insert(&mut self, name: &'a str, group: Group<'a>)
        ensures
            final(self)@ == old(self)@.insert(name.spec_bytes(), group@),
    {
        let mut held = Sections::new();
        core::mem::swap(self, &mut held);
        *self = held.with(name, group);
    }
}

} // verus!
