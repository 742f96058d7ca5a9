//! An ordered map from strings to strings: keys are unique, insertion order is
//! kept, and inserting an existing key replaces its value in place.
use vstd::prelude::*;

verus! {

/// Key/value pairs of character sequences, in order.
pub type Pairs = Seq<(Seq<char>, Seq<char>)>;

/// Does some pair of `s` have the key `k`?
pub open spec fn has_key(s: Pairs, k: Seq<char>) -> bool {
    exists|i: int| 0 <= i < s.len() && (#[trigger] s[i]).0 == k
}

/// A position of `s` whose key is `k`.
pub open spec fn key_index(s: Pairs, k: Seq<char>) -> int {
    choose|i: int| 0 <= i < s.len() && (#[trigger] s[i]).0 == k
}

/// No key occurs twice in `s`.
pub open spec fn keys_unique(s: Pairs) -> bool {
    forall|i: int, j: int|
        0 <= i < s.len() && 0 <= j < s.len() && (#[trigger] s[i]).0 == (#[trigger] s[j]).0 ==> i
            == j
}

/// The value of `k` in `s`.
pub open spec fn lookup(s: Pairs, k: Seq<char>) -> Option<Seq<char>> {
    if has_key(s, k) {
        Some(s[key_index(s, k)].1)
    } else {
        None
    }
}

/// `s` with `k` bound to `v`: in place if `k` has a pair, else at the end.
pub open spec fn assoc_set(s: Pairs, k: Seq<char>, v: Seq<char>) -> Pairs {
    if has_key(s, k) {
        s.update(key_index(s, k), (k, v))
    } else {
        s.push((k, v))
    }
}

/// Binding keys to values one after another, the last binding of a key winning.
pub open spec fn assoc_all(s: Pairs, kvs: Pairs) -> Pairs
    decreases kvs.len(),
{
    if kvs.len() == 0 {
        s
    } else {
        let last = kvs.last();
        assoc_set(assoc_all(s, kvs.drop_last()), last.0, last.1)
    }
}

/// Binding a key keeps the keys unique.
pub proof fn lemma_assoc_set_unique(s: Pairs, k: Seq<char>, v: Seq<char>)
    requires
        keys_unique(s),
    ensures
        keys_unique(assoc_set(s, k, v)),
        lookup(assoc_set(s, k, v), k) == Some(v),
        forall|k2: Seq<char>| k2 != k ==> lookup(assoc_set(s, k, v), k2) == lookup(s, k2),
{
    let r = assoc_set(s, k, v);
    if has_key(s, k) {
        let i = key_index(s, k);
        assert(r[i].0 == k);
        assert forall|k2: Seq<char>| k2 != k implies lookup(r, k2) == lookup(s, k2) by {
            if has_key(s, k2) {
                let j = key_index(s, k2);
                assert(r[j].0 == k2);
            }
            if has_key(r, k2) {
                let j = key_index(r, k2);
                assert(s[j].0 == k2);
            }
        }
    } else {
        let n = s.len() as int;
        assert(r[n].0 == k);
        assert forall|k2: Seq<char>| k2 != k implies lookup(r, k2) == lookup(s, k2) by {
            if has_key(s, k2) {
                let j = key_index(s, k2);
                assert(r[j].0 == k2);
            }
            if has_key(r, k2) {
                let j = key_index(r, k2);
                assert(s[j].0 == k2);
            }
        }
    }
}

/// Binding keys one after another keeps the keys unique.
pub proof fn lemma_assoc_all_unique(s: Pairs, kvs: Pairs)
    requires
        keys_unique(s),
    ensures
        keys_unique(assoc_all(s, kvs)),
    decreases kvs.len(),
{
    if kvs.len() > 0 {
        lemma_assoc_all_unique(s, kvs.drop_last());
        lemma_assoc_set_unique(assoc_all(s, kvs.drop_last()), kvs.last().0, kvs.last().1);
    }
}

/// The views of string pairs.
pub open spec fn pairs_view(e: Seq<(String, String)>) -> Pairs {
    e.map_values(|p: (String, String)| (p.0@, p.1@))
}

/// An ordered string map.
pub struct StringMap {
    entries: Vec<(String, String)>,
}

impl View for StringMap {
    type V = Pairs;

    closed spec fn view(&self) -> Pairs {
        pairs_view(self.entries@)
    }
}

impl StringMap {
    /// Its keys are unique.
    pub open spec fn wf(&self) -> bool {
        keys_unique(self@)
    }

    /// The empty map.
    pub fn new() -> (r: StringMap)
        ensures
            r@ == Seq::<(Seq<char>, Seq<char>)>::empty(),
            r.wf(),
    {
        let r = StringMap { entries: Vec::new() };
        assert(r@ =~= Seq::<(Seq<char>, Seq<char>)>::empty());
        r
    }

    /// The number of pairs.
    pub fn len(&self) -> (r: usize)
        ensures
            r == self@.len(),
    {
        self.entries.len()
    }

    /// The key and the value at position `i`.
    pub fn entry(&self, i: usize) -> (r: (&String, &String))
        requires
            i < self@.len(),
        ensures
            (r.0@, r.1@) == self@[i as int],
    {
        let e = &self.entries[i];
        (&e.0, &e.1)
    }

    /// The position of `key`, if it has a pair.
    fn find(&self, key: &String) -> (r: Option<usize>)
        requires
            self.wf(),
        ensures
            match r {
                Some(i) => i < self@.len() && self@[i as int].0 == key@ && key_index(self@, key@)
                    == i,
                None => !has_key(self@, key@),
            },
    {
        let mut i: usize = 0;
        while i < self.entries.len()
            invariant
                i <= self.entries.len(),
                self.wf(),
                forall|j: int| 0 <= j < i ==> (#[trigger] self@[j]).0 != key@,
            decreases self.entries.len() - i,
        {
            if self.entries[i].0 == *key {
                assert(self@[i as int].0 == key@);
                return Some(i);
            }
            assert(self@[i as int].0 != key@);
            i = i + 1;
        }
        None
    }

    /// The value of `key`.
    pub fn get(&self, key: &String) -> (r: Option<&String>)
        requires
            self.wf(),
        ensures
            match r {
                Some(v) => lookup(self@, key@) == Some(v@),
                None => lookup(self@, key@) is None,
            },
    {
        match self.find(key) {
            Some(i) => Some(&self.entries[i].1),
            None => None,
        }
    }

    /// Binds `key` to `value`, replacing the value in place where `key` has a pair.
    pub fn insert(&mut self, key: String, value: String)
        requires
            old(self).wf(),
        ensures
            final(self).wf(),
            final(self)@ == assoc_set(old(self)@, key@, value@),
    {
        proof {
            lemma_assoc_set_unique(self@, key@, value@);
        }
        let ghost kv = (key@, value@);
        match self.find(&key) {
            Some(i) => {
                self.entries.set(i, (key, value));
                assert(self@ =~= old(self)@.update(i as int, kv));
            },
            None => {
                self.entries.push((key, value));
                assert(self@ =~= old(self)@.push(kv));
            },
        }
    }
}

} // verus!
