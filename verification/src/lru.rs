//! A cache that remembers which of its entries was used last.

use std::hash::Hash;
use vstd::prelude::*;
use vstd::std_specs::cmp::PartialEqSpec;

verus! {

/// Whether `==` on keys of type `K` tells whether two keys are the same.
pub open spec fn keys_compare<K: PartialEq>() -> bool {
    &&& K::obeys_eq_spec()
    &&& forall|a: K, b: K| #[trigger] a.eq_spec(&b) <==> a == b
}

/// The position of the first entry with the key, or the length if there is
/// none.
pub open spec fn key_index<K, V>(s: Seq<(K, V)>, key: K) -> int
    decreases s.len(),
{
    if s.len() == 0 {
        0
    } else if s[0].0 == key {
        0
    } else {
        1 + key_index(s.drop_first(), key)
    }
}

/// No key occurs twice.
pub open spec fn unique_keys<K, V>(s: Seq<(K, V)>) -> bool {
    forall|i: int, j: int| 0 <= i < j < s.len() ==> s[i].0 != s[j].0
}

pub proof fn lemma_key_index<K, V>(s: Seq<(K, V)>, key: K)
    ensures
        0 <= key_index(s, key) <= s.len(),
        key_index(s, key) < s.len() ==> s[key_index(s, key)].0 == key,
        forall|i: int| 0 <= i < key_index(s, key) ==> (#[trigger] s[i]).0 != key,
    decreases s.len(),
{
    if s.len() > 0 && s[0].0 != key {
        let rest = s.drop_first();
        lemma_key_index(rest, key);
        assert forall|i: int| 0 <= i < key_index(s, key) implies (#[trigger] s[i]).0
            != key by {
            if i > 0 {
                assert(s[i] == rest[i - 1]);
            }
        }
    }
}

/// A cache whose entries are kept in the order of their last use, the one
/// used last first. No key is held twice.
pub struct LRUCache<K, V> {
    entries: Vec<(K, V)>,
}

impl<K: Hash + Eq + Clone, V> LRUCache<K, V> {
    /// The entries, the one used last first.
    pub closed spec fn view(&self) -> Seq<(K, V)> {
        self.entries@
    }

    /// The invariant of the cache.
    pub open spec fn wf(&self) -> bool {
        unique_keys(self@)
    }

    /// Whether the cache holds the key.
    pub open spec fn spec_contains_key(&self, key: K) -> bool {
        key_index(self@, key) < self@.len()
    }

    /// An empty cache.
    pub fn new() -> (c: Self)
        ensures
            c.wf(),
            c@ == Seq::<(K, V)>::empty(),
    {
        LRUCache { entries: Vec::new() }
    }

    fn find(&self, key: &K) -> (p: usize)
        requires
            keys_compare::<K>(),
        ensures
            p == key_index(self@, *key),
            p <= self@.len(),
    {
        let mut i: usize = 0;
        while i < self.entries.len()
            invariant
                i <= self.entries@.len(),
                keys_compare::<K>(),
                forall|j: int| 0 <= j < i ==> (#[trigger] self.entries@[j]).0 != *key,
            decreases self.entries@.len() - i,
        {
            if self.entries[i].0 == *key {
                proof {
                    assert(self.entries@[i as int].0.eq_spec(key));
                    lemma_key_index(self@, *key);
                    let p = key_index(self@, *key);
                    if p < i {
                        assert(self.entries@[p].0 != *key);
                    }
                }
                return i;
            }
            proof {
                assert(!self.entries@[i as int].0.eq_spec(key));
            }
            i = i + 1;
        }
        proof {
            lemma_key_index(self@, *key);
            let p = key_index(self@, *key);
            if p < self@.len() {
                assert(self.entries@[p].0 != *key);
            }
        }
        i
    }

    /// Looks the key up and marks its entry as the one used last.
    pub fn get(&mut self, key: &K) -> (r: Option<&V>)
        requires
            old(self).wf(),
            keys_compare::<K>(),
        ensures
            final(self).wf(),
            r.is_some() == old(self).spec_contains_key(*key),
            r.is_some() ==> *r.unwrap() == old(self)@[key_index(old(self)@, *key)].1 && final(self)@ == old(self)@.remove(key_index(old(self)@, *key)).insert(
                0,
                old(self)@[key_index(old(self)@, *key)],
            ),
            r.is_none() ==> final(self)@ == old(self)@,
    {
        let p = self.find(key);
        if p < self.entries.len() {
            let ghost before = self.entries@;
            let item = self.entries.remove(p);
            self.entries.insert(0, item);
            proof {
                lemma_moved_front(before, p as int);
            }
            Some(&self.entries[0].1)
        } else {
            None
        }
    }

    /// Looks the key up, marks its entry as the one used last, and hands
    /// out its value to be changed.
    #[verifier::rlimit(50)]
    pub fn get_mut(&mut self, key: &K) -> (r: Option<&mut V>)
        requires
            old(self).wf(),
            keys_compare::<K>(),
        ensures
            final(self).wf(),
            r.is_some() == old(self).spec_contains_key(*key),
            r.is_none() ==> final(self)@ == old(self)@,
            match r {
                Some(v) => *v == old(self)@[key_index(old(self)@, *key)].1 && final(self)@ == old(self)@.remove(key_index(old(self)@, *key)).insert(
                    0,
                    (old(self)@[key_index(old(self)@, *key)].0, *final(v)),
                ),
                None => true,
            },
    {
        let p = self.find(key);
        if p < self.entries.len() {
            let ghost before = self.entries@;
            proof {
                lemma_key_index(before, *key);
                assert forall|v: V| #![auto] unique_keys(
                    before.remove(p as int).insert(0, (before[p as int].0, v)),
                ) by {
                    lemma_replaced_front(before, p as int, (before[p as int].0, v));
                }
            }
            let item = self.entries.remove(p);
            self.entries.insert(0, item);
            Some(&mut self.entries[0].1)
        } else {
            None
        }
    }

    /// Sets the value of the key and marks its entry as the one used last.
    /// Returns the value that was held.
    #[verifier::rlimit(50)]
    pub fn insert(&mut self, key: K, value: V) -> (r: Option<V>)
        requires
            old(self).wf(),
            keys_compare::<K>(),
        ensures
            final(self).wf(),
            r.is_some() == old(self).spec_contains_key(key),
            r.is_some() ==> r.unwrap() == old(self)@[key_index(old(self)@, key)].1 && final(self)@ == old(self)@.remove(key_index(old(self)@, key)).insert(0, (key, value)),
            r.is_none() ==> final(self)@ == old(self)@.insert(0, (key, value)),
            final(self)@.len() > 0,
            final(self)@[0] == (key, value),
    {
        let p = self.find(&key);
        let ghost before = self.entries@;
        proof {
            lemma_key_index(before, key);
        }
        if p < self.entries.len() {
            let item = self.entries.remove(p);
            self.entries.insert(0, (key, value));
            proof {
                lemma_replaced_front(before, p as int, (key, value));
            }
            Some(item.1)
        } else {
            self.entries.insert(0, (key, value));
            proof {
                let after = self.entries@;
                assert forall|i: int, j: int| 0 <= i < j < after.len() implies after[i].0
                    != after[j].0 by {
                    if i == 0 {
                        assert(after[j] == before[j - 1]);
                    } else {
                        assert(after[i] == before[i - 1] && after[j] == before[j - 1]);
                    }
                }
            }
            None
        }
    }

    /// Takes out the entry that was used longest ago.
    pub fn pop(&mut self) -> (r: Option<V>)
        requires
            old(self).wf(),
        ensures
            final(self).wf(),
            r.is_some() == (old(self)@.len() > 0),
            r.is_some() ==> r.unwrap() == old(self)@.last().1 && final(self)@ == old(self)@.drop_last(),
            r.is_none() ==> final(self)@ == old(self)@,
    {
        match self.entries.pop() {
            Some(item) => Some(item.1),
            None => None,
        }
    }

    /// Takes out the entry of the key.
    #[verifier::rlimit(50)]
    pub fn remove(&mut self, key: &K) -> (r: Option<V>)
        requires
            old(self).wf(),
            keys_compare::<K>(),
        ensures
            final(self).wf(),
            r.is_some() == old(self).spec_contains_key(*key),
            r.is_some() ==> r.unwrap() == old(self)@[key_index(old(self)@, *key)].1 && final(self)@ == old(self)@.remove(key_index(old(self)@, *key)),
            r.is_none() ==> final(self)@ == old(self)@,
            !final(self).spec_contains_key(*key),
    {
        let p = self.find(key);
        let ghost before = self.entries@;
        proof {
            lemma_key_index(before, *key);
        }
        if p < self.entries.len() {
            let item = self.entries.remove(p);
            proof {
                let after = self.entries@;
                assert forall|i: int, j: int| 0 <= i < j < after.len() implies after[i].0
                    != after[j].0 by {
                    let a = if i < p {
                        i
                    } else {
                        i + 1
                    };
                    let b = if j < p {
                        j
                    } else {
                        j + 1
                    };
                    assert(after[i] == before[a] && after[j] == before[b]);
                }
                lemma_key_index(after, *key);
                let q = key_index(after, *key);
                if q < after.len() {
                    let a = if q < p {
                        q
                    } else {
                        q + 1
                    };
                    assert(after[q] == before[a]);
                    assert(before[a].0 != before[p as int].0);
                }
            }
            Some(item.1)
        } else {
            None
        }
    }

    /// Whether the cache holds the key. The order of use stays.
    pub fn contains_key(&self, k: &K) -> (b: bool)
        requires
            keys_compare::<K>(),
        ensures
            b == self.spec_contains_key(*k),
    {
        let p = self.find(k);
        p < self.entries.len()
    }

    pub fn is_empty(&self) -> (b: bool)
        ensures
            b == (self@.len() == 0),
    {
        self.entries.len() == 0
    }

    pub fn len(&self) -> (n: usize)
        ensures
            n == self@.len(),
    {
        self.entries.len()
    }
}

/// Moving an entry to the front keeps the keys distinct.
pub proof fn lemma_moved_front<K, V>(s: Seq<(K, V)>, p: int)
    requires
        unique_keys(s),
        0 <= p < s.len(),
    ensures
        unique_keys(s.remove(p).insert(0, s[p])),
        s.remove(p).insert(0, s[p]).len() == s.len(),
        s.remove(p).insert(0, s[p])[0] == s[p],
{
    lemma_replaced_front(s, p, s[p]);
}

/// Replacing an entry by one with the same key, at the front, keeps the
/// keys distinct.
#[verifier::rlimit(50)]
pub proof fn lemma_replaced_front<K, V>(s: Seq<(K, V)>, p: int, e: (K, V))
    requires
        unique_keys(s),
        0 <= p < s.len(),
        e.0 == s[p].0,
    ensures
        unique_keys(s.remove(p).insert(0, e)),
        s.remove(p).insert(0, e).len() == s.len(),
        s.remove(p).insert(0, e)[0] == e,
{
    let r = s.remove(p);
    let t = r.insert(0, e);
    assert forall|i: int, j: int| 0 <= i < j < t.len() implies t[i].0 != t[j].0 by {
        let b = if j - 1 < p {
            j - 1
        } else {
            j
        };
        assert(t[j] == r[j - 1]);
        assert(r[j - 1] == s[b]);
        if i == 0 {
            assert(s[b].0 != s[p].0);
        } else {
            let a = if i - 1 < p {
                i - 1
            } else {
                i
            };
            assert(t[i] == r[i - 1]);
            assert(r[i - 1] == s[a]);
            assert(s[a].0 != s[b].0);
        }
    }
}

/// After a key was set, the cache holds it with that value, and it is the
/// entry used last; after an entry was taken out, the cache holds one
/// entry less.
pub proof fn lemma_insert_then_lookup<K, V>(s: Seq<(K, V)>, key: K, value: V)
    ensures
        key_index(s.insert(0, (key, value)), key) == 0,
        s.insert(0, (key, value)).len() == s.len() + 1,
{
    let t = s.insert(0, (key, value));
    assert(t[0] == (key, value));
}

impl<K: Eq + Hash + Clone, V> Default for LRUCache<K, V> {
    fn default() -> (c: Self)
        ensures
            c.wf(),
            c@ == Seq::<(K, V)>::empty(),
    {
        Self::new()
    }
}

} // verus!
