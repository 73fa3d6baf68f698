//! A small map from strings to strings that keeps the order of insertion.

use vstd::prelude::*;

verus! {

/// Header fields, extras and the like: pairs of strings with no key twice,
/// in the order in which the keys first came.
pub struct StringMap {
    entries: Vec<(String, String)>,
}

/// The position of the first pair of `s` whose key is `key`, or the length
/// of `s` if there is none.
pub open spec fn position_of(s: Seq<(Seq<char>, Seq<char>)>, key: Seq<char>) -> int
    decreases s.len(),
{
    if s.len() == 0 {
        0
    } else if s[0].0 == key {
        0
    } else {
        1 + position_of(s.drop_first(), key)
    }
}

/// No key occurs twice in `s`.
pub open spec fn distinct_keys(s: Seq<(Seq<char>, Seq<char>)>) -> bool {
    forall|i: int, j: int| 0 <= i < j < s.len() ==> s[i].0 != s[j].0
}

/// The value that `s` holds for `key`.
pub open spec fn lookup(s: Seq<(Seq<char>, Seq<char>)>, key: Seq<char>) -> Option<Seq<char>> {
    let p = position_of(s, key);
    if p < s.len() {
        Some(s[p].1)
    } else {
        None
    }
}

/// `s` with `key` set to `value`: in place where `s` holds the key, at the
/// end where it does not.
pub open spec fn put(s: Seq<(Seq<char>, Seq<char>)>, key: Seq<char>, value: Seq<char>) -> Seq<
    (Seq<char>, Seq<char>),
> {
    if position_of(s, key) < s.len() {
        s.update(position_of(s, key), (key, value))
    } else {
        s.push((key, value))
    }
}

/// `s` with each pair of `pairs` set in turn.
pub open spec fn put_all(s: Seq<(Seq<char>, Seq<char>)>, pairs: Seq<(Seq<char>, Seq<char>)>) -> Seq<
    (Seq<char>, Seq<char>),
>
    decreases pairs.len(),
{
    if pairs.len() == 0 {
        s
    } else {
        put(put_all(s, pairs.drop_last()), pairs.last().0, pairs.last().1)
    }
}

/// Setting a key keeps the keys distinct and makes the key hold the value.
#[verifier::rlimit(50)]
pub proof fn lemma_put(s: Seq<(Seq<char>, Seq<char>)>, key: Seq<char>, value: Seq<char>)
    requires
        distinct_keys(s),
    ensures
        distinct_keys(put(s, key, value)),
        lookup(put(s, key, value), key) == Some(value),
        forall|other: Seq<char>|
            other != key ==> lookup(put(s, key, value), other) == lookup(s, other),
{
    let t = put(s, key, value);
    let p = position_of(s, key);
    lemma_position_of(s, key);
    lemma_position_of(t, key);
    assert forall|i: int, j: int| 0 <= i < j < t.len() implies t[i].0 != t[j].0 by {
        if p < s.len() {
            assert(s[i].0 != s[j].0);
        } else if j < s.len() {
            assert(s[i].0 != s[j].0);
        } else {
            assert(t[i] == s[i]);
        }
    }
    let q = position_of(t, key);
    if p < s.len() {
        assert(t[p].0 == key);
        if q < p {
            assert(t[q] == s[q]);
        }
    } else {
        assert(t[s.len() as int].0 == key);
        if q < s.len() {
            assert(t[q] == s[q]);
        }
    }
    assert forall|other: Seq<char>| other != key implies lookup(t, other) == lookup(
        s,
        other,
    ) by {
        lemma_position_of(s, other);
        lemma_position_of(t, other);
        let a = position_of(s, other);
        let b = position_of(t, other);
        if a < s.len() {
            assert(s[a].0 == other);
            assert(t[a] == s[a]);
            if b < a {
                assert(t[b].0 == other);
                if b != p {
                    assert(t[b] == s[b]);
                }
            }
            if b > a {
                assert(t[a].0 != other);
            }
        } else {
            if b < t.len() {
                assert(t[b].0 == other);
                if b < s.len() {
                    if b != p {
                        assert(t[b] == s[b]);
                    }
                    assert(s[b].0 != other);
                }
            }
        }
    }
}

/// Setting pairs with distinct keys, one after the other, on an empty map
/// gives those pairs.
pub proof fn lemma_put_all_distinct(pairs: Seq<(Seq<char>, Seq<char>)>)
    requires
        distinct_keys(pairs),
    ensures
        put_all(Seq::empty(), pairs) == pairs,
    decreases pairs.len(),
{
    if pairs.len() > 0 {
        let init = pairs.drop_last();
        lemma_put_all_distinct(init);
        lemma_position_of(init, pairs.last().0);
        let p = position_of(init, pairs.last().0);
        if p < init.len() {
            assert(init[p] == pairs[p]);
            assert(pairs[p].0 != pairs[pairs.len() - 1].0);
        }
        assert(init.push(pairs.last()) =~= pairs);
    } else {
        assert(pairs =~= Seq::empty());
    }
}

/// `position_of` is in range and finds the first pair with the key.
pub proof fn lemma_position_of(s: Seq<(Seq<char>, Seq<char>)>, key: Seq<char>)
    ensures
        0 <= position_of(s, key) <= s.len(),
        position_of(s, key) < s.len() ==> s[position_of(s, key)].0 == key,
        forall|i: int| 0 <= i < position_of(s, key) ==> (#[trigger] s[i]).0 != key,
    decreases s.len(),
{
    if s.len() > 0 && s[0].0 != key {
        let t = s.drop_first();
        lemma_position_of(t, key);
        assert forall|i: int| 0 <= i < position_of(s, key) implies (#[trigger] s[i]).0
            != key by {
            if i > 0 {
                assert(s[i] == t[i - 1]);
            }
        }
    }
}

spec fn pairs_view(entries: Seq<(String, String)>) -> Seq<(Seq<char>, Seq<char>)> {
    Seq::new(entries.len(), |i: int| (entries[i].0@, entries[i].1@))
}

impl StringMap {
    #[verifier::type_invariant]
    spec fn inv(self) -> bool {
        distinct_keys(self@)
    }

    /// The pairs, in order.
    pub closed spec fn view(&self) -> Seq<(Seq<char>, Seq<char>)> {
        pairs_view(self.entries@)
    }

    /// The value held for `key`.
    pub open spec fn spec_get(&self, key: Seq<char>) -> Option<Seq<char>> {
        lookup(self@, key)
    }

    /// An empty map.
    pub fn new() -> (m: StringMap)
        ensures
            m@ == Seq::<(Seq<char>, Seq<char>)>::empty(),
    {
        let entries: Vec<(String, String)> = Vec::new();
        proof {
            assert(pairs_view(entries@) =~= Seq::empty());
        }
        StringMap { entries }
    }

    /// The number of pairs. No key occurs twice among them.
    pub fn len(&self) -> (n: usize)
        ensures
            n == self@.len(),
            distinct_keys(self@),
    {
        proof {
            use_type_invariant(self);
        }
        self.entries.len()
    }

    pub fn is_empty(&self) -> (b: bool)
        ensures
            b == (self@.len() == 0),
    {
        self.entries.len() == 0
    }

    /// The key of the pair at position `i`.
    pub fn key_at(&self, i: usize) -> (k: &String)
        requires
            i < self@.len(),
        ensures
            k@ == self@[i as int].0,
    {
        &self.entries[i].0
    }

    /// The value of the pair at position `i`.
    pub fn value_at(&self, i: usize) -> (v: &String)
        requires
            i < self@.len(),
        ensures
            v@ == self@[i as int].1,
    {
        &self.entries[i].1
    }

    fn find(&self, key: &str) -> (p: usize)
        ensures
            p == position_of(self@, key@),
    {
        let owned = key.to_owned();
        let mut i: usize = 0;
        while i < self.entries.len()
            invariant
                i <= self.entries@.len(),
                owned@ == key@,
                forall|j: int| 0 <= j < i ==> (#[trigger] self@[j]).0 != key@,
            decreases self.entries@.len() - i,
        {
            if self.entries[i].0 == owned {
                proof {
                    lemma_position_of(self@, key@);
                    let p = position_of(self@, key@);
                    assert(self@[i as int].0 == key@);
                    if p < i {
                        assert(self@[p].0 != key@);
                    }
                }
                return i;
            }
            assert(self@[i as int].0 != key@);
            i = i + 1;
        }
        proof {
            lemma_position_of(self@, key@);
            let p = position_of(self@, key@);
            if p < self@.len() {
                assert(self@[p].0 != key@);
            }
        }
        i
    }

    /// The value held for `key`, if any.
    pub fn get(&self, key: &str) -> (v: Option<&String>)
        ensures
            v.is_some() == self.spec_get(key@).is_some(),
            v.is_some() ==> v.unwrap()@ == self.spec_get(key@).unwrap(),
    {
        let p = self.find(key);
        if p < self.entries.len() {
            Some(&self.entries[p].1)
        } else {
            None
        }
    }

    pub fn contains_key(&self, key: &str) -> (b: bool)
        ensures
            b == self.spec_get(key@).is_some(),
    {
        let p = self.find(key);
        p < self.entries.len()
    }

    /// Sets the value of `key`: in place where the key is held already, at
    /// the end where it is new. Returns the value that was held.
    #[verifier::rlimit(50)]
    pub fn insert(&mut self, key: String, value: String) -> (prev: Option<String>)
        ensures
            final(self)@ == put(old(self)@, key@, value@),
            prev.is_some() == old(self).spec_get(key@).is_some(),
            prev.is_some() ==> prev.unwrap()@ == old(self).spec_get(key@).unwrap(),
            final(self).spec_get(key@) == Some(value@),
    {
        proof {
            use_type_invariant(&*self);
        }
        let ghost before = self@;
        let p = self.find(key.as_str());
        proof {
            lemma_position_of(before, key@);
        }
        let mut taken = StringMap::new();
        std::mem::swap(self, &mut taken);
        let mut entries = taken.entries;
        assert(pairs_view(entries@) == before);
        let ghost k = key@;
        let ghost v = value@;
        if p < entries.len() {
            let mut swapped = (key, value);
            std::mem::swap(&mut entries[p], &mut swapped);
            proof {
                let after = pairs_view(entries@);
                assert(after =~= before.update(p as int, (k, v)));
                assert forall|i: int, j: int| 0 <= i < j < after.len() implies after[i].0
                    != after[j].0 by {
                    assert(before[i].0 != before[j].0);
                    assert(before[p as int].0 == k);
                }
                lemma_position_of(after, k);
                let q = position_of(after, k);
                if q < p {
                    assert(after[q] == before[q]);
                    assert(before[q].0 != k);
                }
                assert(after[p as int].0 == k);
            }
            let m = StringMap { entries };
            *self = m;
            Some(swapped.1)
        } else {
            entries.push((key, value));
            proof {
                let after = pairs_view(entries@);
                assert(after =~= before.push((k, v)));
                assert forall|i: int, j: int| 0 <= i < j < after.len() implies after[i].0
                    != after[j].0 by {
                    if j < before.len() {
                        assert(before[i].0 != before[j].0);
                    } else {
                        assert(after[i] == before[i]);
                        assert(before[i].0 != k);
                    }
                }
                lemma_position_of(after, k);
                let q = position_of(after, k);
                if q < before.len() {
                    assert(after[q] == before[q]);
                    assert(before[q].0 != k);
                }
                assert(after[before.len() as int].0 == k);
            }
            let m = StringMap { entries };
            *self = m;
            None
        }
    }

    /// Drops every pair.
    pub fn clear(&mut self)
        ensures
            final(self)@ == Seq::<(Seq<char>, Seq<char>)>::empty(),
    {
        *self = StringMap::new();
    }

    /// A copy of the map.
    pub fn duplicate(&self) -> (m: StringMap)
        ensures
            m@ == self@,
    {
        proof {
            use_type_invariant(self);
        }
        let mut entries: Vec<(String, String)> = Vec::new();
        let mut i: usize = 0;
        while i < self.entries.len()
            invariant
                i <= self.entries@.len(),
                entries@.len() == i,
                forall|j: int|
                    0 <= j < i ==> (#[trigger] entries@[j]).0@ == self.entries@[j].0@
                        && entries@[j].1@ == self.entries@[j].1@,
            decreases self.entries@.len() - i,
        {
            entries.push((self.entries[i].0.clone(), self.entries[i].1.clone()));
            i = i + 1;
        }
        proof {
            assert(pairs_view(entries@) =~= self@);
        }
        StringMap { entries }
    }
}

} // verus!
