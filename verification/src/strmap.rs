//! A finite map keyed by strings, kept as an association list in
//! insertion order with no key occurring twice.
use vstd::prelude::*;

verus! {

/// The keys of an association list, in order.
pub open spec fn keys_of<V>(s: Seq<(String, V)>) -> Seq<Seq<char>> {
    s.map_values(|e: (String, V)| e.0@)
}

/// The map that an association list with distinct keys stands for.
pub open spec fn assoc_to_map<V>(s: Seq<(String, V)>) -> Map<Seq<char>, V> {
    Map::new(
        |k: Seq<char>| keys_of(s).contains(k),
        |k: Seq<char>| s[keys_of(s).index_of(k)].1,
    )
}

/// In a list with distinct keys, the entry at `i` is what the map holds for its key.
pub proof fn lemma_assoc_at<V>(s: Seq<(String, V)>, i: int)
    requires
        keys_of(s).no_duplicates(),
        0 <= i < s.len(),
    ensures
        assoc_to_map(s).contains_key(s[i].0@),
        assoc_to_map(s)[s[i].0@] == s[i].1,
        keys_of(s).index_of(s[i].0@) == i,
{
    let ks = keys_of(s);
    assert(ks[i] == s[i].0@);
    assert(ks.contains(s[i].0@));
    let j = ks.index_of(s[i].0@);
    assert(0 <= j < ks.len() && ks[j] == s[i].0@);
}

/// The domain of the map is the set of keys, and it is finite.
pub proof fn lemma_assoc_dom<V>(s: Seq<(String, V)>)
    requires
        keys_of(s).no_duplicates(),
    ensures
        assoc_to_map(s).dom() == keys_of(s).to_set(),
        assoc_to_map(s).dom().finite(),
        assoc_to_map(s).dom().len() == s.len(),
{
    assert(assoc_to_map(s).dom() =~= keys_of(s).to_set());
    keys_of(s).unique_seq_to_set();
}

/// Appending an entry with a fresh key inserts it into the map.
pub proof fn lemma_assoc_push<V>(s: Seq<(String, V)>, k: String, v: V)
    requires
        keys_of(s).no_duplicates(),
        !keys_of(s).contains(k@),
    ensures
        keys_of(s.push((k, v))) == keys_of(s).push(k@),
        keys_of(s.push((k, v))).no_duplicates(),
        assoc_to_map(s.push((k, v))) == assoc_to_map(s).insert(k@, v),
{
    let t = s.push((k, v));
    assert(keys_of(t) =~= keys_of(s).push(k@));
    assert forall|a: int, b: int| 0 <= a < keys_of(t).len() && 0 <= b < keys_of(t).len() && a != b
        implies keys_of(t)[a] != keys_of(t)[b] by {
        if a < s.len() && b < s.len() {
            assert(keys_of(t)[a] == keys_of(s)[a]);
            assert(keys_of(t)[b] == keys_of(s)[b]);
        } else if a < s.len() {
            assert(keys_of(s).contains(keys_of(s)[a]));
        } else {
            assert(keys_of(s).contains(keys_of(s)[b]));
        }
    }
    assert forall|key: Seq<char>| #![auto] assoc_to_map(t).contains_key(key) <==> assoc_to_map(s).insert(k@, v).contains_key(key) by {
        if keys_of(s).contains(key) {
            let i = choose|i: int| 0 <= i < keys_of(s).len() && keys_of(s)[i] == key;
            assert(keys_of(t)[i] == key);
        }
        if keys_of(t).contains(key) && key != k@ {
            let i = choose|i: int| 0 <= i < keys_of(t).len() && keys_of(t)[i] == key;
            assert(i < s.len());
            assert(keys_of(s)[i] == key);
        }
        assert(keys_of(t)[s.len() as int] == k@);
    }
    assert forall|key: Seq<char>| #![auto] assoc_to_map(t).contains_key(key) implies assoc_to_map(t)[key] == assoc_to_map(s).insert(k@, v)[key] by {
        if key == k@ {
            lemma_assoc_at(t, s.len() as int);
        } else {
            let i = choose|i: int| 0 <= i < keys_of(t).len() && keys_of(t)[i] == key;
            assert(i < s.len());
            lemma_assoc_at(t, i);
            assert(keys_of(s)[i] == key);
            lemma_assoc_at(s, i);
        }
    }
    assert(assoc_to_map(t) =~= assoc_to_map(s).insert(k@, v));
}

/// Replacing the entry at `i` by one with the same key updates the map there.
pub proof fn lemma_assoc_update<V>(s: Seq<(String, V)>, i: int, k: String, v: V)
    requires
        keys_of(s).no_duplicates(),
        0 <= i < s.len(),
        s[i].0@ == k@,
    ensures
        keys_of(s.update(i, (k, v))) == keys_of(s),
        assoc_to_map(s.update(i, (k, v))) == assoc_to_map(s).insert(k@, v),
{
    let t = s.update(i, (k, v));
    assert(keys_of(t) =~= keys_of(s));
    lemma_assoc_at(s, i);
    assert forall|key: Seq<char>| #![auto] assoc_to_map(t).contains_key(key) implies assoc_to_map(t)[key] == assoc_to_map(s).insert(k@, v)[key] by {
        let j = choose|j: int| 0 <= j < keys_of(t).len() && keys_of(t)[j] == key;
        lemma_assoc_at(t, j);
        lemma_assoc_at(s, j);
    }
    assert(assoc_to_map(t) =~= assoc_to_map(s).insert(k@, v));
}

/// Removing the entry at `i` removes its key from the map.
pub proof fn lemma_assoc_remove<V>(s: Seq<(String, V)>, i: int)
    requires
        keys_of(s).no_duplicates(),
        0 <= i < s.len(),
    ensures
        keys_of(s.remove(i)) == keys_of(s).remove(i),
        keys_of(s.remove(i)).no_duplicates(),
        assoc_to_map(s.remove(i)) == assoc_to_map(s).remove(s[i].0@),
{
    let t = s.remove(i);
    let k = s[i].0@;
    assert(keys_of(t) =~= keys_of(s).remove(i));
    assert forall|a: int, b: int| 0 <= a < keys_of(t).len() && 0 <= b < keys_of(t).len() && a != b
        implies keys_of(t)[a] != keys_of(t)[b] by {
        let a2 = if a < i { a } else { a + 1 };
        let b2 = if b < i { b } else { b + 1 };
        assert(keys_of(t)[a] == keys_of(s)[a2]);
        assert(keys_of(t)[b] == keys_of(s)[b2]);
    }
    assert forall|key: Seq<char>| #![auto] assoc_to_map(t).contains_key(key) <==> assoc_to_map(s).remove(k).contains_key(key) by {
        if keys_of(t).contains(key) {
            let a = choose|a: int| 0 <= a < keys_of(t).len() && keys_of(t)[a] == key;
            let a2 = if a < i { a } else { a + 1 };
            assert(keys_of(s)[a2] == key);
            assert(a2 != i);
            assert(keys_of(s)[i] == k);
        }
        if keys_of(s).contains(key) && key != k {
            let a = choose|a: int| 0 <= a < keys_of(s).len() && keys_of(s)[a] == key;
            assert(a != i);
            let a1 = if a < i { a } else { a - 1 };
            assert(keys_of(t)[a1] == key);
        }
    }
    assert forall|key: Seq<char>| #![auto] assoc_to_map(t).contains_key(key) implies assoc_to_map(t)[key] == assoc_to_map(s)[key] by {
        let a = choose|a: int| 0 <= a < keys_of(t).len() && keys_of(t)[a] == key;
        let a2 = if a < i { a } else { a + 1 };
        lemma_assoc_at(t, a);
        lemma_assoc_at(s, a2);
    }
    assert(assoc_to_map(t) =~= assoc_to_map(s).remove(k));
}

/// A map from strings to values.
pub struct StrMap<V> {
    entries: Vec<(String, V)>,
}

impl<V> View for StrMap<V> {
    type V = Map<Seq<char>, V>;

    closed spec fn view(&self) -> Map<Seq<char>, V> {
        assoc_to_map(self.entries@)
    }
}

impl<V> StrMap<V> {
    /// The keys in the order in which the map enumerates them.
    pub closed spec fn key_seq(&self) -> Seq<Seq<char>> {
        keys_of(self.entries@)
    }

    /// Internal consistency: no key occurs twice.
    pub closed spec fn wf(&self) -> bool {
        keys_of(self.entries@).no_duplicates()
    }

    /// What a well-formed map's enumeration order says about its contents.
    pub proof fn lemma_key_seq(&self)
        requires
            self.wf(),
        ensures
            self.key_seq().no_duplicates(),
            self.key_seq().to_set() == self@.dom(),
            self@.dom().finite(),
            self@.dom().len() == self.key_seq().len(),
    {
        lemma_assoc_dom(self.entries@);
    }

    pub fn new() -> (m: Self)
        ensures
            m.wf(),
            m@ == Map::<Seq<char>, V>::empty(),
            m.key_seq() == Seq::<Seq<char>>::empty(),
    {
        let m = StrMap { entries: Vec::new() };
        assert(keys_of(m.entries@) =~= Seq::<Seq<char>>::empty());
        assert(m@ =~= Map::<Seq<char>, V>::empty());
        m
    }

    pub fn len(&self) -> (n: usize)
        requires
            self.wf(),
        ensures
            n == self@.dom().len(),
            n == self.key_seq().len(),
    {
        proof { lemma_assoc_dom(self.entries@); }
        self.entries.len()
    }

    /// The position of `key` in the enumeration order, if present.
    pub fn find(&self, key: &String) -> (r: Option<usize>)
        requires
            self.wf(),
        ensures
            match r {
                Some(i) => i < self.key_seq().len() && self.key_seq()[i as int] == key@
                    && self@.contains_key(key@),
                None => !self@.contains_key(key@),
            },
    {
        let n = self.entries.len();
        let mut i: usize = 0;
        while i < n
            invariant
                n == self.entries@.len(),
                i <= n,
                keys_of(self.entries@).no_duplicates(),
                forall|j: int| 0 <= j < i ==> keys_of(self.entries@)[j] != key@,
            decreases n - i,
        {
            if self.entries[i].0 == *key {
                proof { lemma_assoc_at(self.entries@, i as int); }
                return Some(i);
            }
            i += 1;
        }
        assert(!keys_of(self.entries@).contains(key@));
        None
    }

    pub fn contains_key(&self, key: &String) -> (b: bool)
        requires
            self.wf(),
        ensures
            b == self@.contains_key(key@),
    {
        self.find(key).is_some()
    }

    pub fn get(&self, key: &String) -> (r: Option<&V>)
        requires
            self.wf(),
        ensures
            match r {
                Some(v) => self@.contains_key(key@) && *v == self@[key@],
                None => !self@.contains_key(key@),
            },
    {
        match self.find(key) {
            Some(i) => {
                proof { lemma_assoc_at(self.entries@, i as int); }
                Some(&self.entries[i].1)
            },
            None => None,
        }
    }

    /// The key at position `i` of the enumeration order.
    pub fn key_at(&self, i: usize) -> (k: &String)
        requires
            self.wf(),
            i < self.key_seq().len(),
        ensures
            k@ == self.key_seq()[i as int],
            self@.contains_key(k@),
    {
        proof { lemma_assoc_at(self.entries@, i as int); }
        &self.entries[i].0
    }

    /// The value at position `i` of the enumeration order.
    pub fn value_at(&self, i: usize) -> (v: &V)
        requires
            self.wf(),
            i < self.key_seq().len(),
        ensures
            *v == self@[self.key_seq()[i as int]],
    {
        proof { lemma_assoc_at(self.entries@, i as int); }
        &self.entries[i].1
    }

    /// Sets `key` to `value`, adding the key if it is new.
    pub fn insert(&mut self, key: String, value: V)
        requires
            old(self).wf(),
        ensures
            final(self).wf(),
            final(self)@ == old(self)@.insert(key@, value),
            old(self)@.contains_key(key@) ==> final(self).key_seq() == old(self).key_seq(),
            !old(self)@.contains_key(key@) ==> final(self).key_seq() == old(self).key_seq().push(key@),
    {
        match self.find(&key) {
            Some(i) => {
                proof {
                    lemma_assoc_at(self.entries@, i as int);
                    lemma_assoc_update(self.entries@, i as int, key, value);
                }
                self.entries.set(i, (key, value));
            },
            None => {
                proof { lemma_assoc_push(self.entries@, key, value); }
                self.entries.push((key, value));
            },
        }
    }

    /// Removes `key` if present.
    pub fn remove(&mut self, key: &String)
        requires
            old(self).wf(),
        ensures
            final(self).wf(),
            final(self)@ == old(self)@.remove(key@),
            final(self).key_seq().to_set() == old(self).key_seq().to_set().remove(key@),
    {
        match self.find(key) {
            Some(i) => {
                proof {
                    lemma_assoc_at(self.entries@, i as int);
                    lemma_assoc_remove(self.entries@, i as int);
                }
                self.entries.remove(i);
                proof {
                    lemma_assoc_dom(self.entries@);
                    lemma_assoc_dom(old(self).entries@);
                }
            },
            None => {
                proof { lemma_assoc_dom(self.entries@); }
                assert(self@ =~= old(self)@.remove(key@));
            },
        }
    }

    /// The keys, in enumeration order.
    pub fn keys(&self) -> (ks: Vec<String>)
        requires
            self.wf(),
        ensures
            ks@.map_values(|s: String| s@) == self.key_seq(),
    {
        let mut ks: Vec<String> = Vec::new();
        let n = self.entries.len();
        for i in 0..n
            invariant
                n == self.entries@.len(),
                ks@.map_values(|s: String| s@) == keys_of(self.entries@).take(i as int),
        {
            let ghost before = ks@;
            let k = self.entries[i].0.clone();
            ks.push(k);
            proof {
                before.lemma_push_map_commute(|s: String| s@, k);
                assert(keys_of(self.entries@).take(i + 1) =~= keys_of(self.entries@).take(
                    i as int,
                ).push(keys_of(self.entries@)[i as int]));
            }
        }
        assert(keys_of(self.entries@).take(n as int) =~= keys_of(self.entries@));
        ks
    }
}

} // verus!
