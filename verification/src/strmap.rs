use vstd::prelude::*;

verus! {

/// A map from text keys to values, kept as a list of entries whose keys are distinct.
///
/// The server looks lobbies, sessions and players up by text identifiers; this type
/// gives those lookups a map view (`Map<Seq<char>, V>`) that contracts can speak of.
pub struct StrMap<V> {
    entries: Vec<(String, V)>,
}

/// The keys of `s` are pairwise distinct.
pub open spec fn distinct_keys<V>(s: Seq<(String, V)>) -> bool {
    forall|i: int, j: int| 0 <= i < s.len() && 0 <= j < s.len() && i != j ==> s[i].0@ != s[j].0@
}

/// Some entry of `s` has key `k`.
pub open spec fn has_key<V>(s: Seq<(String, V)>, k: Seq<char>) -> bool {
    exists|i: int| 0 <= i < s.len() && s[i].0@ == k
}

/// The position of an entry with key `k` (meaningful when `has_key(s, k)`).
pub open spec fn key_position<V>(s: Seq<(String, V)>, k: Seq<char>) -> int {
    choose|i: int| 0 <= i < s.len() && s[i].0@ == k
}

/// The map that a list of entries with distinct keys denotes.
pub open spec fn entries_map<V>(s: Seq<(String, V)>) -> Map<Seq<char>, V> {
    Map::new(|k: Seq<char>| has_key(s, k), |k: Seq<char>| s[key_position(s, k)].1)
}

impl<V> View for StrMap<V> {
    type V = Map<Seq<char>, V>;

    closed spec fn view(&self) -> Map<Seq<char>, V> {
        entries_map(self.entries@)
    }
}

impl<V> StrMap<V> {
    #[verifier::type_invariant]
    closed spec fn keys_distinct(&self) -> bool {
        distinct_keys(self.entries@)
    }

    /// The entries in the map's own iteration order.
    pub closed spec fn entries(&self) -> Seq<(String, V)> {
        self.entries@
    }

    /// An empty map.
    pub fn new() -> (m: Self)
        ensures
            m@ == Map::<Seq<char>, V>::empty(),
            m.entries().len() == 0,
    {
        let m = StrMap { entries: Vec::new() };
        assert(m@ =~= Map::<Seq<char>, V>::empty());
        m
    }

    /// The number of entries.
    pub fn entry_count(&self) -> (n: usize)
        ensures
            n == self.entries().len(),
    {
        self.entries.len()
    }

    /// The entry at position `i` of the iteration order.
    pub fn entry_at(&self, i: usize) -> (e: (&String, &V))
        requires
            i < self.entries().len(),
        ensures
            *e.0 == self.entries()[i as int].0,
            *e.1 == self.entries()[i as int].1,
    {
        let e = &self.entries[i];
        (&e.0, &e.1)
    }

    /// The entries and the map view agree: each entry is in the view with its value,
    /// each key of the view has an entry, and the keys of the entries are distinct.
    pub fn reveal_entries(&self)
        ensures
            distinct_keys(self.entries()),
            self@ == entries_map(self.entries()),
            forall|i: int|
                0 <= i < self.entries().len() ==> #[trigger] self@.contains_key(self.entries()[i].0@)
                    && self@[self.entries()[i].0@] == self.entries()[i].1,
            forall|k: Seq<char>|
                #[trigger] self@.contains_key(k) ==> exists|i: int|
                    0 <= i < self.entries().len() && self.entries()[i].0@ == k,
    {
        proof {
            use_type_invariant(self);
            lemma_entries_map(self.entries@);
            assert forall|k: Seq<char>| #[trigger] self@.contains_key(k) implies exists|i: int|
                0 <= i < self.entries().len() && self.entries()[i].0@ == k by {
                assert(has_key(self.entries@, k));
                let i = key_position(self.entries@, k);
                assert(self.entries()[i].0@ == k);
            }
        }
    }

    /// Where the entry with key `key` stands, if there is one.
    pub fn position_of(&self, key: &String) -> (r: Option<usize>)
        ensures
            match r {
                Some(i) => i < self.entries().len() && self.entries()[i as int].0@ == key@
                    && self@.contains_key(key@),
                None => !self@.contains_key(key@),
            },
    {
        proof {
            use_type_invariant(self);
        }
        let n = self.entries.len();
        let mut i: usize = 0;
        while i < n
            invariant
                n == self.entries@.len(),
                i <= n,
                forall|j: int| 0 <= j < i ==> self.entries@[j].0@ != key@,
            decreases n - i,
        {
            if self.entries[i].0 == *key {
                assert(has_key(self.entries@, key@));
                return Some(i);
            }
            i = i + 1;
        }
        None
    }

    /// Whether `key` has an entry.
    pub fn contains_key(&self, key: &String) -> (b: bool)
        ensures
            b == self@.contains_key(key@),
    {
        self.position_of(key).is_some()
    }

    /// The value stored under `key`, if any.
    pub fn get(&self, key: &String) -> (r: Option<&V>)
        ensures
            match r {
                Some(v) => self@.contains_key(key@) && *v == self@[key@],
                None => !self@.contains_key(key@),
            },
    {
        proof {
            use_type_invariant(self);
            lemma_entries_map(self.entries@);
        }
        match self.position_of(key) {
            Some(i) => Some(&self.entries[i].1),
            None => None,
        }
    }

    /// Stores `value` under `key`, replacing what was there.
    pub fn insert(&mut self, key: String, value: V)
        ensures
            final(self)@ == old(self)@.insert(key@, value),
    {
        proof {
            use_type_invariant(&*self);
            lemma_entries_map(self.entries@);
        }
        let pos = self.position_of(&key);
        let mut entries: Vec<(String, V)> = Vec::new();
        std::mem::swap(&mut entries, &mut self.entries);
        let ghost before = entries@;
        let ghost k = key@;
        match pos {
            Some(i) => {
                entries.set(i, (key, value));
                proof {
                    lemma_entries_map(entries@);
                    assert forall|q: Seq<char>| has_key(entries@, q) <==> has_key(before, q) || q == k by {
                        if has_key(before, q) {
                            let j = key_position(before, q);
                            assert(entries@[j].0@ == q);
                        }
                        if has_key(entries@, q) {
                            let j = key_position(entries@, q);
                            if j != i {
                                assert(before[j].0@ == q);
                            }
                        }
                    }
                    assert(entries_map(entries@) =~= entries_map(before).insert(k, value));
                }
            },
            None => {
                entries.push((key, value));
                proof {
                    assert(distinct_keys(entries@)) by {
                        assert forall|a: int, b: int|
                            0 <= a < entries@.len() && 0 <= b < entries@.len() && a != b implies entries@[a].0@
                            != entries@[b].0@ by {
                            if a == before.len() as int {
                                assert(entries@[b] == before[b]);
                            } else if b == before.len() as int {
                                assert(entries@[a] == before[a]);
                            } else {
                                assert(entries@[a] == before[a]);
                                assert(entries@[b] == before[b]);
                            }
                        }
                    }
                    lemma_entries_map(entries@);
                    assert forall|q: Seq<char>| has_key(entries@, q) <==> has_key(before, q) || q == k by {
                        if has_key(before, q) {
                            let j = key_position(before, q);
                            assert(entries@[j] == before[j]);
                        }
                        if q == k {
                            assert(entries@[before.len() as int].0@ == k);
                        }
                        if has_key(entries@, q) && q != k {
                            let j = key_position(entries@, q);
                            assert(before[j] == entries@[j]);
                        }
                    }
                    assert forall|q: Seq<char>| has_key(before, q) implies entries_map(entries@)[q]
                        == entries_map(before)[q] by {
                        let j = key_position(before, q);
                        assert(entries@[j] == before[j]);
                    }
                    assert(entries_map(entries@) =~= entries_map(before).insert(k, value));
                }
            },
        }
        self.entries = entries;
    }

    /// Takes the value stored under `key` out of the map.
    pub fn remove(&mut self, key: &String) -> (r: Option<V>)
        ensures
            final(self)@ == old(self)@.remove(key@),
            r == (if old(self)@.contains_key(key@) {
                Some(old(self)@[key@])
            } else {
                None::<V>
            }),
    {
        proof {
            use_type_invariant(&*self);
            lemma_entries_map(self.entries@);
        }
        let pos = self.position_of(key);
        match pos {
            None => {
                assert(self@ =~= old(self)@.remove(key@));
                None
            },
            Some(i) => {
                let mut entries: Vec<(String, V)> = Vec::new();
                std::mem::swap(&mut entries, &mut self.entries);
                let ghost before = entries@;
                let ghost k = key@;
                let e = entries.remove(i);
                proof {
                    assert(distinct_keys(entries@)) by {
                        assert forall|a: int, b: int|
                            0 <= a < entries@.len() && 0 <= b < entries@.len() && a != b implies entries@[a].0@
                            != entries@[b].0@ by {
                            let a2 = if a < i { a } else { a + 1 };
                            let b2 = if b < i { b } else { b + 1 };
                            assert(entries@[a] == before[a2]);
                            assert(entries@[b] == before[b2]);
                        }
                    }
                    lemma_entries_map(entries@);
                    assert forall|q: Seq<char>| has_key(entries@, q) <==> has_key(before, q) && q != k by {
                        if has_key(before, q) && q != k {
                            let j = key_position(before, q);
                            assert(j != i);
                            if j < i {
                                assert(entries@[j] == before[j]);
                            } else {
                                assert(entries@[j - 1] == before[j]);
                            }
                        }
                        if has_key(entries@, q) {
                            let j = key_position(entries@, q);
                            let j2 = if j < i { j } else { j + 1 };
                            assert(entries@[j] == before[j2]);
                            assert(j2 != i as int);
                        }
                    }
                    assert forall|q: Seq<char>| has_key(entries@, q) implies entries_map(entries@)[q]
                        == entries_map(before)[q] by {
                        let j = key_position(entries@, q);
                        let j2 = if j < i { j } else { j + 1 };
                        assert(entries@[j] == before[j2]);
                    }
                    assert(entries_map(entries@) =~= entries_map(before).remove(k));
                }
                self.entries = entries;
                Some(e.1)
            },
        }
    }
}

/// With distinct keys, every entry is found in the map under its own key.
pub proof fn lemma_entries_map<V>(s: Seq<(String, V)>)
    requires
        distinct_keys(s),
    ensures
        forall|i: int|
            0 <= i < s.len() ==> #[trigger] entries_map(s).contains_key(s[i].0@) && entries_map(s)[s[i].0@]
                == s[i].1 && key_position(s, s[i].0@) == i,
        forall|k: Seq<char>|
            #[trigger] entries_map(s).contains_key(k) ==> exists|i: int| 0 <= i < s.len() && s[i].0@ == k,
{
    assert forall|i: int| 0 <= i < s.len() implies #[trigger] entries_map(s).contains_key(s[i].0@)
        && entries_map(s)[s[i].0@] == s[i].1 && key_position(s, s[i].0@) == i by {
        assert(has_key(s, s[i].0@));
        let j = key_position(s, s[i].0@);
        assert(s[j].0@ == s[i].0@);
    }
}

} // verus!
