//! A map from identifiers to values kept as a list of entries with distinct
//! keys; later inserts replace earlier ones, as in a hash map.
use vstd::prelude::*;

verus! {

/// Identifiers whose equality can be tested at run time.
pub trait Key: Copy + Sized {
    fn same(&self, other: &Self) -> (r: bool)
        ensures
            r == (*self == *other);
}

pub open spec fn keys_distinct<K, V>(s: Seq<(K, V)>) -> bool {
    forall|i: int, j: int| 0 <= i < s.len() && 0 <= j < s.len() && i != j ==> s[i].0 != s[j].0
}

pub open spec fn entries_has<K, V>(s: Seq<(K, V)>, k: K) -> bool {
    exists|i: int| 0 <= i < s.len() && s[i].0 == k
}

/// The map that a list of entries with distinct keys stands for.
pub open spec fn entries_map<K, V>(s: Seq<(K, V)>) -> Map<K, V> {
    Map::new(
        |k: K| entries_has(s, k),
        |k: K| s[choose|i: int| 0 <= i < s.len() && s[i].0 == k].1,
    )
}

pub proof fn lemma_entries_map_at<K, V>(s: Seq<(K, V)>, i: int)
    requires
        keys_distinct(s),
        0 <= i < s.len(),
    ensures
        entries_map(s).contains_key(s[i].0),
        entries_map(s)[s[i].0] == s[i].1,
{
    let k = s[i].0;
    assert(entries_has(s, k));
    let j = choose|j: int| 0 <= j < s.len() && s[j].0 == k;
    assert(j == i);
}

pub struct KeyedMap<K, V> {
    entries: Vec<(K, V)>,
}

impl<K, V> KeyedMap<K, V> {
    pub closed spec fn entries_view(&self) -> Seq<(K, V)> {
        self.entries@
    }

    #[verifier::type_invariant]
    closed spec fn distinct(&self) -> bool {
        keys_distinct(self.entries@)
    }
}

impl<K: Key, V> KeyedMap<K, V> {
    pub open spec fn view(&self) -> Map<K, V> {
        entries_map(self.entries_view())
    }

    pub fn new() -> (r: Self)
        ensures
            r@ == Map::<K, V>::empty(),
            r.entries_view() == Seq::<(K, V)>::empty(),
    {
        let r = KeyedMap { entries: Vec::new() };
        assert(r@ =~= Map::<K, V>::empty());
        r
    }

    pub fn len(&self) -> (r: usize)
        ensures
            r == self.entries_view().len(),
            self@.dom().finite(),
            self@.dom().len() == r,
    {
        proof {
            use_type_invariant(self);
            lemma_entries_map_len(self.entries@);
        }
        self.entries.len()
    }

    /// The entries in insertion order (a replaced value keeps its place).
    pub fn entry(&self, i: usize) -> (r: &(K, V))
        requires
            i < self.entries_view().len(),
        ensures
            *r == self.entries_view()[i as int],
    {
        &self.entries[i]
    }

    fn find(&self, k: &K) -> (r: Option<usize>)
        ensures
            match r {
                Some(i) => i < self.entries_view().len() && self.entries_view()[i as int].0 == *k,
                None => !entries_has(self.entries_view(), *k),
            },
    {
        let mut i: usize = 0;
        while i < self.entries.len()
            invariant
                0 <= i <= self.entries@.len(),
                forall|j: int| 0 <= j < i ==> self.entries@[j].0 != *k,
            decreases self.entries@.len() - i,
        {
            if self.entries[i].0.same(k) {
                return Some(i);
            }
            i = i + 1;
        }
        None
    }

    pub fn contains_key(&self, k: &K) -> (r: bool)
        ensures
            r == self@.contains_key(*k),
    {
        self.find(k).is_some()
    }

    pub fn get(&self, k: &K) -> (r: Option<&V>)
        ensures
            match r {
                Some(v) => self@.contains_key(*k) && self@[*k] == *v && exists|j: int| 0 <= j < self.entries_view().len()
                    && self.entries_view()[j].0 == *k && self.entries_view()[j].1 == *v,
                None => !self@.contains_key(*k),
            },
    {
        proof {
            use_type_invariant(self);
        }
        match self.find(k) {
            Some(i) => {
                proof {
                    lemma_entries_map_at(self.entries@, i as int);
                }
                Some(&self.entries[i].1)
            },
            None => None,
        }
    }

    /// Inserts or replaces the value of `k`.
    pub fn insert(&mut self, k: K, v: V)
        ensures
            final(self)@ == old(self)@.insert(k, v),
    {
        proof {
            use_type_invariant(&*self);
        }
        let ghost before = self.entries@;
        let found = self.find(&k);
        let mut entries = Vec::new();
        std::mem::swap(&mut entries, &mut self.entries);
        match found {
            Some(i) => {
                entries.set(i, (k, v));
            },
            None => {
                entries.push((k, v));
            },
        }
        let ghost after = entries@;
        proof {
            assert(keys_distinct(after)) by {
                assert forall|a: int, b: int| 0 <= a < after.len() && 0 <= b < after.len() && a != b
                    implies after[a].0 != after[b].0 by {
                    match found {
                        Some(i) => {
                            if a != i && b != i {
                                assert(after[a] == before[a] && after[b] == before[b]);
                            } else if a == i {
                                assert(after[b] == before[b]);
                            } else {
                                assert(after[a] == before[a]);
                            }
                        },
                        None => {
                            if a < before.len() && b < before.len() {
                                assert(after[a] == before[a] && after[b] == before[b]);
                            } else if a == before.len() {
                                assert(after[b] == before[b]);
                            } else {
                                assert(after[a] == before[a]);
                            }
                        },
                    }
                }
            }
            assert forall|key: K| #[trigger] entries_map(after).contains_key(key) == entries_map(before).insert(k, v).contains_key(key) by {
                if key != k {
                    if entries_has(before, key) {
                        let j = choose|j: int| 0 <= j < before.len() && before[j].0 == key;
                        assert(after[j] == before[j]);
                    }
                    if entries_has(after, key) {
                        let j = choose|j: int| 0 <= j < after.len() && after[j].0 == key;
                        assert(after[j] == before[j]);
                    }
                } else {
                    match found {
                        Some(i) => assert(after[i as int].0 == k),
                        None => assert(after[before.len() as int].0 == k),
                    }
                }
            }
            assert forall|key: K| entries_map(after).contains_key(key) implies #[trigger] entries_map(after)[key] == entries_map(before).insert(k, v)[key] by {
                let j = choose|j: int| 0 <= j < after.len() && after[j].0 == key;
                lemma_entries_map_at(after, j);
                if key != k {
                    assert(after[j] == before[j]);
                    lemma_entries_map_at(before, j);
                } else {
                    match found {
                        Some(i) => {
                            assert(j == i);
                        },
                        None => {
                            assert(j == before.len());
                        },
                    }
                }
            }
            assert(entries_map(after) =~= entries_map(before).insert(k, v));
        }
        self.entries = entries;
    }
}


impl<K: Key, V> KeyedMap<K, V> {
    /// Removes `k`, handing back its value if it was there.
    pub fn remove(&mut self, k: &K) -> (r: Option<V>)
        ensures
            final(self)@ == old(self)@.remove(*k),
            match r {
                Some(v) => old(self)@.contains_key(*k) && old(self)@[*k] == v,
                None => !old(self)@.contains_key(*k),
            },
    {
        proof {
            use_type_invariant(&*self);
        }
        let ghost before = self.entries@;
        match self.find(k) {
            Some(i) => {
                proof {
                    lemma_entries_map_at(before, i as int);
                }
                let mut entries = Vec::new();
                std::mem::swap(&mut entries, &mut self.entries);
                let (_, v) = entries.remove(i);
                let ghost after = entries@;
                proof {
                    assert forall|a: int| 0 <= a < after.len() implies after[a] == (if a < i { before[a] } else {
                        before[a + 1]
                    }) by {}
                    assert(keys_distinct(after)) by {
                        assert forall|a: int, b: int| 0 <= a < after.len() && 0 <= b < after.len() && a != b
                            implies after[a].0 != after[b].0 by {
                            let a2 = if a < i { a } else { a + 1 };
                            let b2 = if b < i { b } else { b + 1 };
                            assert(after[a] == before[a2] && after[b] == before[b2]);
                        }
                    }
                    assert forall|key: K| #[trigger] entries_map(after).contains_key(key) == entries_map(before).remove(*k).contains_key(key) by {
                        if entries_has(after, key) {
                            let j = choose|j: int| 0 <= j < after.len() && after[j].0 == key;
                            let j2 = if j < i { j } else { j + 1 };
                            assert(after[j] == before[j2]);
                            assert(j2 != i);
                        }
                        if key != *k && entries_has(before, key) {
                            let j = choose|j: int| 0 <= j < before.len() && before[j].0 == key;
                            assert(j != i);
                            let j2 = if j < i { j } else { j - 1 };
                            assert(after[j2] == before[j]);
                        }
                    }
                    assert forall|key: K| entries_map(after).contains_key(key) implies #[trigger] entries_map(after)[key] == entries_map(before).remove(*k)[key] by {
                        let j = choose|j: int| 0 <= j < after.len() && after[j].0 == key;
                        let j2 = if j < i { j } else { j + 1 };
                        assert(after[j] == before[j2]);
                        lemma_entries_map_at(after, j);
                        lemma_entries_map_at(before, j2);
                    }
                    assert(entries_map(after) =~= entries_map(before).remove(*k));
                }
                self.entries = entries;
                Some(v)
            },
            None => {
                proof {
                    assert(entries_map(before) =~= entries_map(before).remove(*k));
                }
                None
            },
        }
    }

    /// Whether the map is empty.
    pub fn is_empty(&self) -> (r: bool)
        ensures
            r == (self@.dom().len() == 0),
    {
        proof {
            use_type_invariant(self);
            lemma_entries_map_len(self.entries@);
        }
        self.entries.len() == 0
    }
}

impl<K: Key, V: Copy> KeyedMap<K, V> {
    /// The entries, each key once.
    pub fn entries(&self) -> (r: Vec<(K, V)>)
        ensures
            r@ == self.entries_view(),
            r@.len() == self@.dom().len(),
            forall|i: int| 0 <= i < r@.len() ==> self@.contains_key(#[trigger] r@[i].0) && self@[r@[i].0] == r@[i].1,
            forall|i: int, j: int| 0 <= i < j < r@.len() ==> r@[i].0 != r@[j].0,
            forall|k: K| self@.contains_key(k) ==> exists|i: int| 0 <= i < r@.len() && #[trigger] r@[i].0 == k,
    {
        proof {
            use_type_invariant(self);
            lemma_entries_map_len(self.entries@);
        }
        let mut r: Vec<(K, V)> = Vec::new();
        let mut i: usize = 0;
        while i < self.entries.len()
            invariant
                0 <= i <= self.entries@.len(),
                r@ == self.entries@.subrange(0, i as int),
            decreases self.entries@.len() - i,
        {
            let e = self.entries[i];
            r.push(e);
            assert(self.entries@.subrange(0, i + 1) =~= self.entries@.subrange(0, i as int).push(e));
            i = i + 1;
        }
        proof {
            assert(self.entries@.subrange(0, self.entries@.len() as int) =~= self.entries@);
            assert forall|i: int| 0 <= i < r@.len() implies self@.contains_key(#[trigger] r@[i].0) && self@[r@[i].0] == r@[i].1 by {
                lemma_entries_map_at(self.entries@, i);
            }
        }
        r
    }
}

/// A list of entries with distinct keys stands for a finite map with as many keys.
pub proof fn lemma_entries_map_len<K, V>(s: Seq<(K, V)>)
    requires
        keys_distinct(s),
    ensures
        entries_map(s).dom().finite(),
        entries_map(s).dom().len() == s.len(),
    decreases s.len(),
{
    if s.len() == 0 {
        assert(entries_map(s).dom() =~= Set::<K>::empty());
    } else {
        let t = s.drop_last();
        assert(keys_distinct(t)) by {
            assert forall|i: int, j: int| 0 <= i < t.len() && 0 <= j < t.len() && i != j implies t[i].0 != t[j].0 by {
                assert(t[i] == s[i] && t[j] == s[j]);
            }
        }
        lemma_entries_map_len(t);
        let k = s.last().0;
        assert(entries_map(s).dom() =~= entries_map(t).dom().insert(k)) by {
            assert forall|x: K| entries_map(s).dom().contains(x) implies entries_map(t).dom().insert(x).contains(x) by {}
            assert forall|x: K| #[trigger] entries_map(s).dom().contains(x) == entries_map(t).dom().insert(k).contains(x) by {
                if entries_has(s, x) && x != k {
                    let j = choose|j: int| 0 <= j < s.len() && s[j].0 == x;
                    assert(j != s.len() - 1);
                    assert(t[j] == s[j]);
                }
                if entries_has(t, x) {
                    let j = choose|j: int| 0 <= j < t.len() && t[j].0 == x;
                    assert(s[j] == t[j]);
                }
                if x == k {
                    assert(s[s.len() - 1].0 == k);
                }
            }
        }
        assert(!entries_map(t).dom().contains(k)) by {
            if entries_has(t, k) {
                let j = choose|j: int| 0 <= j < t.len() && t[j].0 == k;
                assert(s[j] == t[j]);
                assert(s[s.len() - 1].0 == k);
            }
        }
    }
}

impl Key for u8 {
    fn same(&self, other: &Self) -> (r: bool) {
        *self == *other
    }
}

impl Key for u64 {
    fn same(&self, other: &Self) -> (r: bool) {
        *self == *other
    }
}

impl<K: Key, V: Copy> KeyedMap<K, V> {
    /// A map with the same contents.
    pub fn copy(&self) -> (r: Self)
        ensures
            r@ == self@,
    {
        let entries = self.entries();
        let mut r: KeyedMap<K, V> = KeyedMap::new();
        let mut i: usize = 0;
        while i < entries.len()
            invariant
                0 <= i <= entries@.len(),
                entries@ == self.entries_view(),
                forall|j: int| 0 <= j < entries@.len() ==> self@.contains_key(#[trigger] entries@[j].0) && self@[entries@[j].0] == entries@[j].1,
                forall|k: K| self@.contains_key(k) ==> exists|j: int| 0 <= j < entries@.len() && #[trigger] entries@[j].0 == k,
                forall|a: int, b: int| 0 <= a < b < entries@.len() ==> entries@[a].0 != entries@[b].0,
                forall|k: K| #[trigger] r@.contains_key(k) <==> exists|j: int| 0 <= j < i && #[trigger] entries@[j].0 == k,
                forall|k: K| #[trigger] r@.contains_key(k) ==> r@[k] == self@[k],
            decreases entries@.len() - i,
        {
            let (k, v) = entries[i];
            r.insert(k, v);
            proof {
                assert forall|x: K| #[trigger] r@.contains_key(x) <==> exists|j: int| 0 <= j < i + 1 && #[trigger] entries@[j].0 == x by {
                    if r@.contains_key(x) && x != k {
                        let j = choose|j: int| 0 <= j < i && #[trigger] entries@[j].0 == x;
                        assert(0 <= j < i + 1);
                    }
                    if x == k {
                        assert(entries@[i as int].0 == x);
                    }
                }
            }
            i = i + 1;
        }
        proof {
            assert forall|k: K| self@.contains_key(k) implies r@.contains_key(k) by {
                let j = choose|j: int| 0 <= j < entries@.len() && #[trigger] entries@[j].0 == k;
            }
        }
        assert(r@ =~= self@);
        r
    }
}

impl<K: Key, V: Key> KeyedMap<K, V> {
    /// Whether two maps hold the same keys with the same values.
    pub fn same_map(&self, other: &Self) -> (r: bool)
        ensures
            r == (self@ == other@),
    {
        if self.len() != other.len() {
            proof {
                if self@ == other@ {
                    assert(self@.dom() == other@.dom());
                }
            }
            return false;
        }
        let entries = self.entries();
        let mut i: usize = 0;
        while i < entries.len()
            invariant
                0 <= i <= entries@.len(),
                entries@ == self.entries_view(),
                entries@.len() == self@.dom().len(),
                self@.dom().len() == other@.dom().len(),
                self@.dom().finite(),
                other@.dom().finite(),
                forall|j: int| 0 <= j < entries@.len() ==> self@.contains_key(#[trigger] entries@[j].0) && self@[entries@[j].0] == entries@[j].1,
                forall|k: K| self@.contains_key(k) ==> exists|j: int| 0 <= j < entries@.len() && #[trigger] entries@[j].0 == k,
                forall|j: int| 0 <= j < i ==> other@.contains_key(#[trigger] entries@[j].0) && other@[entries@[j].0] == entries@[j].1,
            decreases entries@.len() - i,
        {
            let (k, v) = entries[i];
            match other.get(&k) {
                Some(w) => {
                    if !v.same(w) {
                        return false;
                    }
                },
                None => {
                    return false;
                },
            }
            i = i + 1;
        }
        proof {
            assert(self@.dom().subset_of(other@.dom())) by {
                assert forall|k: K| self@.contains_key(k) implies other@.contains_key(k) by {
                    let j = choose|j: int| 0 <= j < entries@.len() && #[trigger] entries@[j].0 == k;
                }
            }
            vstd::set_lib::lemma_subset_equality(self@.dom(), other@.dom());
            assert forall|k: K| self@.contains_key(k) implies self@[k] == other@[k] by {
                let j = choose|j: int| 0 <= j < entries@.len() && #[trigger] entries@[j].0 == k;
            }
            assert(self@ =~= other@);
        }
        true
    }
}

} // verus!
