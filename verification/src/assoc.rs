//! A map over an association list, used where keys are plain identifiers.
use vstd::prelude::*;

verus! {

/// Identifiers that can be compared for equality in executable code.
pub trait Key: Copy + Sized {
    /// Whether both identifiers are the same value.
    fn same(&self, other: &Self) -> (r: bool)
        ensures
            r == (*self == *other),
    ;
}

impl Key for u32 {
    fn same(&self, other: &Self) -> (r: bool) {
        *self == *other
    }
}

impl Key for u128 {
    fn same(&self, other: &Self) -> (r: bool) {
        *self == *other
    }
}

impl Key for u64 {
    fn same(&self, other: &Self) -> (r: bool) {
        *self == *other
    }
}

impl Key for i32 {
    fn same(&self, other: &Self) -> (r: bool) {
        *self == *other
    }
}

/// A finite map. No key occurs twice in the list that holds it.
pub struct AssocMap<K: Key, V> {
    entries: Vec<(K, V)>,
}

/// Position of the entry with the given key.
pub open spec fn position<K, V>(entries: Seq<(K, V)>, key: K) -> int {
    choose|i: int| 0 <= i < entries.len() && (#[trigger] entries[i]).0 == key
}

pub open spec fn has_key<K, V>(entries: Seq<(K, V)>, key: K) -> bool {
    exists|i: int| 0 <= i < entries.len() && (#[trigger] entries[i]).0 == key
}

pub open spec fn unique_keys<K, V>(entries: Seq<(K, V)>) -> bool {
    forall|i: int, j: int|
        0 <= i < j < entries.len() ==> (#[trigger] entries[i]).0 != (#[trigger] entries[j]).0
}

pub open spec fn as_map<K, V>(entries: Seq<(K, V)>) -> Map<K, V> {
    Map::new(|k: K| has_key(entries, k), |k: K| entries[position(entries, k)].1)
}

impl<K: Key, V> View for AssocMap<K, V> {
    type V = Map<K, V>;

    closed spec fn view(&self) -> Map<K, V> {
        as_map(self.entries@)
    }
}

proof fn lemma_lookup<K, V>(entries: Seq<(K, V)>, i: int)
    requires
        unique_keys(entries),
        0 <= i < entries.len(),
    ensures
        as_map(entries).contains_key(entries[i].0),
        as_map(entries)[entries[i].0] == entries[i].1,
{
    let k = entries[i].0;
    assert(has_key(entries, k));
    let p = position(entries, k);
    assert(0 <= p < entries.len() && entries[p].0 == k);
    assert(p == i) by {
        if p < i {
            assert(entries[p].0 != entries[i].0);
        }
        if i < p {
            assert(entries[i].0 != entries[p].0);
        }
    }
}

proof fn lemma_push<K, V>(entries: Seq<(K, V)>, key: K, value: V)
    requires
        unique_keys(entries),
        !has_key(entries, key),
    ensures
        unique_keys(entries.push((key, value))),
        as_map(entries.push((key, value))) == as_map(entries).insert(key, value),
{
    let next = entries.push((key, value));
    assert(unique_keys(next));
    lemma_lookup(next, entries.len() as int);
    assert forall|k: K| #[trigger] as_map(next).contains_key(k) == as_map(entries).insert(
        key,
        value,
    ).contains_key(k) by {
        if has_key(entries, k) {
            let i = position(entries, k);
            assert(next[i].0 == k);
        }
        if has_key(next, k) && k != key {
            let i = position(next, k);
            assert(entries[i].0 == k);
        }
        if k == key {
            assert(next[entries.len() as int].0 == k);
        }
    }
    assert forall|k: K| as_map(entries).insert(key, value).contains_key(k) implies #[trigger] as_map(
        next,
    )[k] == as_map(entries).insert(key, value)[k] by {
        if k != key {
            let i = position(entries, k);
            assert(next[i].0 == k);
            lemma_lookup(next, i);
            lemma_lookup(entries, i);
        }
    }
    assert(as_map(next) =~= as_map(entries).insert(key, value));
}

proof fn lemma_update<K, V>(entries: Seq<(K, V)>, i: int, value: V)
    requires
        unique_keys(entries),
        0 <= i < entries.len(),
    ensures
        unique_keys(entries.update(i, (entries[i].0, value))),
        as_map(entries.update(i, (entries[i].0, value))) == as_map(entries).insert(
            entries[i].0,
            value,
        ),
{
    let key = entries[i].0;
    let next = entries.update(i, (key, value));
    assert forall|a: int, b: int| 0 <= a < b < next.len() implies (#[trigger] next[a]).0 != (
    #[trigger] next[b]).0 by {
        assert(next[a].0 == entries[a].0);
        assert(next[b].0 == entries[b].0);
    }
    lemma_lookup(next, i);
    assert forall|k: K| #[trigger] as_map(next).contains_key(k) == as_map(entries).insert(
        key,
        value,
    ).contains_key(k) by {
        if has_key(entries, k) {
            let p = position(entries, k);
            assert(next[p].0 == k);
        }
        if has_key(next, k) {
            let p = position(next, k);
            assert(entries[p].0 == k);
        }
    }
    assert forall|k: K| as_map(entries).insert(key, value).contains_key(k) implies #[trigger] as_map(
        next,
    )[k] == as_map(entries).insert(key, value)[k] by {
        if k != key {
            let p = position(entries, k);
            assert(next[p].0 == k);
            lemma_lookup(next, p);
            lemma_lookup(entries, p);
        }
    }
    assert(as_map(next) =~= as_map(entries).insert(key, value));
}

proof fn lemma_remove<K, V>(entries: Seq<(K, V)>, i: int)
    requires
        unique_keys(entries),
        0 <= i < entries.len(),
    ensures
        unique_keys(entries.remove(i)),
        as_map(entries.remove(i)) == as_map(entries).remove(entries[i].0),
{
    let key = entries[i].0;
    let next = entries.remove(i);
    assert forall|a: int, b: int| 0 <= a < b < next.len() implies (#[trigger] next[a]).0 != (
    #[trigger] next[b]).0 by {
        let a2 = if a < i { a } else { a + 1 };
        let b2 = if b < i { b } else { b + 1 };
        assert(next[a] == entries[a2]);
        assert(next[b] == entries[b2]);
    }
    assert forall|k: K| #[trigger] as_map(next).contains_key(k) == as_map(entries).remove(
        key,
    ).contains_key(k) by {
        if has_key(entries, k) && k != key {
            let p = position(entries, k);
            let q = if p < i { p } else { p - 1 };
            assert(next[q].0 == k);
        }
        if has_key(next, k) {
            let p = position(next, k);
            let q = if p < i { p } else { p + 1 };
            assert(next[p] == entries[q]);
            assert(entries[q].0 == k);
            if k == key {
                if q < i {
                    assert(entries[q].0 != entries[i].0);
                } else {
                    assert(entries[i].0 != entries[q].0);
                }
            }
        }
    }
    assert forall|k: K| as_map(entries).remove(key).contains_key(k) implies #[trigger] as_map(
        next,
    )[k] == as_map(entries).remove(key)[k] by {
        let p = position(entries, k);
        let q = if p < i { p } else { p - 1 };
        assert(next[q] == entries[p]);
        lemma_lookup(next, q);
        lemma_lookup(entries, p);
    }
    assert(as_map(next) =~= as_map(entries).remove(key));
}

proof fn lemma_domain<K, V>(entries: Seq<(K, V)>)
    requires
        unique_keys(entries),
    ensures
        as_map(entries).dom().finite(),
        as_map(entries).len() == entries.len(),
    decreases entries.len(),
{
    if entries.len() == 0 {
        assert(as_map(entries).dom() =~= Set::<K>::empty());
    } else {
        let last = entries.len() - 1;
        let rest = entries.remove(last);
        lemma_remove(entries, last);
        lemma_lookup(entries, last);
        lemma_domain(rest);
        let key = entries[last].0;
        assert(as_map(entries).dom() =~= as_map(rest).dom().insert(key));
    }
}

impl<K: Key, V> AssocMap<K, V> {
    #[verifier::type_invariant]
    spec fn well_formed(self) -> bool {
        unique_keys(self.entries@)
    }

    /// A map without entries.
    pub fn new() -> (r: Self)
        ensures
            r@ == Map::<K, V>::empty(),
    {
        let r = AssocMap { entries: Vec::new() };
        assert(r@ =~= Map::<K, V>::empty());
        r
    }

    fn find(&self, key: &K) -> (r: Option<usize>)
        ensures
            match r {
                Some(i) => i < self.entries@.len() && self.entries@[i as int].0 == *key,
                None => !has_key(self.entries@, *key),
            },
    {
        let mut i: usize = 0;
        while i < self.entries.len()
            invariant
                0 <= i <= self.entries@.len(),
                forall|j: int| 0 <= j < i ==> (#[trigger] self.entries@[j]).0 != *key,
            decreases self.entries@.len() - i,
        {
            if self.entries[i].0.same(key) {
                return Some(i);
            }
            i += 1;
        }
        None
    }

    /// Value stored under the key.
    pub fn get(&self, key: &K) -> (r: Option<&V>)
        ensures
            match r {
                Some(v) => self@.contains_key(*key) && *v == self@[*key],
                None => !self@.contains_key(*key),
            },
    {
        proof {
            use_type_invariant(&*self);
        }
        match self.find(key) {
            Some(i) => {
                proof {
                    lemma_lookup(self.entries@, i as int);
                }
                Some(&self.entries[i].1)
            },
            None => None,
        }
    }

    /// Whether the key has a value.
    pub fn contains_key(&self, key: &K) -> (r: bool)
        ensures
            r == self@.contains_key(*key),
    {
        self.get(key).is_some()
    }

    /// Stores the value under the key and returns the value that it replaces.
    pub fn insert(&mut self, key: K, value: V) -> (r: Option<V>)
        ensures
            final(self)@ == old(self)@.insert(key, value),
            match r {
                Some(v) => old(self)@.contains_key(key) && v == old(self)@[key],
                None => !old(self)@.contains_key(key),
            },
    {
        proof {
            use_type_invariant(&*self);
        }
        let found = self.find(&key);
        let mut entries: Vec<(K, V)> = Vec::new();
        std::mem::swap(&mut entries, &mut self.entries);
        let ghost before = entries@;
        match found {
            Some(i) => {
                proof {
                    lemma_lookup(before, i as int);
                    lemma_update(before, i as int, value);
                }
                let mut slot = (key, value);
                let replaced = swap_at(&mut entries, i, slot);
                self.entries = entries;
                Some(replaced.1)
            },
            None => {
                proof {
                    lemma_push(before, key, value);
                }
                entries.push((key, value));
                self.entries = entries;
                None
            },
        }
    }

    /// Removes the key and returns the value that it had.
    pub fn remove(&mut self, key: &K) -> (r: Option<V>)
        ensures
            final(self)@ == old(self)@.remove(*key),
            match r {
                Some(v) => old(self)@.contains_key(*key) && v == old(self)@[*key],
                None => !old(self)@.contains_key(*key),
            },
    {
        proof {
            use_type_invariant(&*self);
        }
        match self.find(key) {
            Some(i) => {
                let mut entries: Vec<(K, V)> = Vec::new();
                std::mem::swap(&mut entries, &mut self.entries);
                proof {
                    lemma_lookup(entries@, i as int);
                    lemma_remove(entries@, i as int);
                }
                let removed = entries.remove(i);
                self.entries = entries;
                Some(removed.1)
            },
            None => {
                assert(self@.remove(*key) =~= self@);
                None
            },
        }
    }

    /// Number of entries.
    pub fn len(&self) -> (r: usize)
        ensures
            self@.dom().finite(),
            r == self@.len(),
    {
        proof {
            use_type_invariant(&*self);
            lemma_domain(self.entries@);
        }
        self.entries.len()
    }

    /// Whether the map has no entry.
    pub fn is_empty(&self) -> (r: bool)
        ensures
            r == (self@ == Map::<K, V>::empty()),
    {
        proof {
            use_type_invariant(&*self);
            if self.entries@.len() > 0 {
                lemma_lookup(self.entries@, 0);
            } else {
                assert(self@ =~= Map::<K, V>::empty());
            }
        }
        self.entries.len() == 0
    }

    /// All keys, each once.
    pub fn keys(&self) -> (r: Vec<K>)
        ensures
            r@.no_duplicates(),
            r@.to_set() == self@.dom(),
    {
        proof {
            use_type_invariant(&*self);
        }
        let mut r: Vec<K> = Vec::new();
        let mut i: usize = 0;
        while i < self.entries.len()
            invariant
                0 <= i <= self.entries@.len(),
                r@.len() == i,
                forall|j: int| 0 <= j < i ==> #[trigger] r@[j] == self.entries@[j].0,
            decreases self.entries@.len() - i,
        {
            r.push(self.entries[i].0);
            i += 1;
        }
        proof {
            assert forall|a: int, b: int|
                0 <= a < r@.len() && 0 <= b < r@.len() && a != b implies r@[a] != r@[b] by {
                assert(r@[a] == self.entries@[a].0);
                assert(r@[b] == self.entries@[b].0);
                if a < b {
                    assert(self.entries@[a].0 != self.entries@[b].0);
                } else {
                    assert(self.entries@[b].0 != self.entries@[a].0);
                }
            }
            assert forall|k: K| r@.to_set().contains(k) == self@.dom().contains(k) by {
                if r@.contains(k) {
                    let a = choose|a: int| 0 <= a < r@.len() && r@[a] == k;
                    assert(self.entries@[a].0 == k);
                }
                if has_key(self.entries@, k) {
                    let p = position(self.entries@, k);
                    assert(r@[p] == k);
                }
            }
            assert(r@.to_set() =~= self@.dom());
        }
        r
    }

    /// Removes all entries.
    pub fn clear(&mut self)
        ensures
            final(self)@ == Map::<K, V>::empty(),
    {
        self.entries = Vec::new();
        assert(self@ =~= Map::<K, V>::empty());
    }
}

/// A map with one value under all keys of a list.
pub open spec fn with_all<K, V>(m: Map<K, V>, keys: Seq<K>, value: V) -> Map<K, V> {
    Map::new(
        |k: K| m.contains_key(k) || keys.contains(k),
        |k: K|
            if keys.contains(k) {
                value
            } else {
                m[k]
            },
    )
}

/// Adding an element to a list adds it to the elements.
pub proof fn lemma_contains_push<K>(s: Seq<K>, k: K)
    ensures
        forall|x: K| #[trigger] s.push(k).contains(x) <==> s.contains(x) || x == k,
{
    assert forall|x: K| #[trigger] s.push(k).contains(x) <==> s.contains(x) || x == k by {
        if s.contains(x) {
            let i = choose|i: int| 0 <= i < s.len() && s[i] == x;
            assert(s.push(k)[i] == x);
        }
        if x == k {
            assert(s.push(k)[s.len() as int] == x);
        }
        if s.push(k).contains(x) {
            let i = choose|i: int| 0 <= i < s.push(k).len() && s.push(k)[i] == x;
            if i < s.len() {
                assert(s[i] == x);
            }
        }
    }
}

impl<K: Key, V> AssocMap<K, V> {
    /// Removes all keys of a list.
    pub fn remove_all(&mut self, keys: &Vec<K>)
        ensures
            final(self)@ == old(self)@.remove_keys(keys@.to_set()),
    {
        let ghost before = self@;
        let mut i: usize = 0;
        assert(self@ =~= before.remove_keys(keys@.take(0).to_set()));
        while i < keys.len()
            invariant
                0 <= i <= keys@.len(),
                self@ == before.remove_keys(keys@.take(i as int).to_set()),
            decreases keys@.len() - i,
        {
            self.remove(&keys[i]);
            proof {
                assert(keys@.take(i + 1) =~= keys@.take(i as int).push(keys@[i as int]));
                lemma_contains_push(keys@.take(i as int), keys@[i as int]);
                assert(self@ =~= before.remove_keys(keys@.take(i + 1).to_set()));
            }
            i += 1;
        }
        assert(keys@.take(i as int) =~= keys@);
    }
}

impl<K: Key, V: Copy> AssocMap<K, V> {
    /// Stores one value under all keys of a list.
    pub fn insert_all(&mut self, keys: &Vec<K>, value: V)
        ensures
            final(self)@ == with_all(old(self)@, keys@, value),
    {
        let ghost before = self@;
        let mut i: usize = 0;
        assert(self@ =~= with_all(before, keys@.take(0), value));
        while i < keys.len()
            invariant
                0 <= i <= keys@.len(),
                self@ == with_all(before, keys@.take(i as int), value),
            decreases keys@.len() - i,
        {
            self.insert(keys[i], value);
            proof {
                assert(keys@.take(i + 1) =~= keys@.take(i as int).push(keys@[i as int]));
                lemma_contains_push(keys@.take(i as int), keys@[i as int]);
                assert(self@ =~= with_all(before, keys@.take(i + 1), value));
            }
            i += 1;
        }
        assert(keys@.take(i as int) =~= keys@);
    }

    /// All entries, each once.
    pub fn items(&self) -> (r: Vec<(K, V)>)
        ensures
            unique_keys(r@),
            as_map(r@) == self@,
    {
        proof {
            use_type_invariant(&*self);
        }
        let mut r: Vec<(K, V)> = Vec::new();
        let mut i: usize = 0;
        while i < self.entries.len()
            invariant
                0 <= i <= self.entries@.len(),
                r@ == self.entries@.take(i as int),
            decreases self.entries@.len() - i,
        {
            r.push((self.entries[i].0, self.entries[i].1));
            assert(r@ =~= self.entries@.take(i + 1));
            i += 1;
        }
        assert(self.entries@.take(i as int) =~= self.entries@);
        r
    }
}

/// Replaces the element at the position and returns the element that was there.
fn swap_at<T>(v: &mut Vec<T>, i: usize, value: T) -> (r: T)
    requires
        i < old(v)@.len(),
    ensures
        r == old(v)@[i as int],
        final(v)@ == old(v)@.update(i as int, value),
{
    v.push(value);
    let r = v.swap_remove(i);
    r
}

} // verus!
