//! A small association table, used for the compiler's symbol tables and
//! label tables. Keys are distinct; the table is viewed as a finite map.
use vstd::prelude::*;

verus! {

/// Keys that can be compared and copied with a known result.
pub trait TableKey: DeepView + Sized {
    fn same_key(&self, other: &Self) -> (r: bool)
        ensures
            r == (self.deep_view() == other.deep_view()),
    ;

    fn copy_key(&self) -> (r: Self)
        ensures
            r.deep_view() == self.deep_view(),
    ;
}

impl TableKey for String {
    fn same_key(&self, other: &Self) -> (r: bool) {
        *self == *other
    }

    fn copy_key(&self) -> (r: Self) {
        self.clone()
    }
}

impl TableKey for usize {
    fn same_key(&self, other: &Self) -> (r: bool) {
        *self == *other
    }

    fn copy_key(&self) -> (r: Self) {
        *self
    }
}

/// Values that can be copied with a known result.
pub trait TableValue: DeepView + Sized {
    fn copy_value(&self) -> (r: Self)
        ensures
            r.deep_view() == self.deep_view(),
    ;
}

impl TableValue for usize {
    fn copy_value(&self) -> (r: Self) {
        *self
    }
}

impl TableValue for Vec<String> {
    fn copy_value(&self) -> (r: Self) {
        let mut r: Vec<String> = Vec::new();
        let mut i: usize = 0;
        while i < self.len()
            invariant
                i <= self@.len(),
                r@.len() == i,
                forall|j: int| 0 <= j < i ==> #[trigger] r@[j]@ == self@[j]@,
            decreases self@.len() - i,
        {
            r.push(self[i].clone());
            i = i + 1;
        }
        assert(r.deep_view() =~= self.deep_view());
        r
    }
}

/// A table of distinct keys, each with one value.
#[derive(Debug)]
pub struct Table<K: TableKey, V: DeepView> {
    keys: Vec<K>,
    vals: Vec<V>,
}

/// Position of key `k` in `keys` (meaningful when it occurs there).
pub open spec fn key_index<K: DeepView>(keys: Seq<K>, k: K::V) -> int {
    choose|i: int| 0 <= i < keys.len() && #[trigger] keys[i].deep_view() == k
}

pub open spec fn keys_distinct<K: DeepView>(keys: Seq<K>) -> bool {
    forall|i: int, j: int|
        0 <= i < keys.len() && 0 <= j < keys.len() && i != j ==> #[trigger] keys[i].deep_view()
            != #[trigger] keys[j].deep_view()
}

pub open spec fn has_key<K: DeepView>(keys: Seq<K>, k: K::V) -> bool {
    exists|i: int| 0 <= i < keys.len() && #[trigger] keys[i].deep_view() == k
}

proof fn lemma_key_index<K: DeepView>(keys: Seq<K>, k: K::V, i: int)
    requires
        keys_distinct(keys),
        0 <= i < keys.len(),
        keys[i].deep_view() == k,
    ensures
        key_index(keys, k) == i,
{
    assert(has_key(keys, k));
    let j = key_index(keys, k);
    assert(0 <= j < keys.len() && keys[j].deep_view() == k);
}

impl<K: TableKey, V: DeepView> Table<K, V> {
    #[verifier::type_invariant]
    closed spec fn inv(self) -> bool {
        &&& self.keys.len() == self.vals.len()
        &&& keys_distinct(self.keys@)
    }

    /// The contents as a map from key views to value views.
    pub closed spec fn map(&self) -> Map<K::V, V::V> {
        Map::new(
            |k: K::V| has_key(self.keys@, k),
            |k: K::V| self.vals@[key_index(self.keys@, k)].deep_view(),
        )
    }

    /// The keys in their stored order.
    pub closed spec fn key_seq(&self) -> Seq<K::V> {
        self.keys@.map_values(|k: K| k.deep_view())
    }

    pub fn new() -> (t: Self)
        ensures
            t.map() == Map::<K::V, V::V>::empty(),
            t.key_seq() == Seq::<K::V>::empty(),
    {
        let t = Table { keys: Vec::new(), vals: Vec::new() };
        assert(t.map() =~= Map::<K::V, V::V>::empty());
        assert(t.key_seq() =~= Seq::<K::V>::empty());
        t
    }

    /// Number of entries.
    pub fn len(&self) -> (n: usize)
        ensures
            n == self.map().len(),
            n == self.key_seq().len(),
    {
        proof {
            use_type_invariant(self);
            self.lemma_key_seq_domain();
        }
        self.keys.len()
    }

    proof fn lemma_key_seq_domain(&self)
        requires
            self.inv(),
        ensures
            self.key_seq().no_duplicates(),
            self.key_seq().to_set() == self.map().dom(),
            self.map().dom().finite(),
            self.map().len() == self.key_seq().len(),
    {
        let ks = self.key_seq();
        assert forall|i: int, j: int| 0 <= i < ks.len() && 0 <= j < ks.len() && i != j implies ks[i]
            != ks[j] by {
            assert(ks[i] == self.keys@[i].deep_view());
            assert(ks[j] == self.keys@[j].deep_view());
        }
        assert forall|k: K::V| ks.to_set().contains(k) == self.map().dom().contains(k) by {
            if ks.to_set().contains(k) {
                let i = choose|i: int| 0 <= i < ks.len() && ks[i] == k;
                assert(self.keys@[i].deep_view() == k);
            }
            if self.map().dom().contains(k) {
                let i = choose|i: int| 0 <= i < self.keys@.len() && #[trigger] self.keys@[i].deep_view() == k;
                assert(ks[i] == k);
                assert(ks.contains(k));
            }
        }
        assert(ks.to_set() =~= self.map().dom());
        ks.unique_seq_to_set();
    }

    fn find(&self, k: &K) -> (r: Option<usize>)
        ensures
            match r {
                Some(i) => i < self.keys.len() && self.keys@[i as int].deep_view() == k.deep_view(),
                None => !has_key(self.keys@, k.deep_view()),
            },
    {
        let mut i: usize = 0;
        while i < self.keys.len()
            invariant
                i <= self.keys.len(),
                forall|j: int| 0 <= j < i ==> #[trigger] self.keys@[j].deep_view() != k.deep_view(),
            decreases self.keys.len() - i,
        {
            if self.keys[i].same_key(k) {
                return Some(i);
            }
            i = i + 1;
        }
        None
    }

    /// Whether `k` has an entry.
    pub fn contains_key(&self, k: &K) -> (r: bool)
        ensures
            r == self.map().contains_key(k.deep_view()),
    {
        self.find(k).is_some()
    }

    /// The value stored for `k`, if any.
    pub fn get(&self, k: &K) -> (r: Option<&V>)
        ensures
            match r {
                Some(v) => self.map().contains_key(k.deep_view()) && v.deep_view() == self.map()[k.deep_view()],
                None => !self.map().contains_key(k.deep_view()),
            },
    {
        proof {
            use_type_invariant(self);
        }
        match self.find(k) {
            Some(i) => {
                proof {
                    lemma_key_index(self.keys@, k.deep_view(), i as int);
                }
                Some(&self.vals[i])
            },
            None => None,
        }
    }

    /// Sets the value for `k`, replacing any earlier value.
    pub fn insert(&mut self, k: K, v: V)
        ensures
            final(self).map() == old(self).map().insert(k.deep_view(), v.deep_view()),
            old(self).map().contains_key(k.deep_view()) ==> final(self).key_seq() == old(
                self,
            ).key_seq(),
            !old(self).map().contains_key(k.deep_view()) ==> final(self).key_seq() == old(
                self,
            ).key_seq().push(k.deep_view()),
    {
        proof {
            use_type_invariant(&*self);
        }
        let ghost old_keys = self.keys@;
        let ghost old_vals = self.vals@;
        let ghost old_map = self.map();
        let found = self.find(&k);
        let mut taken = Table { keys: Vec::new(), vals: Vec::new() };
        std::mem::swap(self, &mut taken);
        let Table { keys: mut keys, vals: mut vals } = taken;
        match found {
            Some(i) => {
                let ghost kv = k.deep_view();
                vals.set(i, v);
                *self = Table { keys, vals };
                proof {
                    assert(self.keys@ == old_keys);
                    assert forall|key: K::V| #[trigger]
                        self.map().contains_key(key) == old_map.insert(kv, v.deep_view()).contains_key(
                            key,
                        ) by {
                        if key == kv {
                            assert(self.keys@[i as int].deep_view() == key);
                        }
                    }
                    assert forall|key: K::V| self.map().contains_key(key) implies #[trigger] self.map()[key]
                        == old_map.insert(kv, v.deep_view())[key] by {
                        let j = key_index(self.keys@, key);
                        if key == kv {
                            lemma_key_index(self.keys@, kv, i as int);
                        } else {
                            assert(has_key(self.keys@, key));
                            assert(0 <= j < self.keys@.len() && self.keys@[j].deep_view() == key);
                            assert(j != i);
                        }
                    }
                    assert(self.map() =~= old_map.insert(kv, v.deep_view()));
                    assert(self.key_seq() =~= self.keys@.map_values(|k: K| k.deep_view()));
                }
            },
            None => {
                let ghost kv = k.deep_view();
                let ghost vv = v.deep_view();
                keys.push(k);
                vals.push(v);
                proof {
                    let n = old_keys.len() as int;
                    assert(keys@ == old_keys.push(keys@[n]));
                    assert forall|a: int, b: int|
                        0 <= a < keys@.len() && 0 <= b < keys@.len() && a != b implies #[trigger] keys@[a].deep_view()
                        != #[trigger] keys@[b].deep_view() by {
                        if a < n && b < n {
                            assert(old_keys[a] == keys@[a]);
                            assert(old_keys[b] == keys@[b]);
                        } else if a == n {
                            assert(old_keys[b] == keys@[b]);
                            assert(!has_key(old_keys, kv));
                            assert(!(0 <= b < old_keys.len() && old_keys[b].deep_view() == kv));
                        } else {
                            assert(old_keys[a] == keys@[a]);
                            assert(!(0 <= a < old_keys.len() && old_keys[a].deep_view() == kv));
                        }
                    }
                }
                *self = Table { keys, vals };
                proof {
                    let n = old_keys.len() as int;
                    assert forall|key: K::V| #[trigger]
                        self.map().contains_key(key) == old_map.insert(kv, vv).contains_key(key) by {
                        if key == kv {
                            assert(self.keys@[n].deep_view() == key);
                        }
                        if has_key(old_keys, key) {
                            let j = choose|j: int| 0 <= j < old_keys.len() && #[trigger] old_keys[j].deep_view() == key;
                            assert(self.keys@[j] == old_keys[j]);
                        }
                        if has_key(self.keys@, key) {
                            let j = choose|j: int| 0 <= j < self.keys@.len() && #[trigger] self.keys@[j].deep_view() == key;
                            if j < n {
                                assert(self.keys@[j] == old_keys[j]);
                            }
                        }
                    }
                    assert forall|key: K::V| self.map().contains_key(key) implies #[trigger] self.map()[key]
                        == old_map.insert(kv, vv)[key] by {
                        if key == kv {
                            lemma_key_index(self.keys@, kv, n);
                        } else {
                            let j = choose|j: int| 0 <= j < self.keys@.len() && #[trigger] self.keys@[j].deep_view() == key;
                            assert(j < n);
                            assert(self.keys@[j] == old_keys[j]);
                            lemma_key_index(self.keys@, key, j);
                            lemma_key_index(old_keys, key, j);
                            assert(self.vals@[j] == old_vals[j]);
                        }
                    }
                    assert(self.map() =~= old_map.insert(kv, vv));
                    assert(self.key_seq() =~= old(self).key_seq().push(kv));
                }
            },
        }
    }

    /// Removes the entry for `k`, if any, and returns its value.
    pub fn remove(&mut self, k: &K) -> (r: Option<V>)
        ensures
            final(self).map() == old(self).map().remove(k.deep_view()),
            match r {
                Some(v) => old(self).map().contains_key(k.deep_view()) && v.deep_view() == old(
                    self,
                ).map()[k.deep_view()],
                None => !old(self).map().contains_key(k.deep_view()),
            },
    {
        proof {
            use_type_invariant(&*self);
        }
        let ghost old_keys = self.keys@;
        let ghost old_vals = self.vals@;
        let ghost old_map = self.map();
        match self.find(k) {
            Some(i) => {
                let ghost kv = k.deep_view();
                proof {
                    lemma_key_index(old_keys, kv, i as int);
                }
                let mut taken = Table { keys: Vec::new(), vals: Vec::new() };
                std::mem::swap(self, &mut taken);
                let Table { keys: mut keys, vals: mut vals } = taken;
                let _ = keys.remove(i);
                let v = vals.remove(i);
                proof {
                    assert forall|a: int, b: int|
                        0 <= a < keys@.len() && 0 <= b < keys@.len() && a != b implies #[trigger] keys@[a].deep_view()
                        != #[trigger] keys@[b].deep_view() by {
                        let a0 = if a < i { a } else { a + 1 };
                        let b0 = if b < i { b } else { b + 1 };
                        assert(keys@[a] == old_keys[a0]);
                        assert(keys@[b] == old_keys[b0]);
                    }
                }
                *self = Table { keys, vals };
                proof {
                    assert forall|key: K::V| #[trigger]
                        self.map().contains_key(key) == old_map.remove(kv).contains_key(key) by {
                        if has_key(self.keys@, key) {
                            let j = choose|j: int| 0 <= j < self.keys@.len() && #[trigger] self.keys@[j].deep_view() == key;
                            let j0 = if j < i { j } else { j + 1 };
                            assert(self.keys@[j] == old_keys[j0]);
                            assert(j0 != i);
                        }
                        if has_key(old_keys, key) && key != kv {
                            let j = choose|j: int| 0 <= j < old_keys.len() && #[trigger] old_keys[j].deep_view() == key;
                            assert(j != i);
                            let j1 = if j < i { j } else { j - 1 };
                            assert(self.keys@[j1] == old_keys[j]);
                        }
                    }
                    assert forall|key: K::V| self.map().contains_key(key) implies #[trigger] self.map()[key]
                        == old_map.remove(kv)[key] by {
                        let j = choose|j: int| 0 <= j < self.keys@.len() && #[trigger] self.keys@[j].deep_view() == key;
                        let j0 = if j < i { j } else { j + 1 };
                        assert(self.keys@[j] == old_keys[j0]);
                        assert(self.vals@[j] == old_vals[j0]);
                        lemma_key_index(self.keys@, key, j);
                        lemma_key_index(old_keys, key, j0);
                    }
                    assert(self.map() =~= old_map.remove(kv));
                }
                Some(v)
            },
            None => {
                assert(old_map.remove(k.deep_view()) =~= old_map);
                None
            },
        }
    }

    /// A copy of every key, in stored order.
    pub fn keys(&self) -> (r: Vec<K>)
        ensures
            r@.map_values(|k: K| k.deep_view()) == self.key_seq(),
            self.key_seq().no_duplicates(),
            self.key_seq().to_set() == self.map().dom(),
    {
        proof {
            use_type_invariant(self);
            self.lemma_key_seq_domain();
        }
        let mut r: Vec<K> = Vec::new();
        let mut i: usize = 0;
        while i < self.keys.len()
            invariant
                i <= self.keys.len(),
                r@.len() == i,
                forall|j: int| 0 <= j < i ==> #[trigger] r@[j].deep_view() == self.keys@[j].deep_view(),
            decreases self.keys.len() - i,
        {
            r.push(self.keys[i].copy_key());
            i = i + 1;
        }
        assert(r@.map_values(|k: K| k.deep_view()) =~= self.key_seq());
        r
    }
}


impl<K: TableKey, V: TableValue> Table<K, V> {
    /// A copy of the table, with the same entries in the same order.
    pub fn duplicate(&self) -> (t: Self)
        ensures
            t.map() == self.map(),
            t.key_seq() == self.key_seq(),
    {
        proof {
            use_type_invariant(self);
        }
        let mut keys: Vec<K> = Vec::new();
        let mut vals: Vec<V> = Vec::new();
        let mut i: usize = 0;
        while i < self.keys.len()
            invariant
                i <= self.keys@.len(),
                self.keys@.len() == self.vals@.len(),
                keys@.len() == i,
                vals@.len() == i,
                forall|j: int| 0 <= j < i ==> #[trigger] keys@[j].deep_view() == self.keys@[j].deep_view(),
                forall|j: int| 0 <= j < i ==> #[trigger] vals@[j].deep_view() == self.vals@[j].deep_view(),
            decreases self.keys@.len() - i,
        {
            keys.push(self.keys[i].copy_key());
            vals.push(self.vals[i].copy_value());
            i = i + 1;
        }
        proof {
            assert forall|a: int, b: int|
                0 <= a < keys@.len() && 0 <= b < keys@.len() && a != b implies #[trigger] keys@[a].deep_view()
                != #[trigger] keys@[b].deep_view() by {
                assert(self.keys@[a].deep_view() != self.keys@[b].deep_view());
            }
        }
        let t = Table { keys, vals };
        proof {
            assert forall|k: K::V| has_key(t.keys@, k) == has_key(self.keys@, k) by {
                if has_key(t.keys@, k) {
                    let j = choose|j: int| 0 <= j < t.keys@.len() && #[trigger] t.keys@[j].deep_view() == k;
                    assert(self.keys@[j].deep_view() == k);
                }
                if has_key(self.keys@, k) {
                    let j = choose|j: int| 0 <= j < self.keys@.len() && #[trigger] self.keys@[j].deep_view() == k;
                    assert(t.keys@[j].deep_view() == k);
                }
            }
            assert forall|k: K::V| has_key(t.keys@, k) implies t.vals@[key_index(t.keys@, k)].deep_view()
                == self.vals@[key_index(self.keys@, k)].deep_view() by {
                let j = choose|j: int| 0 <= j < t.keys@.len() && #[trigger] t.keys@[j].deep_view() == k;
                lemma_key_index(t.keys@, k, j);
                assert(self.keys@[j].deep_view() == k);
                lemma_key_index(self.keys@, k, j);
            }
            assert(t.map() =~= self.map());
            assert(t.key_seq() =~= self.key_seq());
        }
        t
    }
}

/// What a read of a table gives back of a write, over the map that `insert`,
/// `get` and `remove` are stated with: once `v` is stored for `k`, `k` reads
/// back `v` and every other key reads what it read before; once `k` is
/// removed, it reads nothing and every other key is as it was.
pub proof fn law_read_after_write<A, B>(m: Map<A, B>, k: A, v: B, other: A)
    requires
        other != k,
    ensures
        m.insert(k, v).contains_key(k),
        m.insert(k, v)[k] == v,
        m.insert(k, v).contains_key(other) == m.contains_key(other),
        m.contains_key(other) ==> m.insert(k, v)[other] == m[other],
        !m.remove(k).contains_key(k),
        m.remove(k).contains_key(other) == m.contains_key(other),
        m.contains_key(other) ==> m.remove(k)[other] == m[other],
{
}

} // verus!
