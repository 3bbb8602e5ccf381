//! A table keyed by strings that also keeps its keys in a list, so that it
//! can be swept: lookups go through the hash map, sweeps walk the list.

use std::collections::HashMap;

use vstd::hash_map::StringHashMap;
use vstd::prelude::*;
use vstd::string::StringSliceAdditionalSpecFns;

verus! {

/// Whether two byte slices are equal.
pub fn bytes_eq(a: &[u8], b: &[u8]) -> (r: bool)
    ensures
        r == (a@ == b@),
{
    if a.len() != b.len() {
        return false;
    }
    let mut i: usize = 0;
    while i < a.len()
        invariant
            i <= a@.len(),
            a@.len() == b@.len(),
            forall|k: int| 0 <= k < i ==> a@[k] == b@[k],
        decreases a@.len() - i,
    {
        if a[i] != b[i] {
            return false;
        }
        i = i + 1;
    }
    assert(a@ =~= b@);
    true
}

/// Whether two strings are equal.
pub fn str_eq(a: &str, b: &str) -> (r: bool)
    ensures
        r == (a@ == b@),
{
    proof {
        vstd::utf8::encode_utf8_decode_utf8(a@);
        vstd::utf8::encode_utf8_decode_utf8(b@);
    }
    bytes_eq(a.as_bytes(), b.as_bytes())
}

/// A string-keyed table whose keys can be listed and whose entries can be
/// taken out: the entries sit in a list, and a hash map gives each key's
/// place in it.
#[verifier::reject_recursive_types(V)]
pub struct KeyedTable<V> {
    index: StringHashMap<usize>,
    ids: Vec<String>,
    vals: Vec<V>,
}

impl<V> View for KeyedTable<V> {
    type V = Map<Seq<char>, V>;

    closed spec fn view(&self) -> Map<Seq<char>, V> {
        Map::new(
            |k: Seq<char>| self.index@.contains_key(k),
            |k: Seq<char>| self.vals@[self.index@[k] as int],
        )
    }
}

impl<V> KeyedTable<V> {
    /// The listed keys.
    pub closed spec fn keys(&self) -> Seq<Seq<char>> {
        self.ids@.map_values(|s: String| s@)
    }

    /// Keys, entries and places agree.
    pub closed spec fn wf(&self) -> bool {
        &&& self.ids@.len() == self.vals@.len()
        &&& self.keys().no_duplicates()
        &&& forall|i: int|
            0 <= i < self.keys().len() ==> self.index@.contains_key(#[trigger] self.keys()[i])
                && self.index@[self.keys()[i]] == i
        &&& forall|k: Seq<char>| #[trigger]
            self.index@.contains_key(k) ==> self.index@[k] < self.ids@.len() && self.keys()[self.index@[k] as int] == k
    }

    proof fn lemma_view(&self)
        requires
            self.wf(),
        ensures
            self@.dom().finite(),
            self@.len() == self.ids@.len(),
            self@.dom() == self.keys().to_set(),
    {
        assert(self@.dom() =~= self.keys().to_set()) by {
            assert forall|k: Seq<char>| self@.dom().contains(k) <==> self.keys().to_set().contains(k) by {
                if self.keys().to_set().contains(k) {
                    let i = choose|i: int| 0 <= i < self.keys().len() && self.keys()[i] == k;
                    assert(self.index@.contains_key(self.keys()[i]));
                }
                if self@.dom().contains(k) {
                    assert(self.keys()[self.index@[k] as int] == k);
                }
            }
        }
        self.keys().unique_seq_to_set();
    }

    /// An empty table.
    pub fn new() -> (t: Self)
        ensures
            t.wf(),
            t@ == Map::<Seq<char>, V>::empty(),
    {
        let t = KeyedTable { index: StringHashMap::new(), ids: Vec::new(), vals: Vec::new() };
        assert(t.keys() =~= Seq::<Seq<char>>::empty());
        assert(t@ =~= Map::<Seq<char>, V>::empty());
        t
    }

    /// The number of entries.
    pub fn len(&self) -> (n: usize)
        requires
            self.wf(),
        ensures
            n == self@.len(),
    {
        proof {
            self.lemma_view();
        }
        self.ids.len()
    }

    /// Whether `k` has an entry.
    pub fn contains_key(&self, k: &str) -> (r: bool)
        ensures
            r == self@.contains_key(k@),
    {
        self.index.contains_key(k)
    }

    /// The entry of `k`.
    pub fn get(&self, k: &str) -> (r: Option<&V>)
        requires
            self.wf(),
        ensures
            match r {
                Some(v) => self@.contains_key(k@) && *v == self@[k@],
                None => !self@.contains_key(k@),
            },
    {
        match self.index.get(k) {
            Some(i) => Some(&self.vals[*i]),
            None => None,
        }
    }

    /// Sets the entry of `k` to `v`.
    pub fn insert(&mut self, k: String, v: V)
        requires
            old(self).wf(),
        ensures
            final(self).wf(),
            final(self)@ == old(self)@.insert(k@, v),
    {
        let ghost old_keys = self.keys();
        match self.index.get(k.as_str()) {
            Some(i) => {
                let i = *i;
                self.vals[i] = v;
                assert(self.keys() == old_keys);
                assert(self@ =~= old(self)@.insert(k@, v));
            },
            None => {
                let n = self.ids.len();
                let copy = k.as_str().to_owned();
                self.ids.push(copy);
                self.vals.push(v);
                self.index.insert(k, n);
                assert(self.keys() =~= old_keys.push(copy@));
                assert(!old_keys.contains(copy@)) by {
                    if old_keys.contains(copy@) {
                        let j = choose|j: int| 0 <= j < old_keys.len() && old_keys[j] == copy@;
                        assert(old(self).index@.contains_key(old_keys[j]));
                    }
                }
                assert forall|j: int| 0 <= j < self.keys().len() implies self.index@.contains_key(
                    #[trigger] self.keys()[j],
                ) && self.index@[self.keys()[j]] == j by {
                    if j < old_keys.len() {
                        assert(self.keys()[j] == old_keys[j]);
                        assert(old_keys[j] != copy@);
                    }
                }
                assert(self@ =~= old(self)@.insert(k@, v));
            },
        }
    }

    /// Takes the entry of `k` out of the table.
    pub fn take(&mut self, k: &str) -> (r: Option<V>)
        requires
            old(self).wf(),
        ensures
            final(self).wf(),
            final(self)@ == old(self)@.remove(k@),
            match r {
                Some(v) => old(self)@.contains_key(k@) && v == old(self)@[k@],
                None => !old(self)@.contains_key(k@),
            },
    {
        let ghost old_keys = self.keys();
        let i = match self.index.get(k) {
            Some(i) => *i,
            None => {
                assert(self@ =~= old(self)@.remove(k@));
                return None;
            },
        };
        let last = self.ids.len() - 1;
        let ghost lastkey = old_keys[last as int];
        let v = self.vals.swap_remove(i);
        self.ids.swap_remove(i);
        self.index.remove(k);
        let ghost new_keys = old_keys.update(i as int, lastkey).drop_last();
        assert(self.keys() =~= new_keys);
        if i < last {
            let moved = self.ids[i].as_str().to_owned();
            assert(moved@ == lastkey);
            self.index.insert(moved, i);
        }
        assert forall|a: int, b: int| 0 <= a < b < new_keys.len() implies new_keys[a] != new_keys[b] by {
            let a0 = if a == i {
                last as int
            } else {
                a
            };
            let b0 = if b == i {
                last as int
            } else {
                b
            };
            assert(new_keys[a] == old_keys[a0]);
            assert(new_keys[b] == old_keys[b0]);
        }
        assert forall|j: int| 0 <= j < new_keys.len() implies self.index@.contains_key(
            #[trigger] new_keys[j],
        ) && self.index@[new_keys[j]] == j by {
            let j0 = if j == i {
                last as int
            } else {
                j
            };
            assert(new_keys[j] == old_keys[j0]);
            assert(old_keys[j0] != k@);
        }
        assert forall|key: Seq<char>| #[trigger] self.index@.contains_key(key) implies self.index@[key]
            < self.ids@.len() && new_keys[self.index@[key] as int] == key by {
            if key == lastkey && i < last {
            } else {
                assert(old(self).index@.contains_key(key));
                let j = old(self).index@[key];
                assert(old_keys[j as int] == key);
                assert(j != i);
                if j == last {
                    assert(key == lastkey);
                }
            }
        }
        assert(self@ =~= old(self)@.remove(k@)) by {
            assert forall|key: Seq<char>| #[trigger] self@.contains_key(key) implies self@[key]
                == old(self)@[key] by {
                if key == lastkey && i < last {
                    assert(old(self).index@[key] == last);
                } else {
                    assert(old(self).index@.contains_key(key));
                }
            }
        }
        Some(v)
    }

    /// Drops the entry of `k`, if any.
    pub fn remove(&mut self, k: &str)
        requires
            old(self).wf(),
        ensures
            final(self).wf(),
            final(self)@ == old(self)@.remove(k@),
    {
        let _ = self.take(k);
    }

    /// A copy of every key, each once.
    pub fn key_list(&self) -> (r: Vec<String>)
        requires
            self.wf(),
        ensures
            r@.map_values(|s: String| s@).no_duplicates(),
            r@.map_values(|s: String| s@).to_set() == self@.dom(),
    {
        proof {
            self.lemma_view();
        }
        let mut r: Vec<String> = Vec::new();
        let mut i: usize = 0;
        while i < self.ids.len()
            invariant
                i <= self.ids@.len(),
                self.keys().len() == self.ids@.len(),
                r@.map_values(|s: String| s@) == self.keys().subrange(0, i as int),
            decreases self.ids@.len() - i,
        {
            let copy = self.ids[i].as_str().to_owned();
            assert(copy@ == self.keys()[i as int]);
            let ghost before = r@;
            r.push(copy);
            assert(r@.map_values(|s: String| s@) =~= before.map_values(|s: String| s@).push(copy@));
            i = i + 1;
            assert(r@.map_values(|s: String| s@) =~= self.keys().subrange(0, i as int));
        }
        assert(self.keys().subrange(0, i as int) =~= self.keys());
        r
    }
}

/// A table keyed by integers whose keys can be listed.
#[verifier::reject_recursive_types(V)]
pub struct IdTable<V> {
    map: HashMap<u64, V>,
    ids: Vec<u64>,
}

impl<V> View for IdTable<V> {
    type V = Map<u64, V>;

    closed spec fn view(&self) -> Map<u64, V> {
        self.map@
    }
}

impl<V> IdTable<V> {
    /// The listed keys.
    pub closed spec fn keys(&self) -> Seq<u64> {
        self.ids@
    }

    /// The key list holds each key of the map exactly once.
    pub closed spec fn wf(&self) -> bool {
        &&& self.keys().no_duplicates()
        &&& forall|i: int| 0 <= i < self.keys().len() ==> self.map@.contains_key(#[trigger] self.keys()[i])
        &&& forall|k: u64| #[trigger] self.map@.contains_key(k) ==> self.keys().contains(k)
    }

    /// An empty table.
    pub fn new() -> (t: Self)
        ensures
            t.wf(),
            t@ == Map::<u64, V>::empty(),
    {
        IdTable { map: HashMap::new(), ids: Vec::new() }
    }

    /// The number of entries.
    pub fn len(&self) -> (n: usize)
        ensures
            n == self@.len(),
    {
        self.map.len()
    }

    /// Whether `k` has an entry.
    pub fn contains_key(&self, k: u64) -> (r: bool)
        ensures
            r == self@.contains_key(k),
    {
        self.map.contains_key(&k)
    }

    /// The entry of `k`.
    pub fn get(&self, k: u64) -> (r: Option<&V>)
        ensures
            match r {
                Some(v) => self@.contains_key(k) && *v == self@[k],
                None => !self@.contains_key(k),
            },
    {
        self.map.get(&k)
    }

    /// Sets the entry of `k` to `v`.
    pub fn insert(&mut self, k: u64, v: V)
        requires
            old(self).wf(),
        ensures
            final(self).wf(),
            final(self)@ == old(self)@.insert(k, v),
    {
        let ghost old_keys = self.keys();
        if self.map.contains_key(&k) {
            self.map.insert(k, v);
        } else {
            self.map.insert(k, v);
            self.ids.push(k);
            assert(self.keys() =~= old_keys.push(k));
            assert forall|key: u64| #[trigger] self.map@.contains_key(key) implies self.keys().contains(
                key,
            ) by {
                if key != k {
                    assert(old_keys.contains(key));
                    let i = choose|i: int| 0 <= i < old_keys.len() && old_keys[i] == key;
                    assert(self.keys()[i] == key);
                } else {
                    assert(self.keys()[old_keys.len() as int] == key);
                }
            }
        }
    }

    fn position(&self, k: u64) -> (r: Option<usize>)
        requires
            self.wf(),
        ensures
            match r {
                Some(i) => i < self.ids@.len() && self.keys()[i as int] == k,
                None => !self.keys().contains(k),
            },
    {
        let mut i: usize = 0;
        while i < self.ids.len()
            invariant
                i <= self.ids@.len(),
                forall|j: int| 0 <= j < i ==> self.keys()[j] != k,
            decreases self.ids@.len() - i,
        {
            if self.ids[i] == k {
                return Some(i);
            }
            i = i + 1;
        }
        None
    }

    /// Drops the entry of `k`, if any.
    pub fn remove(&mut self, k: u64)
        requires
            old(self).wf(),
        ensures
            final(self).wf(),
            final(self)@ == old(self)@.remove(k),
    {
        let ghost old_keys = self.keys();
        match self.position(k) {
            None => {
                self.map.remove(&k);
                assert(self.map@ =~= old(self)@.remove(k));
            },
            Some(i) => {
                self.map.remove(&k);
                let ghost last = old_keys.last();
                self.ids.swap_remove(i);
                let ghost new_keys = old_keys.update(i as int, last).drop_last();
                assert(self.keys() =~= new_keys);
                assert forall|a: int, b: int| 0 <= a < b < new_keys.len() implies new_keys[a]
                    != new_keys[b] by {
                    let a0 = if a == i {
                        old_keys.len() - 1
                    } else {
                        a
                    };
                    let b0 = if b == i {
                        old_keys.len() - 1
                    } else {
                        b
                    };
                    assert(new_keys[a] == old_keys[a0]);
                    assert(new_keys[b] == old_keys[b0]);
                }
                assert forall|j: int| 0 <= j < new_keys.len() implies self.map@.contains_key(
                    #[trigger] new_keys[j],
                ) by {
                    let j0 = if j == i {
                        old_keys.len() - 1
                    } else {
                        j
                    };
                    assert(new_keys[j] == old_keys[j0]);
                    assert(j0 != i);
                }
                assert forall|key: u64| #[trigger] self.map@.contains_key(key) implies new_keys.contains(
                    key,
                ) by {
                    assert(old_keys.contains(key));
                    let j = choose|j: int| 0 <= j < old_keys.len() && old_keys[j] == key;
                    if j == old_keys.len() - 1 {
                        assert(new_keys[i as int] == key);
                    } else {
                        assert(j != i);
                        assert(new_keys[j] == key);
                    }
                }
            },
        }
    }

    /// A copy of every key, each once.
    pub fn key_list(&self) -> (r: Vec<u64>)
        requires
            self.wf(),
        ensures
            r@.no_duplicates(),
            r@.to_set() == self@.dom(),
    {
        let r = self.ids.clone();
        assert(r@ == self.keys());
        assert(self.keys().to_set() =~= self@.dom()) by {
            assert forall|k: u64| self.keys().to_set().contains(k) <==> self@.dom().contains(k) by {
                if self.keys().to_set().contains(k) {
                    let j = choose|j: int| 0 <= j < self.keys().len() && self.keys()[j] == k;
                    assert(self.map@.contains_key(self.keys()[j]));
                }
            }
        }
        r
    }
}

} // verus!
