//! A small association table keyed by header hash.

use crate::hash::HeaderHash;
use vstd::prelude::*;

verus! {

/// One binding of a table.
pub struct Slot<V> {
    pub key: HeaderHash,
    pub value: V,
}

/// A finite map from header hashes to values, kept as a vector of slots
/// in which no key occurs twice.
pub struct HashTable<V> {
    slots: Vec<Slot<V>>,
}

/// No key is that of two slots.
pub open spec fn keys_distinct<V>(s: Seq<Slot<V>>) -> bool {
    forall|i: int, j: int| 0 <= i < s.len() && 0 <= j < s.len() && s[i].key == s[j].key ==> i == j
}

/// A slot is filed under the key `k`.
pub open spec fn has_key<V>(s: Seq<Slot<V>>, k: HeaderHash) -> bool {
    exists|i: int| 0 <= i < s.len() && #[trigger] s[i].key == k
}

/// Where the slot of key `k` stands.
pub open spec fn index_of<V>(s: Seq<Slot<V>>, k: HeaderHash) -> int {
    choose|i: int| 0 <= i < s.len() && #[trigger] s[i].key == k
}

/// The slots as a map from keys to values.
pub open spec fn slots_to_map<V>(s: Seq<Slot<V>>) -> Map<HeaderHash, V> {
    Map::new(|k: HeaderHash| has_key(s, k), |k: HeaderHash| s[index_of(s, k)].value)
}

/// Among slots of distinct keys, the map gives each key the value of its slot.
pub proof fn lemma_slot_in_map<V>(s: Seq<Slot<V>>, i: int)
    requires
        keys_distinct(s),
        0 <= i < s.len(),
    ensures
        slots_to_map(s).dom().contains(s[i].key),
        slots_to_map(s)[s[i].key] == s[i].value,
        index_of(s, s[i].key) == i,
{
    let k = s[i].key;
    assert(has_key(s, k));
    let j = index_of(s, k);
    assert(0 <= j < s.len() && s[j].key == k);
}

impl<V> View for HashTable<V> {
    type V = Map<HeaderHash, V>;

    closed spec fn view(&self) -> Map<HeaderHash, V> {
        slots_to_map(self.slots@)
    }
}

impl<V> HashTable<V> {
    /// No key occurs in two slots.
    pub closed spec fn wf(&self) -> bool {
        keys_distinct(self.slots@)
    }

    pub fn new() -> (t: HashTable<V>)
        ensures
            t.wf(),
            t@ == Map::<HeaderHash, V>::empty(),
    {
        let t = HashTable { slots: Vec::new() };
        assert(t@ =~= Map::<HeaderHash, V>::empty());
        t
    }

    fn find(&self, key: &HeaderHash) -> (r: Option<usize>)
        requires
            self.wf(),
        ensures
            match r {
                Some(i) => i < self.slots@.len() && self.slots@[i as int].key == *key,
                None => !has_key(self.slots@, *key),
            },
    {
        let mut i: usize = 0;
        while i < self.slots.len()
            invariant
                i <= self.slots@.len(),
                forall|j: int| 0 <= j < i ==> self.slots@[j].key != *key,
            decreases self.slots@.len() - i,
        {
            if self.slots[i].key == *key {
                return Some(i);
            }
            i += 1;
        }
        None
    }

    pub fn contains_key(&self, key: &HeaderHash) -> (b: bool)
        requires
            self.wf(),
        ensures
            b == self@.dom().contains(*key),
    {
        self.find(key).is_some()
    }

    pub fn get(&self, key: &HeaderHash) -> (r: Option<&V>)
        requires
            self.wf(),
        ensures
            match r {
                Some(v) => self@.dom().contains(*key) && *v == self@[*key],
                None => !self@.dom().contains(*key),
            },
    {
        match self.find(key) {
            Some(i) => {
                proof {
                    lemma_slot_in_map(self.slots@, i as int);
                }
                Some(&self.slots[i].value)
            },
            None => None,
        }
    }

    /// Binds `key` to `value`; hands back the value that `key` was bound to before, if any.
    pub fn insert(&mut self, key: HeaderHash, value: V) -> (prev: Option<V>)
        requires
            old(self).wf(),
        ensures
            final(self).wf(),
            final(self)@ == old(self)@.insert(key, value),
            match prev {
                Some(v) => old(self)@.dom().contains(key) && v == old(self)@[key],
                None => !old(self)@.dom().contains(key),
            },
    {
        let found = self.find(&key);
        let prev = match found {
            Some(i) => {
                proof {
                    lemma_slot_in_map(self.slots@, i as int);
                    lemma_remove_slot(self.slots@, i as int);
                }
                let slot = self.slots.remove(i);
                Some(slot.value)
            },
            None => None,
        };
        proof {
            lemma_push_slot(self.slots@, Slot { key, value });
        }
        self.slots.push(Slot { key, value });
        assert(self@ =~= old(self)@.insert(key, value));
        prev
    }

    /// Drops the binding of `key`, if there is one, and hands back its value.
    pub fn remove(&mut self, key: &HeaderHash) -> (prev: Option<V>)
        requires
            old(self).wf(),
        ensures
            final(self).wf(),
            final(self)@ == old(self)@.remove(*key),
            match prev {
                Some(v) => old(self)@.dom().contains(*key) && v == old(self)@[*key],
                None => !old(self)@.dom().contains(*key),
            },
    {
        match self.find(key) {
            Some(i) => {
                proof {
                    lemma_slot_in_map(self.slots@, i as int);
                    lemma_remove_slot(self.slots@, i as int);
                }
                let slot = self.slots.remove(i);
                Some(slot.value)
            },
            None => {
                assert(self@ =~= old(self)@.remove(*key));
                None
            },
        }
    }

    /// The keys of the table, each once.
    pub fn keys(&self) -> (ks: Vec<HeaderHash>)
        requires
            self.wf(),
        ensures
            ks@.no_duplicates(),
            forall|k: HeaderHash| ks@.contains(k) <==> self@.dom().contains(k),
    {
        let mut ks: Vec<HeaderHash> = Vec::new();
        let mut i: usize = 0;
        while i < self.slots.len()
            invariant
                i <= self.slots@.len(),
                ks@.len() == i,
                forall|j: int| 0 <= j < i ==> ks@[j] == self.slots@[j].key,
            decreases self.slots@.len() - i,
        {
            ks.push(self.slots[i].key);
            i += 1;
        }
        proof {
            assert forall|k: HeaderHash| ks@.contains(k) <==> self@.dom().contains(k) by {
                if ks@.contains(k) {
                    let j = choose|j: int| 0 <= j < ks@.len() && ks@[j] == k;
                    assert(self.slots@[j].key == k);
                }
                if self@.dom().contains(k) {
                    let j = index_of(self.slots@, k);
                    assert(ks@[j] == k);
                }
            }
        }
        ks
    }

    pub fn len(&self) -> (n: usize)
        requires
            self.wf(),
        ensures
            n == self@.dom().len(),
            self@.dom().finite(),
    {
        proof {
            lemma_dom_len(self.slots@);
        }
        self.slots.len()
    }
}

/// Slots of distinct keys make a map with as many keys as there are slots.
pub proof fn lemma_dom_len<V>(s: Seq<Slot<V>>)
    requires
        keys_distinct(s),
    ensures
        slots_to_map(s).dom().finite(),
        slots_to_map(s).dom().len() == s.len(),
    decreases s.len(),
{
    if s.len() == 0 {
        assert(slots_to_map(s).dom() =~= Set::<HeaderHash>::empty());
    } else {
        let t = s.drop_last();
        let last = s.last();
        assert(keys_distinct(t)) by {
            assert forall|i: int, j: int|
                0 <= i < t.len() && 0 <= j < t.len() && t[i].key == t[j].key implies i == j by {
                assert(s[i].key == s[j].key);
            }
        }
        lemma_dom_len(t);
        assert(!has_key(t, last.key)) by {
            if has_key(t, last.key) {
                let i = index_of(t, last.key);
                assert(s[i].key == s[s.len() - 1].key);
            }
        }
        assert(slots_to_map(s).dom() =~= slots_to_map(t).dom().insert(last.key)) by {
            assert forall|k: HeaderHash| has_key(s, k) <==> (has_key(t, k) || k == last.key) by {
                if has_key(s, k) {
                    let i = index_of(s, k);
                    if i < t.len() {
                        assert(t[i].key == k);
                    }
                }
                if has_key(t, k) {
                    let i = index_of(t, k);
                    assert(s[i].key == k);
                }
                if k == last.key {
                    assert(s[s.len() - 1].key == k);
                }
            }
        }
    }
}

/// Appending a slot with a fresh key binds that key and keeps the rest.
pub proof fn lemma_push_slot<V>(s: Seq<Slot<V>>, slot: Slot<V>)
    requires
        keys_distinct(s),
        !has_key(s, slot.key),
    ensures
        keys_distinct(s.push(slot)),
        slots_to_map(s.push(slot)) == slots_to_map(s).insert(slot.key, slot.value),
{
    let t = s.push(slot);
    assert(keys_distinct(t)) by {
        assert forall|i: int, j: int|
            0 <= i < t.len() && 0 <= j < t.len() && t[i].key == t[j].key implies i == j by {
            if i < s.len() && j < s.len() {
                assert(s[i].key == s[j].key);
            } else if i < s.len() {
                assert(s[i].key == slot.key);
            } else if j < s.len() {
                assert(s[j].key == slot.key);
            }
        }
    }
    assert forall|k: HeaderHash| has_key(t, k) <==> (has_key(s, k) || k == slot.key) by {
        if has_key(t, k) {
            let i = index_of(t, k);
            if i < s.len() {
                assert(s[i].key == k);
            }
        }
        if has_key(s, k) {
            let i = index_of(s, k);
            assert(t[i].key == k);
        }
        if k == slot.key {
            assert(t[t.len() - 1].key == k);
        }
    }
    assert forall|k: HeaderHash| has_key(t, k) implies slots_to_map(t)[k] == slots_to_map(s).insert(
        slot.key,
        slot.value,
    )[k] by {
        let i = index_of(t, k);
        lemma_slot_in_map(t, i);
        if i < s.len() {
            assert(s[i].key == k);
            lemma_slot_in_map(s, i);
        }
    }
    assert(slots_to_map(t) =~= slots_to_map(s).insert(slot.key, slot.value));
}

/// Taking a slot out unbinds its key and keeps the rest.
pub proof fn lemma_remove_slot<V>(s: Seq<Slot<V>>, i: int)
    requires
        keys_distinct(s),
        0 <= i < s.len(),
    ensures
        keys_distinct(s.remove(i)),
        !has_key(s.remove(i), s[i].key),
        slots_to_map(s.remove(i)) == slots_to_map(s).remove(s[i].key),
{
    let t = s.remove(i);
    assert forall|a: int| 0 <= a < t.len() implies #[trigger] t[a] == s[if a < i { a } else { a + 1 }] by {}
    assert(keys_distinct(t)) by {
        assert forall|a: int, b: int|
            0 <= a < t.len() && 0 <= b < t.len() && t[a].key == t[b].key implies a == b by {
            let a2 = if a < i { a } else { a + 1 };
            let b2 = if b < i { b } else { b + 1 };
            assert(t[a] == s[a2]);
            assert(t[b] == s[b2]);
            assert(s[a2].key == s[b2].key);
        }
    }
    assert(!has_key(t, s[i].key)) by {
        if has_key(t, s[i].key) {
            let a = index_of(t, s[i].key);
            let a2 = if a < i { a } else { a + 1 };
            assert(t[a] == s[a2]);
            assert(s[a2].key == s[i].key);
        }
    }
    assert forall|k: HeaderHash| has_key(t, k) <==> (has_key(s, k) && k != s[i].key) by {
        if has_key(t, k) {
            let a = index_of(t, k);
            let a2 = if a < i { a } else { a + 1 };
            assert(t[a] == s[a2]);
            assert(s[a2].key == k);
        }
        if has_key(s, k) && k != s[i].key {
            let b = index_of(s, k);
            let b2 = if b < i { b } else { b - 1 };
            assert(t[b2] == s[b]);
            assert(t[b2].key == k);
        }
    }
    assert forall|k: HeaderHash| has_key(t, k) implies slots_to_map(t)[k] == slots_to_map(s)[k] by {
        let a = index_of(t, k);
        let a2 = if a < i { a } else { a + 1 };
        assert(t[a] == s[a2]);
        lemma_slot_in_map(t, a);
        lemma_slot_in_map(s, a2);
    }
    assert(slots_to_map(t) =~= slots_to_map(s).remove(s[i].key));
}

} // verus!
