//! The live ledger states, one per block hash, across all forks that are
//! still of interest.

use crate::hash::HeaderHash;
use crate::storage::BlockStore;
use crate::storage::StoreView;
use crate::table::HashTable;
use vstd::prelude::*;

verus! {

/// A ledger state and the number of handles that pin it.
pub struct Entry<L> {
    pub state: L,
    pub roots: u64,
}

/// A handle on one state of the multiverse. While a handle on a hash is
/// held, collection keeps the state filed under that hash.
#[derive(Debug)]
pub struct GCRoot {
    hash: HeaderHash,
}

impl GCRoot {
    pub closed spec fn spec_hash(&self) -> HeaderHash {
        self.hash
    }

    /// The hash whose state this handle pins.
    #[verifier::when_used_as_spec(spec_hash)]
    pub fn hash(&self) -> (h: HeaderHash)
        ensures
            h == self.spec_hash(),
    {
        self.hash
    }
}

/// The ledger states by the hash of the block they follow.
pub struct Multiverse<L> {
    states: HashTable<Entry<L>>,
}

/// `h` is pinned: some handle on it has not been released.
pub open spec fn pinned<L>(m: Map<HeaderHash, Entry<L>>, h: HeaderHash) -> bool {
    m.dom().contains(h) && m[h].roots > 0
}

/// Collection keeps `h`: it is pinned, or it lies above a pinned state on
/// that state's chain in the archive.
pub open spec fn retained<L>(m: Map<HeaderHash, Entry<L>>, store: StoreView, h: HeaderHash) -> bool {
    m.dom().contains(h) && exists|r: HeaderHash| pinned(m, r) && #[trigger] store.reaches(r, h)
}

/// While a handle on a state is held, collection keeps that state, and
/// with it the state of every block above it on its chain that has one.
pub proof fn law_pinned_state_is_kept<L>(
    m: Map<HeaderHash, Entry<L>>,
    store: StoreView,
    held: HeaderHash,
    above: HeaderHash,
)
    requires
        pinned(m, held),
    ensures
        retained(m, store, held),
        m.dom().contains(above) && store.reaches(held, above) ==> retained(m, store, above),
{
    assert(store.ancestor(held, 0) == Some(held));
    assert(store.reaches(held, held));
}

/// The hashes that lie on the chains above the pinned ones among the first `upto` of `keys`.
pub open spec fn marked<L>(
    m: Map<HeaderHash, Entry<L>>,
    store: StoreView,
    keys: Seq<HeaderHash>,
    upto: int,
    h: HeaderHash,
) -> bool {
    exists|j: int| 0 <= j < upto && pinned(m, #[trigger] keys[j]) && store.reaches(keys[j], h)
}

/// `h` stands in `keys` at position `from` or later.
pub open spec fn pending(keys: Seq<HeaderHash>, from: int, h: HeaderHash) -> bool {
    exists|a: int| from <= a < keys.len() && #[trigger] keys[a] == h
}

/// The hashes met within the first `steps` links of the walk up from `start`.
pub open spec fn walked(store: StoreView, start: HeaderHash, steps: nat, h: HeaderHash) -> bool {
    exists|k: nat| k < steps && #[trigger] store.ancestor(start, k) == Some(h)
}

impl<L> View for Multiverse<L> {
    type V = Map<HeaderHash, Entry<L>>;

    closed spec fn view(&self) -> Map<HeaderHash, Entry<L>> {
        self.states@
    }
}

impl<L> Multiverse<L> {
    pub closed spec fn wf(&self) -> bool {
        self.states.wf()
    }

    pub open spec fn contains(&self, h: HeaderHash) -> bool {
        self@.dom().contains(h)
    }

    pub open spec fn state(&self, h: HeaderHash) -> L {
        self@[h].state
    }

    pub open spec fn roots(&self, h: HeaderHash) -> u64 {
        self@[h].roots
    }

    /// The entry under `hash` after one more handle on it was given out for `state`.
    pub open spec fn added(&self, hash: HeaderHash, state: L) -> Entry<L> {
        if self.contains(hash) {
            Entry { state: self.state(hash), roots: (self.roots(hash) + 1) as u64 }
        } else {
            Entry { state, roots: 1 }
        }
    }

    pub fn new() -> (m: Multiverse<L>)
        ensures
            m.wf(),
            m@ == Map::<HeaderHash, Entry<L>>::empty(),
    {
        Multiverse { states: HashTable::new() }
    }

    /// Files `state` under `hash` and hands out a handle on it. Where a
    /// state is already filed under `hash`, that state stays and only gains
    /// a handle.
    pub fn add(&mut self, hash: HeaderHash, state: L) -> (root: GCRoot)
        requires
            old(self).wf(),
            old(self).contains(hash) ==> old(self).roots(hash) < u64::MAX,
        ensures
            final(self).wf(),
            final(self)@ == old(self)@.insert(hash, old(self).added(hash, state)),
            root.spec_hash() == hash,
    {
        match self.states.remove(&hash) {
            Some(entry) => {
                self.states.insert(hash, Entry { state: entry.state, roots: entry.roots + 1 });
            },
            None => {
                self.states.insert(hash, Entry { state, roots: 1 });
            },
        }
        assert(self@ =~= old(self)@.insert(hash, old(self).added(hash, state)));
        GCRoot { hash }
    }

    /// The entry under the handle's hash after the handle was given back.
    pub open spec fn released(&self, hash: HeaderHash) -> Entry<L> {
        Entry { state: self.state(hash), roots: (self.roots(hash) - 1) as u64 }
    }

    /// Gives a handle back. The state stays until the next collection.
    pub fn release(&mut self, root: GCRoot)
        requires
            old(self).wf(),
        ensures
            final(self).wf(),
            final(self)@ == if pinned(old(self)@, root.spec_hash()) {
                old(self)@.insert(root.spec_hash(), old(self).released(root.spec_hash()))
            } else {
                old(self)@
            },
    {
        let hash = root.hash;
        match self.states.remove(&hash) {
            Some(entry) => {
                let roots = if entry.roots > 0 {
                    entry.roots - 1
                } else {
                    0
                };
                self.states.insert(hash, Entry { state: entry.state, roots });
                assert(!pinned(old(self)@, hash) ==> self@ =~= old(self)@);
                assert(pinned(old(self)@, hash) ==> self@ =~= old(self)@.insert(
                    hash,
                    old(self).released(hash),
                ));
            },
            None => {
                assert(self@ =~= old(self)@);
            },
        }
    }

    pub fn get(&self, hash: &HeaderHash) -> (r: Option<&L>)
        requires
            self.wf(),
        ensures
            match r {
                Some(state) => self.contains(*hash) && *state == self.state(*hash),
                None => !self.contains(*hash),
            },
    {
        match self.states.get(hash) {
            Some(entry) => Some(&entry.state),
            None => None,
        }
    }

    /// The number of handles that pin the state of `hash`, if there is such a state.
    pub fn root_count(&self, hash: &HeaderHash) -> (r: Option<u64>)
        requires
            self.wf(),
        ensures
            match r {
                Some(n) => self.contains(*hash) && n == self.roots(*hash),
                None => !self.contains(*hash),
            },
    {
        match self.states.get(hash) {
            Some(entry) => Some(entry.roots),
            None => None,
        }
    }

    /// Drops every state that is neither pinned nor above a pinned state on
    /// that state's chain, and keeps the others as they are.
    pub fn gc(&mut self, store: &BlockStore)
        requires
            old(self).wf(),
            store.wf(),
        ensures
            final(self).wf(),
            forall|h: HeaderHash| #[trigger]
                final(self).contains(h) <==> retained(old(self)@, store@, h),
            forall|h: HeaderHash| #[trigger]
                final(self).contains(h) ==> old(self).contains(h) && final(self)@[h] == old(self)@[h],
    {
        let keys = self.states.keys();
        let mut keep: HashTable<()> = HashTable::new();
        let mut i: usize = 0;
        while i < keys.len()
            invariant
                self.wf(),
                store.wf(),
                keep.wf(),
                self@ == old(self)@,
                i <= keys@.len(),
                forall|k: HeaderHash| keys@.contains(k) <==> self@.dom().contains(k),
                forall|h: HeaderHash|
                    keep@.dom().contains(h) <==> marked(self@, store@, keys@, i as int, h),
            decreases keys@.len() - i,
        {
            let key = keys[i];
            let ghost before = keep@.dom();
            assert(keys@.contains(key));
            let is_pinned = match self.states.get(&key) {
                Some(entry) => entry.roots > 0,
                None => false,
            };
            if is_pinned {
                mark_ancestors(store, key, &mut keep);
            }
            proof {
                assert forall|h: HeaderHash|
                    keep@.dom().contains(h) <==> marked(self@, store@, keys@, i + 1, h) by {
                    if marked(self@, store@, keys@, i + 1, h) {
                        let j = choose|j: int|
                            0 <= j < i + 1 && pinned(self@, #[trigger] keys@[j]) && store@.reaches(
                                keys@[j],
                                h,
                            );
                        if j < i {
                            assert(marked(self@, store@, keys@, i as int, h));
                        }
                    }
                    if before.contains(h) {
                        let j = choose|j: int|
                            0 <= j < i && pinned(self@, #[trigger] keys@[j]) && store@.reaches(
                                keys@[j],
                                h,
                            );
                        assert(pinned(self@, keys@[j]) && store@.reaches(keys@[j], h));
                    }
                    if is_pinned && store@.reaches(key, h) {
                        assert(pinned(self@, keys@[i as int]) && store@.reaches(keys@[i as int], h));
                    }
                }
            }
            i += 1;
        }
        proof {
            assert forall|h: HeaderHash|
                self@.dom().contains(h) implies (keep@.dom().contains(h) <==> retained(
                    self@,
                    store@,
                    h,
                )) by {
                if keep@.dom().contains(h) {
                    let j = choose|j: int|
                        0 <= j < keys@.len() && pinned(self@, #[trigger] keys@[j]) && store@.reaches(
                            keys@[j],
                            h,
                        );
                    assert(pinned(self@, keys@[j]) && store@.reaches(keys@[j], h));
                }
                if retained(self@, store@, h) {
                    let r = choose|r: HeaderHash| pinned(self@, r) && #[trigger] store@.reaches(r, h);
                    assert(keys@.contains(r));
                    let j = choose|j: int| 0 <= j < keys@.len() && keys@[j] == r;
                    assert(pinned(self@, keys@[j]) && store@.reaches(keys@[j], h));
                }
            }
        }
        let mut j: usize = 0;
        proof {
            assert forall|h: HeaderHash| self@.dom().contains(h) implies pending(keys@, 0, h) by {
                assert(keys@.contains(h));
                let a = choose|a: int| 0 <= a < keys@.len() && keys@[a] == h;
                assert(0 <= a < keys@.len() && keys@[a] == h);
            }
        }
        while j < keys.len()
            invariant
                self.wf(),
                keep.wf(),
                j <= keys@.len(),
                keys@.no_duplicates(),
                forall|h: HeaderHash| #[trigger]
                    self@.dom().contains(h) <==> old(self)@.dom().contains(h) && (
                    keep@.dom().contains(h) || pending(keys@, j as int, h)),
                forall|h: HeaderHash| #[trigger]
                    self@.dom().contains(h) ==> old(self)@.dom().contains(h) && self@[h] == old(
                        self,
                    )@[h],
            decreases keys@.len() - j,
        {
            let key = keys[j];
            let ghost prev = self@;
            if !keep.contains_key(&key) {
                self.states.remove(&key);
            }
            proof {
                assert(self@ == prev || self@ == prev.remove(key));
                assert forall|h: HeaderHash| #[trigger]
                    self@.dom().contains(h) implies old(self)@.dom().contains(h) && self@[h] == old(
                        self,
                    )@[h] by {
                    assert(prev.dom().contains(h));
                }
                assert forall|h: HeaderHash| #[trigger]
                    self@.dom().contains(h) <==> old(self)@.dom().contains(h) && (
                    keep@.dom().contains(h) || pending(keys@, j + 1, h)) by {
                    assert(prev.dom().contains(h) <==> old(self)@.dom().contains(h) && (
                    keep@.dom().contains(h) || pending(keys@, j as int, h)));
                    if pending(keys@, j as int, h) {
                        let a = choose|a: int| j <= a < keys@.len() && #[trigger] keys@[a] == h;
                        if h != key {
                            assert(j + 1 <= a < keys@.len() && keys@[a] == h);
                        }
                    }
                    if pending(keys@, j + 1, h) {
                        let a = choose|a: int| j + 1 <= a < keys@.len() && #[trigger] keys@[a] == h;
                        assert(j <= a < keys@.len() && keys@[a] == h);
                        assert(keys@[j as int] != keys@[a]);
                    }
                    if h == key {
                        assert(j <= j < keys@.len() && keys@[j as int] == h);
                        assert(pending(keys@, j as int, h));
                    }
                }
            }
            j += 1;
        }
        proof {
            assert forall|h: HeaderHash| self.contains(h) <==> retained(old(self)@, store@, h) by {
                assert(!pending(keys@, j as int, h));
            }
        }
    }
}

/// Adds to `keep` every hash on the walk up from `start`: `start` itself,
/// then parent after parent for as long as the archive has the links.
fn mark_ancestors(store: &BlockStore, start: HeaderHash, keep: &mut HashTable<()>)
    requires
        store.wf(),
        old(keep).wf(),
    ensures
        final(keep).wf(),
        forall|h: HeaderHash|
            final(keep)@.dom().contains(h) <==> old(keep)@.dom().contains(h) || store@.reaches(
                start,
                h,
            ),
{
    let mut next: Option<HeaderHash> = Some(start);
    let ghost mut steps: nat = 0;
    while next.is_some()
        invariant
            store.wf(),
            keep.wf(),
            next == store@.ancestor(start, steps),
            forall|h: HeaderHash|
                keep@.dom().contains(h) <==> old(keep)@.dom().contains(h) || walked(
                    store@,
                    start,
                    steps,
                    h,
                ),
        decreases
                match next {
                    Some(c) => if store@.contains(c) {
                        store@.depth(c) + 1
                    } else {
                        1
                    },
                    None => 0,
                },
    {
        let cur = next.unwrap();
        let ghost before = keep@.dom();
        keep.insert(cur, ());
        next =
        match store.get_block_info(&cur) {
            Ok(info) => if info.depth > 1 {
                Some(info.parent_hash)
            } else {
                None
            },
            Err(_) => None,
        };
        proof {
            if store@.contains(cur) {
                store@.lemma_link(cur);
            }
            store@.lemma_ancestor_add(start, steps, 1);
            assert(store@.ancestor(cur, 1) == if store@.contains(cur) && store@.depth(cur) > 1 {
                store@.ancestor(store@.parent(cur), 0)
            } else {
                None
            });
            assert forall|h: HeaderHash|
                keep@.dom().contains(h) <==> old(keep)@.dom().contains(h) || walked(
                    store@,
                    start,
                    steps + 1,
                    h,
                ) by {
                if walked(store@, start, steps + 1, h) {
                    let k = choose|k: nat| k < steps + 1 && #[trigger] store@.ancestor(start, k) == Some(h);
                    if k < steps {
                        assert(walked(store@, start, steps, h));
                    }
                }
                if walked(store@, start, steps, h) {
                    let k = choose|k: nat| k < steps && #[trigger] store@.ancestor(start, k) == Some(h);
                    assert(k < steps + 1 && store@.ancestor(start, k) == Some(h));
                }
                if h == cur {
                    assert(steps < steps + 1 && store@.ancestor(start, steps) == Some(h));
                }
            }
            steps = steps + 1;
        }
    }
    proof {
        assert forall|h: HeaderHash| walked(store@, start, steps, h) <==> store@.reaches(start, h) by {
            if walked(store@, start, steps, h) {
                let k = choose|k: nat| k < steps && #[trigger] store@.ancestor(start, k) == Some(h);
                assert(store@.ancestor(start, k) == Some(h));
            }
            if store@.reaches(start, h) {
                let n = choose|n: nat| store@.ancestor(start, n) == Some(h);
                if n >= steps {
                    store@.lemma_ancestor_none(start, steps, n);
                }
            }
        }
    }
}

} // verus!
