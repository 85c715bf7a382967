//! The registry of per-epoch leadership schedules, one per fork and epoch.

use crate::block::ChainLength;
use crate::block::Epoch;
use crate::block::Header;
use crate::hash::HeaderHash;
use crate::time::TimeFrame;
use vstd::prelude::*;

verus! {

/// Under what a schedule is filed: the epoch it rules, and the block at
/// which the epoch was entered.
#[derive(Clone, Copy, Debug, PartialEq, Eq, Structural)]
pub struct LeadershipKey {
    pub epoch: Epoch,
    pub chain_length: ChainLength,
    pub anchor: HeaderHash,
}

/// A schedule with its key and the number of handles that pin it.
pub struct LeadershipEntry<D> {
    pub key: LeadershipKey,
    pub leadership: D,
    pub roots: u64,
}

/// A handle on one schedule of the registry.
#[derive(Debug)]
pub struct LeadershipRoot {
    key: LeadershipKey,
}

impl LeadershipRoot {
    pub closed spec fn spec_key(&self) -> LeadershipKey {
        self.key
    }

    /// The key of the schedule that this handle pins.
    #[verifier::when_used_as_spec(spec_key)]
    pub fn key(&self) -> (k: LeadershipKey)
        ensures
            k == self.spec_key(),
    {
        self.key
    }
}

/// What the scheduler of leader duties is told when an epoch opens.
#[derive(Debug)]
pub struct EpochParameters<L> {
    pub epoch: Epoch,
    pub time_frame: TimeFrame,
    /// The ledger state to plan from; its fixed and its current parameters
    /// are read off it.
    pub ledger_reference: L,
}

/// The schedules of all epochs and forks, those of longer chains first.
pub struct Leaderships<D> {
    entries: Vec<LeadershipEntry<D>>,
}

/// Longer chains come first; among equal lengths the order is that of arrival.
pub open spec fn descending<D>(s: Seq<LeadershipEntry<D>>) -> bool {
    forall|i: int, j: int|
        0 <= i <= j < s.len() ==> (#[trigger] s[i]).key.chain_length >= (
        #[trigger] s[j]).key.chain_length
}

/// No key is that of two entries.
pub open spec fn distinct_keys<D>(s: Seq<LeadershipEntry<D>>) -> bool {
    forall|i: int, j: int|
        0 <= i < s.len() && 0 <= j < s.len() && (#[trigger] s[i]).key == (#[trigger] s[j]).key ==> i
            == j
}

/// The entries of one epoch, in the order in which they stand.
pub open spec fn of_epoch<D>(s: Seq<LeadershipEntry<D>>, epoch: Epoch) -> Seq<LeadershipEntry<D>>
    decreases s.len(),
{
    if s.len() == 0 {
        Seq::empty()
    } else if s.last().key.epoch == epoch {
        of_epoch(s.drop_last(), epoch).push(s.last())
    } else {
        of_epoch(s.drop_last(), epoch)
    }
}

/// Where an entry of chain length `n` goes: behind every entry that is at
/// least as long.
pub open spec fn position<D>(s: Seq<LeadershipEntry<D>>, n: ChainLength) -> int
    decreases s.len(),
{
    if s.len() == 0 {
        0
    } else if s.last().key.chain_length >= n {
        s.len() as int
    } else {
        position(s.drop_last(), n)
    }
}

/// Where `key` stands, or the length of `s` if it stands nowhere.
pub open spec fn key_index<D>(s: Seq<LeadershipEntry<D>>, key: LeadershipKey) -> int
    decreases s.len(),
{
    if s.len() == 0 {
        0
    } else if s[0].key == key {
        0
    } else {
        1 + key_index(s.skip(1), key)
    }
}

/// `key_index` gives the first place at which the key stands, if it stands anywhere.
pub proof fn lemma_key_index<D>(s: Seq<LeadershipEntry<D>>, key: LeadershipKey)
    ensures
        0 <= key_index(s, key) <= s.len(),
        key_index(s, key) < s.len() ==> s[key_index(s, key)].key == key,
        forall|i: int| 0 <= i < key_index(s, key) ==> (#[trigger] s[i]).key != key,
    decreases s.len(),
{
    if s.len() > 0 && s[0].key != key {
        let t = s.skip(1);
        lemma_key_index(t, key);
        assert forall|i: int| 0 <= i < key_index(s, key) implies (#[trigger] s[i]).key != key by {
            if i > 0 {
                assert(t[i - 1] == s[i]);
            }
        }
    }
}

/// In a descending sequence the position for `n` is the one index that has
/// only entries of at least `n` before it and only shorter ones from it on.
pub proof fn lemma_position<D>(s: Seq<LeadershipEntry<D>>, n: ChainLength, p: int)
    requires
        descending(s),
        0 <= p <= s.len(),
        forall|i: int| 0 <= i < p ==> (#[trigger] s[i]).key.chain_length >= n,
        forall|i: int| p <= i < s.len() ==> (#[trigger] s[i]).key.chain_length < n,
    ensures
        position(s, n) == p,
    decreases s.len(),
{
    if s.len() > 0 {
        if s.last().key.chain_length >= n {
            assert(p == s.len()) by {
                if p < s.len() {
                    assert(s[s.len() - 1].key.chain_length < n);
                }
            }
        } else {
            let t = s.drop_last();
            assert(p < s.len()) by {
                if p == s.len() {
                    assert(s[s.len() - 1].key.chain_length >= n);
                }
            }
            assert forall|i: int, j: int| 0 <= i <= j < t.len() implies (
            #[trigger] t[i]).key.chain_length >= (#[trigger] t[j]).key.chain_length by {
                assert(t[i] == s[i] && t[j] == s[j]);
            }
            assert forall|i: int| 0 <= i < p implies (#[trigger] t[i]).key.chain_length >= n by {
                assert(t[i] == s[i]);
            }
            assert forall|i: int| p <= i < t.len() implies (#[trigger] t[i]).key.chain_length < n by {
                assert(t[i] == s[i]);
            }
            lemma_position(t, n, p);
        }
    }
}

/// The entries of one epoch are entries of the registry, all of that epoch,
/// and none of that epoch is left out.
pub proof fn lemma_of_epoch_members<D>(s: Seq<LeadershipEntry<D>>, epoch: Epoch)
    ensures
        of_epoch(s, epoch).len() <= s.len(),
        forall|i: int|
            0 <= i < of_epoch(s, epoch).len() ==> (#[trigger] of_epoch(s, epoch)[i]).key.epoch
                == epoch && s.contains(of_epoch(s, epoch)[i]),
        forall|j: int|
            0 <= j < s.len() && (#[trigger] s[j]).key.epoch == epoch ==> of_epoch(s, epoch).contains(
                s[j],
            ),
    decreases s.len(),
{
    if s.len() > 0 {
        let t = s.drop_last();
        let r = of_epoch(s, epoch);
        let rt = of_epoch(t, epoch);
        lemma_of_epoch_members(t, epoch);
        assert forall|i: int| 0 <= i < r.len() implies (#[trigger] r[i]).key.epoch == epoch
            && s.contains(r[i]) by {
            if i < rt.len() {
                assert(r[i] == rt[i]);
                assert(t.contains(rt[i]));
                let k = choose|k: int| 0 <= k < t.len() && t[k] == rt[i];
                assert(s[k] == r[i]);
            } else {
                assert(r[i] == s[s.len() - 1]);
            }
        }
        assert forall|j: int| 0 <= j < s.len() && (#[trigger] s[j]).key.epoch == epoch implies r.contains(
            s[j],
        ) by {
            if j < t.len() {
                assert(t[j] == s[j]);
                assert(rt.contains(t[j]));
                let k = choose|k: int| 0 <= k < rt.len() && rt[k] == t[j];
                assert(r[k] == s[j]);
            } else {
                assert(r[r.len() - 1] == s[j]);
            }
        }
    }
}

/// Picking one epoch out of a descending registry leaves a descending sequence.
pub proof fn lemma_of_epoch_descending<D>(s: Seq<LeadershipEntry<D>>, epoch: Epoch)
    requires
        descending(s),
    ensures
        descending(of_epoch(s, epoch)),
    decreases s.len(),
{
    if s.len() > 0 {
        let t = s.drop_last();
        let r = of_epoch(s, epoch);
        let rt = of_epoch(t, epoch);
        assert forall|i: int, j: int| 0 <= i <= j < t.len() implies (
        #[trigger] t[i]).key.chain_length >= (#[trigger] t[j]).key.chain_length by {
            assert(t[i] == s[i] && t[j] == s[j]);
        }
        lemma_of_epoch_descending(t, epoch);
        lemma_of_epoch_members(t, epoch);
        assert forall|i: int, j: int| 0 <= i <= j < r.len() implies (
        #[trigger] r[i]).key.chain_length >= (#[trigger] r[j]).key.chain_length by {
            if j < rt.len() {
                assert(r[i] == rt[i] && r[j] == rt[j]);
            } else if i < rt.len() {
                assert(r[i] == rt[i]);
                assert(t.contains(rt[i]));
                let k = choose|k: int| 0 <= k < t.len() && t[k] == rt[i];
                assert(s[k] == r[i]);
                assert(r[j] == s[s.len() - 1]);
            }
        }
    }
}

/// The entries after one more handle was given out under `key`: the entry
/// under `key` has gained a handle, or, where there was none, one for
/// `leadership` stands behind the entries of chains at least as long.
pub open spec fn with_handle<D>(s: Seq<LeadershipEntry<D>>, key: LeadershipKey, leadership: D) -> Seq<
    LeadershipEntry<D>,
> {
    let i = key_index(s, key);
    if i < s.len() {
        s.update(
            i,
            LeadershipEntry { key, leadership: s[i].leadership, roots: (s[i].roots + 1) as u64 },
        )
    } else {
        s.insert(position(s, key.chain_length), LeadershipEntry { key, leadership, roots: 1 })
    }
}

/// The entries after a handle under `key` was given back.
pub open spec fn without_handle<D>(s: Seq<LeadershipEntry<D>>, key: LeadershipKey) -> Seq<
    LeadershipEntry<D>,
> {
    let i = key_index(s, key);
    if i < s.len() && s[i].roots > 0 {
        s.update(
            i,
            LeadershipEntry { key, leadership: s[i].leadership, roots: (s[i].roots - 1) as u64 },
        )
    } else {
        s
    }
}

/// The entries after `leadership` was filed under `key` and the handle given
/// back at once: nothing changes where the key was known, and a new entry
/// stands unpinned where it was not.
pub open spec fn noted<D>(s: Seq<LeadershipEntry<D>>, key: LeadershipKey, leadership: D) -> Seq<
    LeadershipEntry<D>,
> {
    if key_index(s, key) < s.len() {
        s
    } else {
        s.insert(position(s, key.chain_length), LeadershipEntry { key, leadership, roots: 0 })
    }
}

/// Giving a handle out and taking it back leaves the entries as `noted` says.
pub proof fn lemma_noted<D>(s: Seq<LeadershipEntry<D>>, key: LeadershipKey, leadership: D)
    requires
        distinct_keys(s),
        key_index(s, key) < s.len() ==> s[key_index(s, key)].roots < u64::MAX,
    ensures
        without_handle(with_handle(s, key, leadership), key) == noted(s, key, leadership),
{
    lemma_key_index(s, key);
    let i = key_index(s, key);
    let a = with_handle(s, key, leadership);
    lemma_key_index(a, key);
    let j = key_index(a, key);
    if i < s.len() {
        assert(a[i].key == key);
        assert(j == i) by {
            if j < i {
                assert(a[j] == s[j]);
            }
        }
        assert(without_handle(a, key) =~= s);
    } else {
        let p = position(s, key.chain_length);
        lemma_position_bound(s, key.chain_length);
        assert(a[p].key == key);
        assert(j == p) by {
            if j < p {
                assert(a[j] == s[j]);
            }
        }
        assert(without_handle(a, key) =~= noted(s, key, leadership));
    }
}

/// Noting a schedule pins nothing: where no entry had more than one handle
/// before, none has after.
pub proof fn lemma_noted_roots<D>(s: Seq<LeadershipEntry<D>>, key: LeadershipKey, leadership: D)
    requires
        forall|j: int| 0 <= j < s.len() ==> (#[trigger] s[j]).roots <= 1,
    ensures
        forall|j: int|
            0 <= j < noted(s, key, leadership).len() ==> (#[trigger] noted(
                s,
                key,
                leadership,
            )[j]).roots <= 1,
{
    lemma_position_bound(s, key.chain_length);
    let p = position(s, key.chain_length);
    let after = noted(s, key, leadership);
    assert forall|j: int| 0 <= j < after.len() implies (#[trigger] after[j]).roots <= 1 by {
        if key_index(s, key) >= s.len() {
            if j < p {
                assert(after[j] == s[j]);
            } else if j > p {
                assert(after[j] == s[j - 1]);
            }
        }
    }
}

/// The position for an entry lies within the sequence or at its end.
pub proof fn lemma_position_bound<D>(s: Seq<LeadershipEntry<D>>, n: ChainLength)
    ensures
        0 <= position(s, n) <= s.len(),
    decreases s.len(),
{
    if s.len() > 0 && s.last().key.chain_length < n {
        lemma_position_bound(s.drop_last(), n);
    }
}

impl<D> View for Leaderships<D> {
    type V = Seq<LeadershipEntry<D>>;

    closed spec fn view(&self) -> Seq<LeadershipEntry<D>> {
        self.entries@
    }
}

impl<D> Leaderships<D> {
    pub open spec fn wf(&self) -> bool {
        descending(self@) && distinct_keys(self@)
    }

    /// Whether a schedule is filed under `key`.
    pub open spec fn has(&self, key: LeadershipKey) -> bool {
        key_index(self@, key) < self@.len()
    }

    /// The registry after one more handle was given out under `key`, for
    /// `leadership` where the key is new.
    pub open spec fn added(&self, key: LeadershipKey, leadership: D) -> Seq<LeadershipEntry<D>> {
        with_handle(self@, key, leadership)
    }

    /// The registry after a handle under `key` was given back.
    pub open spec fn released(&self, key: LeadershipKey) -> Seq<LeadershipEntry<D>> {
        without_handle(self@, key)
    }

    /// A registry that holds the schedule of the first epoch, filed under
    /// the genesis header.
    pub fn new(header: &Header, initial: D) -> (l: Leaderships<D>)
        ensures
            l.wf(),
            l@ == seq![
                LeadershipEntry {
                    key: LeadershipKey {
                        epoch: header.date.epoch,
                        chain_length: header.chain_length,
                        anchor: header.hash,
                    },
                    leadership: initial,
                    roots: 1,
                },
            ],
    {
        let mut entries: Vec<LeadershipEntry<D>> = Vec::new();
        entries.push(
            LeadershipEntry {
                key: LeadershipKey {
                    epoch: header.date.epoch,
                    chain_length: header.chain_length,
                    anchor: header.hash,
                },
                leadership: initial,
                roots: 1,
            },
        );
        let l = Leaderships { entries };
        assert(l@ =~= seq![
            LeadershipEntry {
                key: LeadershipKey {
                    epoch: header.date.epoch,
                    chain_length: header.chain_length,
                    anchor: header.hash,
                },
                leadership: initial,
                roots: 1,
            },
        ]);
        l
    }

    fn find(&self, key: &LeadershipKey) -> (i: usize)
        ensures
            i == key_index(self@, *key),
            i <= self@.len(),
    {
        let mut i: usize = 0;
        proof {
            lemma_key_index(self@, *key);
        }
        while i < self.entries.len()
            invariant
                i <= self.entries@.len(),
                i <= key_index(self@, *key) <= self@.len(),
                key_index(self@, *key) < self@.len() ==> self@[key_index(self@, *key)].key == *key,
                forall|j: int| 0 <= j < key_index(self@, *key) ==> (#[trigger] self@[j]).key != *key,
            decreases self.entries@.len() - i,
        {
            if self.entries[i].key == *key {
                assert(i >= key_index(self@, *key)) by {
                    if i < key_index(self@, *key) {
                        assert(self@[i as int].key != *key);
                    }
                }
                return i;
            }
            assert(i != key_index(self@, *key));
            i += 1;
        }
        i
    }

    /// Files `leadership` under its key, behind the schedules of chains at
    /// least as long, and hands out a handle on it. Where a schedule is
    /// already filed under the key, that schedule stays and only gains a handle.
    pub fn add(
        &mut self,
        epoch: Epoch,
        chain_length: ChainLength,
        anchor: HeaderHash,
        leadership: D,
    ) -> (root: LeadershipRoot)
        requires
            old(self).wf(),
            old(self).has(LeadershipKey { epoch, chain_length, anchor }) ==> old(self)@[key_index(
                old(self)@,
                LeadershipKey { epoch, chain_length, anchor },
            )].roots < u64::MAX,
        ensures
            final(self).wf(),
            final(self)@ == old(self).added(LeadershipKey { epoch, chain_length, anchor }, leadership),
            root.spec_key() == (LeadershipKey { epoch, chain_length, anchor }),
    {
        let key = LeadershipKey { epoch, chain_length, anchor };
        let i = self.find(&key);
        proof {
            lemma_key_index(self@, key);
        }
        if i < self.entries.len() {
            let entry = self.entries.remove(i);
            self.entries.insert(
                i,
                LeadershipEntry { key, leadership: entry.leadership, roots: entry.roots + 1 },
            );
            assert(self@ =~= old(self).added(key, leadership));
        } else {
            let mut p: usize = 0;
            while p < self.entries.len() && self.entries[p].key.chain_length >= chain_length
                invariant
                    p <= self.entries@.len(),
                    self@ == old(self)@,
                    forall|j: int| 0 <= j < p ==> (#[trigger] self@[j]).key.chain_length >= chain_length,
                decreases self.entries@.len() - p,
            {
                p += 1;
            }
            proof {
                assert forall|j: int| p <= j < self@.len() implies (
                #[trigger] self@[j]).key.chain_length < chain_length by {
                    assert(self@[p as int].key.chain_length >= self@[j].key.chain_length);
                }
                lemma_position(self@, chain_length, p as int);
            }
            self.entries.insert(p, LeadershipEntry { key, leadership, roots: 1 });
            proof {
                let before = old(self)@;
                let after = self@;
                assert forall|a: int| 0 <= a < after.len() implies #[trigger] after[a] == (if a < p {
                    before[a]
                } else if a == p {
                    LeadershipEntry { key, leadership, roots: 1 }
                } else {
                    before[a - 1]
                }) by {}
                assert(descending(after)) by {
                    assert forall|a: int, b: int| 0 <= a <= b < after.len() implies (
                    #[trigger] after[a]).key.chain_length >= (#[trigger] after[b]).key.chain_length by {
                        let a0 = if a < p { a } else { a - 1 };
                        let b0 = if b < p { b } else { b - 1 };
                        if a != p && b != p {
                            assert(before[a0].key.chain_length >= before[b0].key.chain_length);
                        } else if a == p && b != p {
                            assert(before[b0].key.chain_length < chain_length);
                        } else if b == p && a != p {
                            assert(before[a0].key.chain_length >= chain_length);
                        }
                    }
                }
                assert(distinct_keys(after)) by {
                    assert forall|a: int, b: int|
                        0 <= a < after.len() && 0 <= b < after.len() && (#[trigger] after[a]).key == (
                        #[trigger] after[b]).key implies a == b by {
                        let a0 = if a < p { a } else { a - 1 };
                        let b0 = if b < p { b } else { b - 1 };
                        if a != p && b != p {
                            assert(before[a0].key == before[b0].key);
                        } else if a == p && b != p {
                            assert(before[b0].key != key);
                        } else if b == p && a != p {
                            assert(before[a0].key != key);
                        }
                    }
                }
            }
        }
        LeadershipRoot { key }
    }

    /// The number of handles that pin the schedule under `key`, if there is one.
    pub fn root_count(&self, key: &LeadershipKey) -> (r: Option<u64>)
        ensures
            match r {
                Some(n) => self.has(*key) && n == self@[key_index(self@, *key)].roots,
                None => !self.has(*key),
            },
    {
        let i = self.find(key);
        if i < self.entries.len() {
            Some(self.entries[i].roots)
        } else {
            None
        }
    }

    /// Gives a handle back.
    pub fn release(&mut self, root: LeadershipRoot)
        requires
            old(self).wf(),
        ensures
            final(self).wf(),
            final(self)@ == old(self).released(root.spec_key()),
    {
        let key = root.key;
        let i = self.find(&key);
        proof {
            lemma_key_index(self@, key);
        }
        if i < self.entries.len() {
            if self.entries[i].roots > 0 {
                let entry = self.entries.remove(i);
                self.entries.insert(
                    i,
                    LeadershipEntry { key, leadership: entry.leadership, roots: entry.roots - 1 },
                );
                assert(self@ =~= old(self).released(key));
            }
        }
    }

    /// The schedules of one epoch with their keys, the one of the longest
    /// chain first.
    pub fn get(&self, epoch: Epoch) -> (found: Vec<(LeadershipKey, &D)>)
        requires
            self.wf(),
        ensures
            found@.len() == of_epoch(self@, epoch).len(),
            forall|i: int|
                0 <= i < found@.len() ==> (#[trigger] found@[i]).0 == of_epoch(self@, epoch)[i].key
                    && *found@[i].1 == of_epoch(self@, epoch)[i].leadership,
            forall|i: int| 0 <= i < found@.len() ==> (#[trigger] found@[i]).0.epoch == epoch,
            forall|i: int, j: int|
                0 <= i <= j < found@.len() ==> (#[trigger] found@[i]).0.chain_length >= (
                #[trigger] found@[j]).0.chain_length,
    {
        proof {
            lemma_of_epoch_members(self@, epoch);
            lemma_of_epoch_descending(self@, epoch);
        }
        let mut found: Vec<(LeadershipKey, &D)> = Vec::new();
        let mut i: usize = 0;
        assert(self@.take(0) =~= Seq::<LeadershipEntry<D>>::empty());
        while i < self.entries.len()
            invariant
                i <= self.entries@.len(),
                found@.len() == of_epoch(self@.take(i as int), epoch).len(),
                forall|j: int|
                    0 <= j < found@.len() ==> (#[trigger] found@[j]).0 == of_epoch(
                        self@.take(i as int),
                        epoch,
                    )[j].key && *found@[j].1 == of_epoch(self@.take(i as int), epoch)[j].leadership,
            decreases self.entries@.len() - i,
        {
            proof {
                assert(self@.take(i + 1).drop_last() =~= self@.take(i as int));
                assert(self@.take(i + 1).last() == self@[i as int]);
            }
            if self.entries[i].key.epoch == epoch {
                found.push((self.entries[i].key, &self.entries[i].leadership));
            }
            i += 1;
        }
        assert(self@.take(i as int) =~= self@);
        found
    }

    /// The schedule of an epoch on the longest chain that entered it.
    pub fn first(&self, epoch: Epoch) -> (r: Option<(LeadershipKey, &D)>)
        requires
            self.wf(),
        ensures
            match r {
                Some((key, leadership)) => of_epoch(self@, epoch).len() > 0 && key == of_epoch(
                    self@,
                    epoch,
                )[0].key && *leadership == of_epoch(self@, epoch)[0].leadership,
                None => of_epoch(self@, epoch).len() == 0,
            },
    {
        let mut i: usize = 0;
        assert(self@.take(0) =~= Seq::<LeadershipEntry<D>>::empty());
        while i < self.entries.len()
            invariant
                i <= self.entries@.len(),
                of_epoch(self@.take(i as int), epoch).len() == 0,
            decreases self.entries@.len() - i,
        {
            proof {
                assert(self@.take(i + 1).drop_last() =~= self@.take(i as int));
                assert(self@.take(i + 1).last() == self@[i as int]);
            }
            if self.entries[i].key.epoch == epoch {
                proof {
                    lemma_of_epoch_prefix(self@, epoch, i + 1);
                }
                return Some((self.entries[i].key, &self.entries[i].leadership));
            }
            i += 1;
        }
        assert(self@.take(i as int) =~= self@);
        None
    }
}

/// What one epoch has among the first `n` entries is the start of what it has in all.
pub proof fn lemma_of_epoch_prefix<D>(s: Seq<LeadershipEntry<D>>, epoch: Epoch, n: int)
    requires
        0 <= n <= s.len(),
    ensures
        of_epoch(s.take(n), epoch).len() <= of_epoch(s, epoch).len(),
        forall|i: int|
            0 <= i < of_epoch(s.take(n), epoch).len() ==> #[trigger] of_epoch(s, epoch)[i] == of_epoch(
                s.take(n),
                epoch,
            )[i],
    decreases s.len() - n,
{
    if n < s.len() {
        lemma_of_epoch_prefix(s, epoch, n + 1);
        assert(s.take(n + 1).drop_last() =~= s.take(n));
    } else {
        assert(s.take(n) =~= s);
    }
}

} // verus!
