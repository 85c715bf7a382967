//! Bringing the chain up at startup: from its first block where the archive
//! holds no tip yet, and else by replaying the archive up to the tagged tip.

use crate::block::Block;
use crate::block::Epoch;
use crate::block::Header;
use crate::chain::tip_tag;
use crate::chain::LOCAL_BLOCKCHAIN_TIP_TAG;
use crate::chain::Block0Error;
use crate::chain::Block0Settings;
use crate::chain::Blockchain;
use crate::chain::LoadError;
use crate::chain::LedgerError;
use crate::hash::HeaderHash;
use crate::leadership::lemma_key_index;
use crate::leadership::lemma_noted;
use crate::leadership::lemma_noted_roots;
use crate::leadership::key_index;
use crate::leadership::noted;
use crate::leadership::position;
use crate::leadership::lemma_position_bound;
use crate::leadership::LeadershipEntry;
use crate::leadership::LeadershipKey;
use crate::leadership::Leaderships;
use crate::multiverse::pinned;
use crate::multiverse::retained;
use crate::multiverse::Entry;
use crate::multiverse::GCRoot;
use crate::multiverse::Multiverse;
use crate::orphans::OrphanBuffer;
use crate::storage::BlockStore;
use crate::storage::StorageError;
use crate::storage::StoreView;
use crate::time::TimeFrame;
use crate::tip::Branch;
use crate::tip::Tip;
use vstd::prelude::*;

verus! {

/// The clock that the settings of the first block describe, or why they
/// describe none.
pub open spec fn clock_of(settings: Block0Settings) -> Result<TimeFrame, Block0Error> {
    match settings.start_time {
        None => Err(Block0Error::NoStartTime),
        Some(start) => match settings.slot_duration {
            None => Err(Block0Error::NoSlotDuration),
            Some(slot_duration) => if slot_duration == 0 {
                Err(Block0Error::InvalidSlotDuration)
            } else {
                Ok(TimeFrame { start, slot_duration })
            },
        },
    }
}

/// Reads the clock of the chain off the settings of its first block.
pub fn clock(settings: &Block0Settings) -> (r: Result<TimeFrame, Block0Error>)
    ensures
        r == clock_of(*settings),
        r matches Ok(t) ==> t.wf(),
{
    let start = match settings.start_time {
        Some(start) => start,
        None => {
            return Err(Block0Error::NoStartTime);
        },
    };
    let slot_duration = match settings.slot_duration {
        Some(slot_duration) => slot_duration,
        None => {
            return Err(Block0Error::NoSlotDuration);
        },
    };
    if slot_duration == 0 {
        return Err(Block0Error::InvalidSlotDuration);
    }
    Ok(TimeFrame::new(start, slot_duration))
}

impl StoreView {
    /// `h` is the block `to` or lies above it on its chain.
    pub open spec fn on_chain(self, to: HeaderHash, h: HeaderHash) -> bool {
        &&& self.contains(h)
        &&& self.depth(h) <= self.depth(to)
        &&& self.ancestor(to, (self.depth(to) - self.depth(h)) as nat) == Some(h)
    }

    /// `h` lies on the chain from `from` down to `to`, both ends included.
    pub open spec fn between(self, from: HeaderHash, to: HeaderHash, h: HeaderHash) -> bool {
        self.on_chain(to, h) && self.depth(from) <= self.depth(h)
    }
}

/// The key under which the schedule of the first epoch is filed.
pub open spec fn first_key(header: Header) -> LeadershipKey {
    LeadershipKey { epoch: header.date.epoch, chain_length: header.chain_length, anchor: header.hash }
}

/// The key under which the schedule is filed that a block needs where it
/// enters a later epoch than its parent.
pub open spec fn crossing_key(header: Header) -> LeadershipKey {
    LeadershipKey {
        epoch: header.date.epoch,
        chain_length: header.chain_length,
        anchor: header.parent_hash,
    }
}

/// Under `key` stands a schedule that was built for its epoch from `state`.
pub open spec fn holds_schedule<L, D, B: Fn(Epoch, &L) -> D>(
    entries: Seq<LeadershipEntry<D>>,
    key: LeadershipKey,
    state: L,
    build: &B,
) -> bool {
    exists|i: int|
        0 <= i < entries.len() && (#[trigger] entries[i]).key == key && call_ensures(
            *build,
            (key.epoch, &state),
            entries[i].leadership,
        )
}

/// `key` is that of a block with a state among `states` other than `block_0`.
pub open spec fn known_crossing<L>(
    store: StoreView,
    states: Map<HeaderHash, Entry<L>>,
    block_0: HeaderHash,
    key: LeadershipKey,
) -> bool {
    exists|h: HeaderHash|
        states.dom().contains(h) && h != block_0 && #[trigger] crossing_key(store.block(h).header)
            == key
}

/// The registry holds the schedule of the first epoch, built from the
/// state of `block_0`; for every other block with a state that enters a
/// later epoch than its parent, a schedule built from the state of that
/// parent; and nothing under any other key.
pub open spec fn schedules_replayed<L, D, B: Fn(Epoch, &L) -> D>(
    store: StoreView,
    states: Map<HeaderHash, Entry<L>>,
    entries: Seq<LeadershipEntry<D>>,
    block_0: HeaderHash,
    build: &B,
) -> bool {
    &&& holds_schedule(
        entries,
        first_key(store.block(block_0).header),
        states[block_0].state,
        build,
    )
    &&& forall|h: HeaderHash| #[trigger]
        states.dom().contains(h) && h != block_0 && store.block(h).header.date.epoch > store.block(
            store.parent(h),
        ).header.date.epoch ==> holds_schedule(
            entries,
            crossing_key(store.block(h).header),
            states[store.parent(h)].state,
            build,
        )
    &&& forall|i: int|
        0 <= i < entries.len() ==> (#[trigger] entries[i]).key == first_key(
            store.block(block_0).header,
        ) || known_crossing(store, states, block_0, entries[i].key)
}

/// Every state of `states` but that of `block_0` came of applying its block
/// to the state of its parent, which is among them, and that of `block_0`
/// came of the first block alone.
pub open spec fn states_replayed<
    L,
    G: Fn(&Block) -> Result<L, LedgerError>,
    A: Fn(&L, &Block) -> Result<L, LedgerError>,
>(
    store: StoreView,
    states: Map<HeaderHash, Entry<L>>,
    block_0: HeaderHash,
    genesis: &G,
    apply: &A,
) -> bool {
    &&& states.dom().contains(block_0)
    &&& call_ensures(*genesis, (&store.block(block_0),), Ok(states[block_0].state))
    &&& forall|h: HeaderHash| #[trigger]
        states.dom().contains(h) && h != block_0 ==> {
            &&& states.dom().contains(store.parent(h))
            &&& call_ensures(
                *apply,
                (&states[store.parent(h)].state, &store.block(h)),
                Ok(states[h].state),
            )
        }
}

impl<L: Clone, D> Blockchain<L, D> {
    /// The live states are those of a replay from `block_0`.
    pub open spec fn replayed<
        G: Fn(&Block) -> Result<L, LedgerError>,
        A: Fn(&L, &Block) -> Result<L, LedgerError>,
    >(&self, block_0: HeaderHash, genesis: &G, apply: &A) -> bool {
        states_replayed(self.storage@, self.multiverse@, block_0, genesis, apply)
    }

    /// What restoring the chain from the archive `store`, whose tag names
    /// a tip, comes to. It fails where `block_0` or the tip is missing or
    /// the tip does not descend from `block_0`, and else where the ledger
    /// refuses a block of the chain between the two. Where it succeeds the
    /// archive is as it was, the tip is the tagged block, the live states
    /// are those of the blocks from `block_0` to the tip, each got by
    /// applying its block to the state before it, and the registry holds
    /// the schedules of the epochs that this chain has entered.
    pub open spec fn restored<
        G: Fn(&Block) -> Result<L, LedgerError>,
        A: Fn(&L, &Block) -> Result<L, LedgerError>,
        B: Fn(Epoch, &L) -> D,
    >(
        block_0: HeaderHash,
        store: StoreView,
        time_frame: TimeFrame,
        genesis: &G,
        apply: &A,
        build: &B,
        r: Result<Blockchain<L, D>, LoadError>,
    ) -> bool {
        let tip = store.tags[tip_tag()];
        match r {
            Ok(chain) => {
                &&& chain.wf()
                &&& chain.storage@ == store
                &&& chain.tip_hash() == tip
                &&& chain.time_frame == time_frame
                &&& chain.unconnected_blocks@ == Map::<HeaderHash, Map<HeaderHash, Block>>::empty()
                &&& store.range_error(block_0, tip) is None
                &&& forall|h: HeaderHash| #[trigger]
                    chain.multiverse.contains(h) <==> store.between(block_0, tip, h)
                &&& chain.replayed(block_0, genesis, apply)
                &&& schedules_replayed(
                    store,
                    chain.multiverse@,
                    chain.leaderships@,
                    block_0,
                    build,
                )
            },
            Err(LoadError::Storage { source }) => store.range_error(block_0, tip) == Some(source),
            Err(LoadError::Ledger { source }) => {
                &&& store.range_error(block_0, tip) is None
                &&& (call_ensures(*genesis, (&store.block(block_0),), Err(source)) || exists|
                    h: HeaderHash,
                    s: L,
                |
                    store.between(block_0, tip, h) && #[trigger] call_ensures(
                        *apply,
                        (&s, &store.block(h)),
                        Err(source),
                    ))
            },
            Err(LoadError::Block0 { source }) => false,
        }
    }
}

/// Where a replay stands when it has reached the block `cur`: the states
/// made so far are those of the blocks from `block_0` to `cur`, `cur` alone
/// is pinned, and each state came of the state before it.
pub open spec fn replaying<
    L,
    G: Fn(&Block) -> Result<L, LedgerError>,
    A: Fn(&L, &Block) -> Result<L, LedgerError>,
>(
    store: StoreView,
    states: Map<HeaderHash, Entry<L>>,
    block_0: HeaderHash,
    tip: HeaderHash,
    cur: HeaderHash,
    genesis: &G,
    apply: &A,
) -> bool {
    &&& store.linked()
    &&& store.range_error(block_0, tip) is None
    &&& store.between(block_0, tip, cur)
    &&& forall|h: HeaderHash| #[trigger]
        states.dom().contains(h) <==> store.between(block_0, tip, h) && store.depth(h)
            <= store.depth(cur)
    &&& forall|h: HeaderHash| #[trigger]
        states.dom().contains(h) ==> states[h].roots == if h == cur {
            1u64
        } else {
            0u64
        }
    &&& states_replayed(store, states, block_0, genesis, apply)
}

/// On the chain above `to`, the block one level below `cur` has `cur` as its parent.
pub proof fn lemma_next_on_chain(store: StoreView, to: HeaderHash, cur: HeaderHash, next: HeaderHash)
    requires
        store.linked(),
        store.on_chain(to, cur),
        store.on_chain(to, next),
        store.depth(next) == store.depth(cur) + 1,
    ensures
        store.parent(next) == cur,
{
    let k = (store.depth(to) - store.depth(next)) as nat;
    store.lemma_link(next);
    store.lemma_ancestor_add(to, k, 1);
    assert(store.ancestor(next, 1) == store.ancestor(store.parent(next), 0));
}

/// The replay moves on from `cur` to the block `next` below it by letting
/// go of the state of `cur` and pinning the state `state` of `next`.
pub proof fn lemma_replay_step<
    L,
    G: Fn(&Block) -> Result<L, LedgerError>,
    A: Fn(&L, &Block) -> Result<L, LedgerError>,
>(
    store: StoreView,
    states: Map<HeaderHash, Entry<L>>,
    block_0: HeaderHash,
    tip: HeaderHash,
    cur: HeaderHash,
    next: HeaderHash,
    state: L,
    genesis: &G,
    apply: &A,
)
    requires
        replaying(store, states, block_0, tip, cur, genesis, apply),
        store.on_chain(tip, next),
        store.depth(next) == store.depth(cur) + 1,
        call_ensures(*apply, (&states[cur].state, &store.block(next)), Ok(state)),
    ensures
        !states.dom().contains(next),
        states.dom().contains(cur),
        replaying(
            store,
            states.insert(cur, Entry { state: states[cur].state, roots: 0 }).insert(
                next,
                Entry { state, roots: 1 },
            ),
            block_0,
            tip,
            next,
            genesis,
            apply,
        ),
{
    let after = states.insert(cur, Entry { state: states[cur].state, roots: 0 }).insert(
        next,
        Entry { state, roots: 1 },
    );
    lemma_next_on_chain(store, tip, cur, next);
    assert(states.dom().contains(cur));
    assert(states.dom().contains(block_0));
    assert(store.between(block_0, tip, block_0));
    assert(next != block_0);
    assert forall|h: HeaderHash| #[trigger]
        after.dom().contains(h) <==> store.between(block_0, tip, h) && store.depth(h)
            <= store.depth(next) by {
        if h != next {
            assert(after.dom().contains(h) <==> states.dom().contains(h));
        }
    }
    assert forall|h: HeaderHash| #[trigger] after.dom().contains(h) && h != block_0 implies {
        &&& after.dom().contains(store.parent(h))
        &&& call_ensures(
            *apply,
            (&after[store.parent(h)].state, &store.block(h)),
            Ok(after[h].state),
        )
    } by {
        if h != next {
            assert(states.dom().contains(h));
            assert(states.dom().contains(store.parent(h)));
            assert(store.parent(h) != next);
        }
    }
}

/// The key of the block below `cur` on the chain is that of no schedule yet.
pub proof fn lemma_key_is_new<L, D>(
    store: StoreView,
    states: Map<HeaderHash, Entry<L>>,
    entries: Seq<LeadershipEntry<D>>,
    block_0: HeaderHash,
    tip: HeaderHash,
    cur: HeaderHash,
    next: HeaderHash,
)
    requires
        store.linked(),
        store.between(block_0, tip, cur),
        store.on_chain(tip, next),
        store.depth(next) == store.depth(cur) + 1,
        forall|h: HeaderHash| #[trigger]
            states.dom().contains(h) ==> store.between(block_0, tip, h) && store.depth(h)
                <= store.depth(cur),
        forall|i: int|
            0 <= i < entries.len() ==> (#[trigger] entries[i]).key == first_key(
                store.block(block_0).header,
            ) || known_crossing(store, states, block_0, entries[i].key),
    ensures
        key_index(entries, crossing_key(store.block(next).header)) == entries.len(),
{
    let key = crossing_key(store.block(next).header);
    lemma_key_index(entries, key);
    let i = key_index(entries, key);
    if i < entries.len() {
        assert(entries[i].key == key);
        if entries[i].key != first_key(store.block(block_0).header) {
            let h = choose|h: HeaderHash|
                states.dom().contains(h) && h != block_0 && #[trigger] crossing_key(
                    store.block(h).header,
                ) == key;
            assert(store.depth(h) == store.depth(next));
        }
    }
}

/// Where the replay moves on from `cur` to `next`, and a schedule is noted
/// exactly where `next` enters a later epoch, the registry keeps holding the
/// schedules of the chain replayed so far.
pub proof fn lemma_schedules_step<
    L,
    D,
    G: Fn(&Block) -> Result<L, LedgerError>,
    A: Fn(&L, &Block) -> Result<L, LedgerError>,
    B: Fn(Epoch, &L) -> D,
>(
    store: StoreView,
    states: Map<HeaderHash, Entry<L>>,
    entries: Seq<LeadershipEntry<D>>,
    block_0: HeaderHash,
    tip: HeaderHash,
    cur: HeaderHash,
    next: HeaderHash,
    state: L,
    schedule: Option<D>,
    genesis: &G,
    apply: &A,
    build: &B,
)
    requires
        replaying(store, states, block_0, tip, cur, genesis, apply),
        schedules_replayed(store, states, entries, block_0, build),
        store.on_chain(tip, next),
        store.depth(next) == store.depth(cur) + 1,
        match schedule {
            Some(d) => store.block(next).header.date.epoch > store.block(cur).header.date.epoch
                && call_ensures(*build, (store.block(next).header.date.epoch, &states[cur].state), d),
            None => store.block(next).header.date.epoch <= store.block(cur).header.date.epoch,
        },
    ensures
        schedules_replayed(
            store,
            states.insert(cur, Entry { state: states[cur].state, roots: 0 }).insert(
                next,
                Entry { state, roots: 1 },
            ),
            match schedule {
                Some(d) => noted(entries, crossing_key(store.block(next).header), d),
                None => entries,
            },
            block_0,
            build,
        ),
{
    let after = states.insert(cur, Entry { state: states[cur].state, roots: 0 }).insert(
        next,
        Entry { state, roots: 1 },
    );
    let key = crossing_key(store.block(next).header);
    let registry = match schedule {
        Some(d) => noted(entries, key, d),
        None => entries,
    };
    lemma_next_on_chain(store, tip, cur, next);
    assert(states.dom().contains(cur));
    assert(states.dom().contains(block_0));
    assert(store.between(block_0, tip, block_0));
    assert(next != block_0);
    assert(!states.dom().contains(next));
    lemma_key_is_new(store, states, entries, block_0, tip, cur, next);
    lemma_position_bound(entries, key.chain_length);
    let p = position(entries, key.chain_length);
    // Every entry of before is an entry of after.
    assert forall|k: LeadershipKey, s: L| holds_schedule(entries, k, s, build) implies holds_schedule(
        registry,
        k,
        s,
        build,
    ) by {
        let i = choose|i: int|
            0 <= i < entries.len() && (#[trigger] entries[i]).key == k && call_ensures(
                *build,
                (k.epoch, &s),
                entries[i].leadership,
            );
        if schedule is Some {
            let j = if i < p {
                i
            } else {
                i + 1
            };
            assert(registry[j] == entries[i]);
        } else {
            assert(registry[i] == entries[i]);
        }
    }
    assert forall|h: HeaderHash| #[trigger]
        after.dom().contains(h) && h != block_0 && store.block(h).header.date.epoch > store.block(
            store.parent(h),
        ).header.date.epoch implies holds_schedule(
        registry,
        crossing_key(store.block(h).header),
        after[store.parent(h)].state,
        build,
    ) by {
        if h != next {
            assert(states.dom().contains(h));
            assert(states.dom().contains(store.parent(h)));
            assert(store.parent(h) != next);
            assert(holds_schedule(
                entries,
                crossing_key(store.block(h).header),
                states[store.parent(h)].state,
                build,
            ));
        } else {
            assert(registry[p].key == key);
        }
    }
    assert forall|i: int| 0 <= i < registry.len() implies (#[trigger] registry[i]).key == first_key(
        store.block(block_0).header,
    ) || known_crossing(store, after, block_0, registry[i].key) by {
        let old_index = if schedule is Some {
            if i < p {
                i
            } else {
                i - 1
            }
        } else {
            i
        };
        if schedule is Some && i == p {
            assert(after.dom().contains(next) && crossing_key(store.block(next).header)
                == registry[i].key);
        } else {
            assert(registry[i] == entries[old_index]);
            if entries[old_index].key != first_key(store.block(block_0).header) {
                let h = choose|h: HeaderHash|
                    states.dom().contains(h) && h != block_0 && #[trigger] crossing_key(
                        store.block(h).header,
                    ) == entries[old_index].key;
                assert(after.dom().contains(h) && crossing_key(store.block(h).header)
                    == registry[i].key);
            }
        }
    }
}

/// One step of the replay: the block `next`, the child of the block that
/// `root` pins, is applied to the state of that block, a schedule is noted
/// where it enters a later epoch, and its state is pinned in place of its
/// parent's.
fn replay_step<
    L: Clone,
    D,
    G: Fn(&Block) -> Result<L, LedgerError>,
    A: Fn(&L, &Block) -> Result<L, LedgerError>,
    B: Fn(Epoch, &L) -> D,
>(
    storage: &BlockStore,
    multiverse: &mut Multiverse<L>,
    leaderships: &mut Leaderships<D>,
    root: GCRoot,
    next: HeaderHash,
    block_0: Ghost<HeaderHash>,
    tip: Ghost<HeaderHash>,
    genesis: &G,
    apply: &A,
    build: &B,
) -> (r: Result<GCRoot, LoadError>)
    requires
        storage.wf(),
        old(multiverse).wf(),
        old(leaderships).wf(),
        forall|j: int|
            0 <= j < old(leaderships)@.len() ==> (#[trigger] old(leaderships)@[j]).roots <= 1,
        replaying(storage@, old(multiverse)@, block_0@, tip@, root.spec_hash(), genesis, apply),
        schedules_replayed(storage@, old(multiverse)@, old(leaderships)@, block_0@, build),
        storage@.on_chain(tip@, next),
        storage@.depth(next) == storage@.depth(root.spec_hash()) + 1,
        forall|s: &L, b: &Block| call_requires(*apply, (s, b)),
        forall|e: Epoch, s: &L| call_requires(*build, (e, s)),
    ensures
        final(leaderships).wf(),
        forall|j: int|
            0 <= j < final(leaderships)@.len() ==> (#[trigger] final(leaderships)@[j]).roots <= 1,
        final(multiverse).wf(),
        match r {
            Ok(pinned) => pinned.spec_hash() == next && replaying(
                storage@,
                final(multiverse)@,
                block_0@,
                tip@,
                next,
                genesis,
                apply,
            ) && schedules_replayed(
                storage@,
                final(multiverse)@,
                final(leaderships)@,
                block_0@,
                build,
            ),
            Err(LoadError::Ledger { source }) => exists|s: L| #[trigger]
                call_ensures(*apply, (&s, &storage@.block(next)), Err(source)),
            Err(_) => false,
        },
{
    let ghost store = storage@;
    let ghost cur = root.spec_hash();
    let ghost before = multiverse@;
    let ghost entries = leaderships@;
    let ghost mut noted_schedule: Option<D> = None;
    proof {
        lemma_next_on_chain(store, tip@, cur, next);
        assert(before.dom().contains(cur));
    }
    let block = match storage.get_block(&next) {
        Ok((block, _)) => block,
        Err(source) => {
            return Err(LoadError::Storage { source });
        },
    };
    let parent_epoch = match storage.get_block(&block.header.parent_hash) {
        Ok((parent, _)) => parent.header.date.epoch,
        Err(source) => {
            return Err(LoadError::Storage { source });
        },
    };
    let applied = match multiverse.get(&block.header.parent_hash) {
        Some(parent_state) => {
            let applied = apply(parent_state, block);
            if applied.is_ok() && block.header.date.epoch > parent_epoch {
                let schedule = build(block.header.date.epoch, parent_state);
                proof {
                    let key = crossing_key(block.header);
                    lemma_key_is_new(store, before, leaderships@, block_0@, tip@, cur, next);
                    lemma_key_index(leaderships@, key);
                    lemma_noted(leaderships@, key, schedule);
                    lemma_noted_roots(leaderships@, key, schedule);
                    noted_schedule = Some(schedule);
                }
                let handle = leaderships.add(
                    block.header.date.epoch,
                    block.header.chain_length,
                    block.header.parent_hash,
                    schedule,
                );
                leaderships.release(handle);
            }
            applied
        },
        None => {
            return Err(LoadError::Storage { source: StorageError::BlockNotFound });
        },
    };
    let state = match applied {
        Ok(state) => state,
        Err(source) => {
            assert(call_ensures(*apply, (&before[cur].state, &store.block(next)), Err(source)));
            return Err(LoadError::Ledger { source });
        },
    };
    proof {
        lemma_replay_step(store, before, block_0@, tip@, cur, next, state, genesis, apply);
        lemma_schedules_step(
            store,
            before,
            entries,
            block_0@,
            tip@,
            cur,
            next,
            state,
            noted_schedule,
            genesis,
            apply,
            build,
        );
    }
    multiverse.release(root);
    let pinned = multiverse.add(next, state);
    proof {
        assert(multiverse@ =~= before.insert(
            cur,
            Entry { state: before[cur].state, roots: 0 },
        ).insert(next, Entry { state, roots: 1 }));
    }
    Ok(pinned)
}

/// On the chain above `to` there is one block at each depth.
pub proof fn lemma_on_chain_unique(store: StoreView, to: HeaderHash, a: HeaderHash, b: HeaderHash)
    requires
        store.on_chain(to, a),
        store.on_chain(to, b),
        store.depth(a) == store.depth(b),
    ensures
        a == b,
{
}

impl<L: Clone, D> Blockchain<L, D> {
    /// Rebuilds the chain from an archive whose tag names the tip: the
    /// ledger state of `block_0` is made from that block, and each block on
    /// the way to the tip is applied to the state before it.
    pub fn restore<
        G: Fn(&Block) -> Result<L, LedgerError>,
        A: Fn(&L, &Block) -> Result<L, LedgerError>,
        B: Fn(Epoch, &L) -> D,
    >(
        block_0: HeaderHash,
        storage: BlockStore,
        time_frame: TimeFrame,
        genesis: &G,
        apply: &A,
        build: &B,
    ) -> (r: Result<Blockchain<L, D>, LoadError>)
        requires
            storage.wf(),
            time_frame.wf(),
            storage@.tags.dom().contains(tip_tag()),
            forall|b: &Block| call_requires(*genesis, (b,)),
            forall|s: &L, b: &Block| call_requires(*apply, (s, b)),
            forall|e: Epoch, s: &L| call_requires(*build, (e, s)),
        ensures
            Self::restored(block_0, storage@, time_frame, genesis, apply, build, r),
    {
        let ghost store = storage@;
        let tip = match storage.get_tag(LOCAL_BLOCKCHAIN_TIP_TAG) {
            Some(tip) => tip,
            None => {
                return Err(LoadError::Storage { source: StorageError::BlockNotFound });
            },
        };
        let range = match storage.iterate_range(&block_0, &tip) {
            Ok(range) => range,
            Err(source) => {
                return Err(LoadError::Storage { source });
            },
        };
        let first = match storage.get_block(&block_0) {
            Ok((first, _)) => first,
            Err(source) => {
                return Err(LoadError::Storage { source });
            },
        };
        let state_0 = match genesis(first) {
            Ok(state) => state,
            Err(source) => {
                return Err(LoadError::Ledger { source });
            },
        };
        let mut leaderships = Leaderships::new(
            &first.header,
            build(first.header.date.epoch, &state_0),
        );
        let mut multiverse: Multiverse<L> = Multiverse::new();
        let mut root = multiverse.add(block_0, state_0);
        let ghost d = range@.len();
        proof {
            assert(store.on_chain(tip, block_0));
            assert forall|h: HeaderHash| #[trigger]
                multiverse@.dom().contains(h) <==> store.between(block_0, tip, h) && store.depth(h)
                    <= store.depth(block_0) by {
                if store.between(block_0, tip, h) && store.depth(h) <= store.depth(block_0) {
                    lemma_on_chain_unique(store, tip, h, block_0);
                }
            }
            assert(replaying(store, multiverse@, block_0, tip, block_0, genesis, apply));
            assert(leaderships@[0].key == first_key(store.block(block_0).header));
            assert(schedules_replayed(store, multiverse@, leaderships@, block_0, build));
        }
        let mut i: usize = 0;
        while i < range.len()
            invariant
                storage.wf(),
                storage@ == store,
                multiverse.wf(),
                leaderships.wf(),
                forall|j: int| 0 <= j < leaderships@.len() ==> (#[trigger] leaderships@[j]).roots <= 1,
                forall|s: &L, b: &Block| call_requires(*apply, (s, b)),
                forall|e: Epoch, s: &L| call_requires(*build, (e, s)),
                store.tags.dom().contains(tip_tag()),
                store.tags[tip_tag()] == tip,
                d == range@.len(),
                d == store.depth(tip) - store.depth(block_0),
                forall|j: int|
                    0 <= j < range@.len() ==> store.ancestor(tip, (range@.len() - 1 - j) as nat)
                        == Some((#[trigger] range@[j]).block_hash),
                i <= range@.len(),
                store.depth(root.spec_hash()) == store.depth(block_0) + i,
                replaying(store, multiverse@, block_0, tip, root.spec_hash(), genesis, apply),
                schedules_replayed(store, multiverse@, leaderships@, block_0, build),
            decreases range@.len() - i,
        {
            let next = range[i].block_hash;
            proof {
                store.lemma_ancestor(tip, (d - 1 - i) as nat);
                assert(store.on_chain(tip, next));
            }
            root =
            match replay_step(
                &storage,
                &mut multiverse,
                &mut leaderships,
                root,
                next,
                Ghost(block_0),
                Ghost(tip),
                genesis,
                apply,
                build,
            ) {
                Ok(pinned) => pinned,
                Err(e) => {
                    proof {
                        assert(store.between(block_0, tip, next));
                    }
                    return Err(e);
                },
            };
            i += 1;
        }
        proof {
            store.lemma_ancestor(tip, 0);
            lemma_on_chain_unique(store, tip, root.spec_hash(), tip);
        }
        let length = match storage.get_block(&tip) {
            Ok((last, _)) => last.header.chain_length,
            Err(source) => {
                return Err(LoadError::Storage { source });
            },
        };
        let cached = match multiverse.get(&tip) {
            Some(state) => state.clone(),
            None => {
                return Err(LoadError::Storage { source: StorageError::BlockNotFound });
            },
        };
        let ghost states = multiverse@;
        proof {
            assert forall|h: HeaderHash| #[trigger] states.dom().contains(h) implies retained(
                states,
                store,
                h,
            ) by {
                assert(store.between(block_0, tip, h));
                assert(store.ancestor(tip, (store.depth(tip) - store.depth(h)) as nat) == Some(h));
                assert(pinned(states, tip) && store.reaches(tip, h));
            }
        }
        multiverse.gc(&storage);
        proof {
            assert forall|h: HeaderHash|
                multiverse@.dom().contains(h) <==> states.dom().contains(h) by {
                assert(multiverse.contains(h) <==> retained(states, store, h));
            }
            assert forall|h: HeaderHash| multiverse@.dom().contains(h) implies multiverse@[h]
                == states[h] by {
                assert(multiverse.contains(h));
            }
            assert(multiverse@ =~= states);
        }
        let chain = Blockchain {
            storage,
            multiverse,
            leaderships,
            tip: Tip::new(Branch::new(root, length, cached)),
            time_frame,
            unconnected_blocks: OrphanBuffer::new(),
        };
        Ok(chain)
    }
}

/// The archive as `load` prepares it where no tag names a tip yet: the
/// first block is filed and the tag names it.
pub open spec fn seeded(store: StoreView, block_0: Block) -> StoreView {
    StoreView {
        blocks: if store.contains(block_0.header.hash) {
            store.blocks
        } else {
            store.blocks.insert(block_0.header.hash, block_0)
        },
        tags: store.tags.insert(tip_tag(), block_0.header.hash),
    }
}

impl<L: Clone, D> Blockchain<L, D> {
    /// What loading the chain comes to. The settings of the first block
    /// must give a clock. Where the archive's tag names a tip, the chain is
    /// restored from the archive as it is; where it names none, the first
    /// block is filed and tagged as the tip, which the archive may refuse,
    /// and the chain is restored from that.
    pub open spec fn loaded<
        G: Fn(&Block) -> Result<L, LedgerError>,
        A: Fn(&L, &Block) -> Result<L, LedgerError>,
        B: Fn(Epoch, &L) -> D,
    >(
        block_0: Block,
        storage: &BlockStore,
        settings: Block0Settings,
        genesis: &G,
        apply: &A,
        build: &B,
        r: Result<Blockchain<L, D>, LoadError>,
    ) -> bool {
        match clock_of(settings) {
            Err(source) => r matches Err(e) && e == (LoadError::Block0 { source }),
            Ok(time_frame) => if storage@.tags.dom().contains(tip_tag()) {
                Self::restored(
                    block_0.header.hash,
                    storage@,
                    time_frame,
                    genesis,
                    apply,
                    build,
                    r,
                )
            } else {
                match storage.put_outcome(block_0.header) {
                    Err(source) => r matches Err(e) && e == (LoadError::Storage { source }),
                    Ok(()) => Self::restored(
                        block_0.header.hash,
                        seeded(storage@, block_0),
                        time_frame,
                        genesis,
                        apply,
                        build,
                        r,
                    ),
                }
            },
        }
    }

    /// Brings the chain up from its first block and the archive. `genesis`
    /// makes the ledger state of the first block, `apply` that of any other
    /// block from the state of its parent, and `build` the schedule of an
    /// epoch from the state that the epoch opens with.
    pub fn load<
        G: Fn(&Block) -> Result<L, LedgerError>,
        A: Fn(&L, &Block) -> Result<L, LedgerError>,
        B: Fn(Epoch, &L) -> D,
    >(
        block_0: Block,
        storage: BlockStore,
        settings: &Block0Settings,
        genesis: &G,
        apply: &A,
        build: &B,
    ) -> (r: Result<Blockchain<L, D>, LoadError>)
        requires
            storage.wf(),
            forall|b: &Block| call_requires(*genesis, (b,)),
            forall|s: &L, b: &Block| call_requires(*apply, (s, b)),
            forall|e: Epoch, s: &L| call_requires(*build, (e, s)),
        ensures
            Self::loaded(block_0, &storage, *settings, genesis, apply, build, r),
    {
        let time_frame = match clock(settings) {
            Ok(time_frame) => time_frame,
            Err(source) => {
                return Err(LoadError::Block0 { source });
            },
        };
        let block_0_id = block_0.header.hash;
        let mut storage = storage;
        if storage.get_tag(LOCAL_BLOCKCHAIN_TIP_TAG).is_none() {
            match storage.put_block(block_0) {
                Ok(()) => {},
                Err(source) => {
                    return Err(LoadError::Storage { source });
                },
            }
            storage.put_tag(LOCAL_BLOCKCHAIN_TIP_TAG, block_0_id);
        }
        Self::restore(block_0_id, storage, time_frame, genesis, apply, build)
    }
}

} // verus!
