use jormungandr::block::{Block, BlockDate, Header};
use jormungandr::hash::HeaderHash;
use jormungandr::leadership::{LeadershipKey, Leaderships};
use jormungandr::multiverse::Multiverse;
use jormungandr::orphans::OrphanBuffer;
use jormungandr::storage::BlockStore;
use jormungandr::tip::{Branch, Tip, TipGetError, TipReplaceError};

fn hash(n: u128) -> HeaderHash {
    HeaderHash::new(n, 3)
}

fn block(id: u128, parent: u128, chain_length: u32) -> Block {
    Block {
        header: Header {
            hash: hash(id),
            parent_hash: hash(parent),
            chain_length,
            date: BlockDate { epoch: 0, slot_id: chain_length },
        },
        messages: Vec::new(),
    }
}

fn forked() -> BlockStore {
    let mut store = BlockStore::new();
    for (id, parent, length) in [(1, 0, 1), (2, 1, 2), (3, 2, 3), (12, 1, 2), (13, 12, 3)] {
        assert_eq!(store.put_block(block(id, parent, length)), Ok(()));
    }
    store
}

#[test]
fn add_keeps_the_first_state() {
    let mut states: Multiverse<&str> = Multiverse::new();
    let first = states.add(hash(1), "one");
    assert_eq!(first.hash(), hash(1));
    let second = states.add(hash(1), "uno");
    assert_eq!(second.hash(), hash(1));
    assert_eq!(states.get(&hash(1)), Some(&"one"));
    assert_eq!(states.get(&hash(2)), None);
    assert_eq!(states.root_count(&hash(1)), Some(2));
    assert_eq!(states.root_count(&hash(2)), None);
    states.release(first);
    assert_eq!(states.root_count(&hash(1)), Some(1));
    states.release(second);
    assert_eq!(states.root_count(&hash(1)), Some(0));
    assert_eq!(states.get(&hash(1)), Some(&"one"));
}

#[test]
fn gc_keeps_what_is_pinned_and_its_ancestors() {
    let store = forked();
    let mut states: Multiverse<u32> = Multiverse::new();
    let r1 = states.add(hash(1), 1);
    let r2 = states.add(hash(2), 2);
    let r3 = states.add(hash(3), 3);
    let r12 = states.add(hash(12), 12);
    let r13 = states.add(hash(13), 13);
    states.release(r1);
    states.release(r2);
    states.release(r12);
    states.release(r13);
    states.gc(&store);
    assert_eq!(states.get(&hash(3)), Some(&3));
    assert_eq!(states.get(&hash(2)), Some(&2));
    assert_eq!(states.get(&hash(1)), Some(&1));
    assert_eq!(states.get(&hash(12)), None);
    assert_eq!(states.get(&hash(13)), None);
    states.release(r3);
    states.gc(&store);
    assert_eq!(states.get(&hash(3)), None);
    assert_eq!(states.get(&hash(1)), None);
}

#[test]
fn gc_counts_every_handle() {
    let store = forked();
    let mut states: Multiverse<u32> = Multiverse::new();
    let a = states.add(hash(12), 12);
    let b = states.add(hash(12), 120);
    states.release(a);
    states.gc(&store);
    assert_eq!(states.get(&hash(12)), Some(&12));
    states.release(b);
    states.gc(&store);
    assert_eq!(states.get(&hash(12)), None);
}

#[test]
fn gc_keeps_a_pinned_state_without_a_block() {
    let store = forked();
    let mut states: Multiverse<u32> = Multiverse::new();
    let _held = states.add(hash(99), 99);
    let gone = states.add(hash(1), 1);
    states.release(gone);
    states.gc(&store);
    assert_eq!(states.get(&hash(99)), Some(&99));
    assert_eq!(states.get(&hash(1)), None);
}

#[test]
fn leaderships_come_longest_chain_first() {
    let genesis = block(1, 0, 1).header;
    let mut registry: Leaderships<&str> = Leaderships::new(&genesis, "first");
    let a = registry.add(1, 5, hash(4), "five");
    let _b = registry.add(1, 9, hash(8), "nine");
    let _c = registry.add(2, 7, hash(6), "seven");
    let _d = registry.add(1, 5, hash(14), "five again");
    let _e = registry.add(1, 5, hash(4), "ignored");
    assert_eq!(a.key(), LeadershipKey { epoch: 1, chain_length: 5, anchor: hash(4) });
    let found = registry.get(1);
    let shown: Vec<(u32, HeaderHash, &str)> =
        found.iter().map(|(key, value)| (key.chain_length, key.anchor, **value)).collect();
    assert_eq!(
        shown,
        vec![(9, hash(8), "nine"), (5, hash(4), "five"), (5, hash(14), "five again")]
    );
    assert_eq!(registry.get(0).len(), 1);
    assert_eq!(*registry.get(0)[0].1, "first");
    assert_eq!(registry.get(3).len(), 0);
    let (key, value) = registry.first(1).unwrap();
    assert_eq!(key, LeadershipKey { epoch: 1, chain_length: 9, anchor: hash(8) });
    assert_eq!(*value, "nine");
    assert!(registry.first(3).is_none());
    let five = LeadershipKey { epoch: 1, chain_length: 5, anchor: hash(4) };
    assert_eq!(registry.root_count(&five), Some(2));
    registry.release(a);
    assert_eq!(registry.root_count(&five), Some(1));
    assert_eq!(registry.root_count(&LeadershipKey { epoch: 1, chain_length: 5, anchor: hash(5) }), None);
    assert_eq!(registry.get(1).len(), 3);
}

#[test]
fn tip_is_replaced_by_longer_branches_only() {
    let mut states: Multiverse<u32> = Multiverse::new();
    let mut tip: Tip<u32> = Tip::empty();
    assert_eq!(tip.hash(), Err(TipGetError {}));
    assert!(tip.branch().is_err());
    let first = Branch::new(states.add(hash(2), 2), 2, 2);
    assert!(tip.replace_with(first).unwrap().is_none());
    assert_eq!(tip.hash(), Ok(hash(2)));
    let same = Branch::new(states.add(hash(12), 12), 2, 12);
    assert_eq!(tip.replace_with(same).err(), Some(TipReplaceError {}));
    assert_eq!(tip.hash(), Ok(hash(2)));
    let longer = Branch::new(states.add(hash(3), 3), 3, 3);
    let replaced = tip.replace_with(longer).unwrap().unwrap();
    assert_eq!(replaced.hash(), hash(2));
    assert_eq!(replaced.chain_length(), 2);
    assert_eq!(tip.hash(), Ok(hash(3)));
    assert_eq!(tip.branch().unwrap().chain_length(), 3);
    assert_eq!(*tip.branch().unwrap().state(), 3);
    let set = Tip::new(Branch::new(states.add(hash(1), 1), 1, 1));
    assert_eq!(set.hash(), Ok(hash(1)));
}

#[test]
fn orphans_are_filed_by_parent() {
    let mut buffer = OrphanBuffer::new();
    buffer.insert(block(3, 2, 3));
    buffer.insert(block(13, 2, 3));
    buffer.insert(block(5, 4, 5));
    let mut waiting = buffer.children(&hash(2));
    waiting.sort();
    assert_eq!(waiting, vec![hash(3), hash(13)]);
    assert_eq!(buffer.children(&hash(4)), vec![hash(5)]);
    assert!(buffer.children(&hash(9)).is_empty());
    assert_eq!(buffer.get(&hash(2), &hash(13)), Some(&block(13, 2, 3)));
    assert_eq!(buffer.get(&hash(4), &hash(13)), None);
    assert_eq!(buffer.get(&hash(9), &hash(13)), None);
    assert_eq!(buffer.remove(&hash(2), &hash(3)), Some(block(3, 2, 3)));
    assert_eq!(buffer.remove(&hash(2), &hash(3)), None);
    assert_eq!(buffer.remove(&hash(9), &hash(3)), None);
    assert_eq!(buffer.children(&hash(2)), vec![hash(13)]);
    let mut again = block(13, 2, 3);
    again.header.date.slot_id = 77;
    buffer.insert(again);
    assert_eq!(buffer.get(&hash(2), &hash(13)).unwrap().header.date.slot_id, 77);
    assert_eq!(buffer.children(&hash(2)), vec![hash(13)]);
}
