use jormungandr::block::{Block, BlockDate, Header};
use jormungandr::hash::HeaderHash;
use jormungandr::storage::{BlockInfo, BlockStore, StorageError};
use jormungandr::table::HashTable;

fn hash(n: u128) -> HeaderHash {
    HeaderHash::new(7, n)
}

fn block(id: u128, parent: u128, chain_length: u32) -> Block {
    Block {
        header: Header {
            hash: hash(id),
            parent_hash: hash(parent),
            chain_length,
            date: BlockDate { epoch: 0, slot_id: chain_length },
        },
        messages: Vec::new(),
    }
}

fn info(id: u128, parent: u128, depth: u64) -> BlockInfo {
    BlockInfo { block_hash: hash(id), parent_hash: hash(parent), depth }
}

fn line(n: u32) -> BlockStore {
    let mut store = BlockStore::new();
    for i in 1..=n {
        assert_eq!(store.put_block(block(i as u128, i as u128 - 1, i)), Ok(()));
    }
    store
}

#[test]
fn hash_is_made_of_two_halves() {
    assert_eq!(HeaderHash::new(3, 4), HeaderHash { hi: 3, lo: 4 });
    assert_ne!(HeaderHash::new(3, 4), HeaderHash::new(4, 3));
    assert!(HeaderHash::new(0, 9) < HeaderHash::new(1, 0));
}

#[test]
fn table_binds_and_unbinds() {
    let mut table: HashTable<u32> = HashTable::new();
    assert_eq!(table.len(), 0);
    assert_eq!(table.insert(hash(1), 10), None);
    assert_eq!(table.insert(hash(2), 20), None);
    assert_eq!(table.insert(hash(1), 11), Some(10));
    assert_eq!(table.len(), 2);
    assert_eq!(table.get(&hash(1)), Some(&11));
    assert_eq!(table.get(&hash(3)), None);
    assert!(table.contains_key(&hash(2)));
    let mut keys = table.keys();
    keys.sort();
    assert_eq!(keys, vec![hash(1), hash(2)]);
    assert_eq!(table.remove(&hash(2)), Some(20));
    assert_eq!(table.remove(&hash(2)), None);
    assert!(!table.contains_key(&hash(2)));
    assert_eq!(table.len(), 1);
}

#[test]
fn put_block_is_idempotent() {
    let mut store = line(3);
    assert_eq!(store.put_block(block(2, 1, 2)), Ok(()));
    assert_eq!(store.get_block_info(&hash(2)), Ok(info(2, 1, 2)));
    let mut other = block(2, 9, 7);
    other.header.date.slot_id = 99;
    assert_eq!(store.put_block(other), Ok(()));
    assert_eq!(store.get_block(&hash(2)).unwrap().0, &block(2, 1, 2));
}

#[test]
fn put_block_wants_the_parent_first() {
    let mut store = line(2);
    assert_eq!(store.put_block(block(4, 3, 4)), Err(StorageError::BlockNotFound));
    assert!(!store.block_exists(&hash(4)));
    assert_eq!(store.put_block(block(3, 2, 3)), Ok(()));
    assert_eq!(store.put_block(block(4, 3, 4)), Ok(()));
    assert!(store.block_exists(&hash(4)));
}

#[test]
fn put_block_checks_the_chain_length() {
    let mut store = line(2);
    assert_eq!(store.put_block(block(3, 2, 4)), Err(StorageError::ChainLengthMismatch));
    assert_eq!(store.put_block(block(3, 2, 2)), Err(StorageError::ChainLengthMismatch));
    assert_eq!(store.put_block(block(3, 2, 0)), Err(StorageError::ChainLengthMismatch));
    assert_eq!(store.put_block(block(3, 2, 3)), Ok(()));
    assert_eq!(store.put_block(block(30, 2, 1)), Ok(()));
    assert_eq!(store.get_block_info(&hash(30)), Ok(info(30, 2, 1)));
}

#[test]
fn get_block_gives_block_and_record() {
    let store = line(3);
    let (found, record) = store.get_block(&hash(3)).unwrap();
    assert_eq!(found, &block(3, 2, 3));
    assert_eq!(record, info(3, 2, 3));
    assert_eq!(store.get_block(&hash(4)).err(), Some(StorageError::BlockNotFound));
    assert_eq!(store.get_block_info(&hash(4)), Err(StorageError::BlockNotFound));
    assert!(store.block_exists(&hash(1)));
    assert!(!store.block_exists(&hash(0)));
}

#[test]
fn tags_point_where_they_were_last_put() {
    let mut store = line(3);
    assert_eq!(store.get_tag("tip"), None);
    store.put_tag("tip", hash(2));
    assert_eq!(store.get_tag("tip"), Some(hash(2)));
    store.put_tag("other", hash(1));
    store.put_tag("tip", hash(3));
    assert_eq!(store.get_tag("tip"), Some(hash(3)));
    assert_eq!(store.get_tag("other"), Some(hash(1)));
    assert_eq!(store.get_tag("Tip"), None);
    assert!(store.block_exists(&hash(3)));
}

#[test]
fn nth_ancestor_walks_the_parent_links() {
    let store = line(10);
    assert_eq!(store.get_nth_ancestor(&hash(10), 0), Ok(info(10, 9, 10)));
    assert_eq!(store.get_nth_ancestor(&hash(10), 3), Ok(info(7, 6, 7)));
    assert_eq!(store.get_nth_ancestor(&hash(10), 9), Ok(info(1, 0, 1)));
    assert_eq!(store.get_nth_ancestor(&hash(10), 10), Err(StorageError::CannotIterate));
    assert_eq!(store.get_nth_ancestor(&hash(11), 0), Err(StorageError::BlockNotFound));
}

#[test]
fn path_to_nth_ancestor_lists_what_it_passes() {
    let store = line(6);
    let (path, end) = store.path_to_nth_ancestor(&hash(6), 3).unwrap();
    assert_eq!(path, vec![info(6, 5, 6), info(5, 4, 5), info(4, 3, 4)]);
    assert_eq!(end, info(3, 2, 3));
    let (path, end) = store.path_to_nth_ancestor(&hash(6), 0).unwrap();
    assert!(path.is_empty());
    assert_eq!(end, info(6, 5, 6));
    assert_eq!(
        store.path_to_nth_ancestor(&hash(6), 6).err(),
        Some(StorageError::CannotIterate)
    );
    assert_eq!(
        store.path_to_nth_ancestor(&hash(9), 1).err(),
        Some(StorageError::BlockNotFound)
    );
}

#[test]
fn iterate_range_goes_from_old_to_new() {
    let mut store = line(5);
    assert_eq!(store.put_block(block(13, 2, 3)), Ok(()));
    assert_eq!(
        store.iterate_range(&hash(2), &hash(5)),
        Ok(vec![info(3, 2, 3), info(4, 3, 4), info(5, 4, 5)])
    );
    assert_eq!(store.iterate_range(&hash(3), &hash(3)), Ok(vec![]));
    assert_eq!(store.iterate_range(&hash(1), &hash(13)), Ok(vec![info(2, 1, 2), info(13, 2, 3)]));
    assert_eq!(store.iterate_range(&hash(5), &hash(2)), Err(StorageError::CannotIterate));
    assert_eq!(store.iterate_range(&hash(3), &hash(13)), Err(StorageError::CannotIterate));
    assert_eq!(store.iterate_range(&hash(13), &hash(5)), Err(StorageError::CannotIterate));
    assert_eq!(store.iterate_range(&hash(9), &hash(5)), Err(StorageError::BlockNotFound));
    assert_eq!(store.iterate_range(&hash(1), &hash(9)), Err(StorageError::BlockNotFound));
}
