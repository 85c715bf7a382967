use jormungandr::block::BlockDate;
use jormungandr::checkpoints::{offsets, sample};
use jormungandr::block::{Block, Header};
use jormungandr::hash::HeaderHash;
use jormungandr::load::clock;
use jormungandr::chain::{Block0Error, Block0Settings};
use jormungandr::storage::{BlockStore, StorageError};
use jormungandr::time::{TimeEra, TimeFrame};

#[test]
fn slot_at_counts_whole_slots_since_the_start() {
    let frame = TimeFrame::new(1_000, 20);
    assert_eq!(frame.slot_at(999), None);
    assert_eq!(frame.slot_at(0), None);
    assert_eq!(frame.slot_at(1_000), Some(0));
    assert_eq!(frame.slot_at(1_019), Some(0));
    assert_eq!(frame.slot_at(1_020), Some(1));
    assert_eq!(frame.slot_at(1_000 + 20 * 1234 + 7), Some(1234));
    assert_eq!(TimeFrame::new(0, 1).slot_at(u64::MAX), Some(u64::MAX));
}

#[test]
fn slots_fall_into_epochs() {
    let era = TimeEra::new(2, 100, 40);
    assert_eq!(era.from_slot_to_era(99), None);
    assert_eq!(era.from_slot_to_era(100), Some(BlockDate { epoch: 2, slot_id: 0 }));
    assert_eq!(era.from_slot_to_era(139), Some(BlockDate { epoch: 2, slot_id: 39 }));
    assert_eq!(era.from_slot_to_era(140), Some(BlockDate { epoch: 3, slot_id: 0 }));
    assert_eq!(era.from_slot_to_era(100 + 40 * 7 + 5), Some(BlockDate { epoch: 9, slot_id: 5 }));
}

#[test]
fn epoch_numbers_do_not_wrap() {
    let era = TimeEra::new(u32::MAX - 1, 0, 1);
    assert_eq!(era.from_slot_to_era(0), Some(BlockDate { epoch: u32::MAX - 1, slot_id: 0 }));
    assert_eq!(era.from_slot_to_era(1), Some(BlockDate { epoch: u32::MAX, slot_id: 0 }));
    assert_eq!(era.from_slot_to_era(2), None);
    assert_eq!(TimeEra::new(0, 0, 1).from_slot_to_era(u64::MAX), None);
}

#[test]
fn clock_is_read_off_the_settings() {
    let full = Block0Settings { start_time: Some(3), slot_duration: Some(4) };
    assert_eq!(clock(&full), Ok(TimeFrame { start: 3, slot_duration: 4 }));
    let none = Block0Settings { start_time: None, slot_duration: None };
    assert_eq!(clock(&none), Err(Block0Error::NoStartTime));
    let half = Block0Settings { start_time: Some(3), slot_duration: None };
    assert_eq!(clock(&half), Err(Block0Error::NoSlotDuration));
    let zero = Block0Settings { start_time: Some(3), slot_duration: Some(0) };
    assert_eq!(clock(&zero), Err(Block0Error::InvalidSlotDuration));
}

#[test]
fn checkpoint_offsets_double() {
    assert_eq!(offsets(1), vec![0]);
    assert_eq!(offsets(2), vec![0, 1]);
    assert_eq!(offsets(3), vec![0, 1, 2]);
    assert_eq!(offsets(4), vec![0, 1, 2, 3]);
    assert_eq!(offsets(5), vec![0, 1, 2, 4]);
    assert_eq!(offsets(6), vec![0, 1, 2, 4, 5]);
    assert_eq!(offsets(100), vec![0, 1, 2, 4, 8, 16, 32, 64, 99]);
    assert_eq!(offsets(65), vec![0, 1, 2, 4, 8, 16, 32, 64]);
    assert_eq!(offsets(66), vec![0, 1, 2, 4, 8, 16, 32, 64, 65]);
    let far = offsets(u64::MAX);
    assert_eq!(far.len(), 66);
    assert_eq!(far[63], 1 << 62);
    assert_eq!(far[64], 1 << 63);
    assert_eq!(far[65], u64::MAX - 1);
}

#[test]
fn sample_needs_the_block() {
    let mut store = BlockStore::new();
    let id = HeaderHash::new(1, 1);
    assert_eq!(sample(&store, &id), Err(StorageError::BlockNotFound));
    let genesis = Block {
        header: Header {
            hash: id,
            parent_hash: HeaderHash::new(0, 0),
            chain_length: 1,
            date: BlockDate { epoch: 0, slot_id: 0 },
        },
        messages: Vec::new(),
    };
    assert_eq!(store.put_block(genesis), Ok(()));
    assert_eq!(sample(&store, &id), Ok(vec![id]));
}
