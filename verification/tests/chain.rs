use jormungandr::block::{Block, BlockDate, Header};
use jormungandr::chain::{
    handle_block, handle_end_of_epoch_event, header_triage, process_block, Block0Error,
    Block0Settings, BlockHeaderTriage, Blockchain, ConsensusError, HandleBlockError, HandledBlock,
    LedgerError, LoadError, RejectionReason, Verification,
};
use jormungandr::hash::HeaderHash;
use jormungandr::leadership::LeadershipKey;
use jormungandr::multiverse::Multiverse;
use jormungandr::storage::{BlockStore, StorageError};
use jormungandr::time::{TimeEra, TimeFrame};
use jormungandr::tip::{Branch, TipReplaceError};
use std::cell::Cell;

type Ledger = Vec<u64>;

type Schedule = u32;

type Chain = Blockchain<Ledger, Schedule>;

fn hash(n: u128) -> HeaderHash {
    HeaderHash::new(0, n)
}

fn block(id: u128, parent: u128, chain_length: u32, epoch: u32, slot_id: u32) -> Block {
    Block {
        header: Header {
            hash: hash(id),
            parent_hash: hash(parent),
            chain_length,
            date: BlockDate { epoch, slot_id },
        },
        messages: Vec::new(),
    }
}

fn genesis(block: &Block) -> Result<Ledger, LedgerError> {
    Ok(vec![block.header.hash.lo as u64])
}

fn apply(state: &Ledger, block: &Block) -> Result<Ledger, LedgerError> {
    if block.header.hash.lo == 666 {
        return Err(LedgerError::InvalidContent { code: 7 });
    }
    let mut next = state.clone();
    next.push(block.header.hash.lo as u64);
    Ok(next)
}

fn build(epoch: u32, state: &Ledger) -> Schedule {
    epoch * 1000 + state.len() as u32
}

fn verify(_schedule: &Schedule, header: &Header) -> Verification {
    if header.date.slot_id == 13 {
        Verification::Failure(ConsensusError { code: 13 })
    } else {
        Verification::Success
    }
}

fn settings() -> Block0Settings {
    Block0Settings { start_time: Some(1_000), slot_duration: Some(10) }
}

fn load(store: BlockStore) -> Result<Chain, LoadError> {
    Blockchain::load(block(1, 0, 1, 0, 0), store, &settings(), &genesis, &apply, &build)
}

fn fresh() -> Chain {
    match load(BlockStore::new()) {
        Ok(chain) => chain,
        Err(e) => panic!("load failed: {:?}", e),
    }
}

fn offer(chain: &mut Chain, b: Block, is_tip_candidate: bool) -> Result<HandledBlock, HandleBlockError> {
    handle_block(chain, b, is_tip_candidate, &build, &verify, &apply)
}

fn acquire(chain: &mut Chain, id: u128, parent: u128, chain_length: u32) {
    let b = block(id, parent, chain_length, 0, 1);
    let header = b.header;
    assert_eq!(offer(chain, b, true), Ok(HandledBlock::Acquired { header }));
}

fn load_error(r: Result<Chain, LoadError>) -> LoadError {
    match r {
        Ok(_) => panic!("load succeeded"),
        Err(e) => e,
    }
}

fn check_invariants(chain: &Chain, admitted: &[u128]) {
    let tip = chain.get_tip().unwrap();
    assert!(chain.get_ledger(&tip).is_some());
    let tip_info = chain.storage.get_block_info(&tip).unwrap();
    let tip_length = chain.tip.branch().unwrap().chain_length();
    assert_eq!(tip_length as u64, tip_info.depth);
    assert_eq!(chain.storage.get_tag("tip"), Some(tip));
    for id in admitted {
        let h = hash(*id);
        if chain.get_ledger(&h).is_some() {
            assert!(chain.storage.block_exists(&h));
        }
        let info = chain.storage.get_block_info(&h).unwrap();
        assert!(info.depth <= tip_length as u64);
    }
}

#[test]
fn fresh_genesis_bootstrap() {
    let chain = fresh();
    assert_eq!(chain.get_tip(), Ok(hash(1)));
    assert_eq!(chain.storage.get_tag("tip"), Some(hash(1)));
    assert!(chain.storage.block_exists(&hash(1)));
    assert_eq!(chain.get_ledger(&hash(1)), Some(&vec![1u64]));
    assert_eq!(chain.time_frame, TimeFrame { start: 1_000, slot_duration: 10 });
    let era = TimeEra::new(0, 0, 100);
    let event = chain.initial(1_000, &era).unwrap();
    assert_eq!(event.epoch, 0);
    assert_eq!(event.time_frame, chain.time_frame);
    assert_eq!(event.ledger_reference, vec![1u64]);
    check_invariants(&chain, &[1]);
}

#[test]
fn fresh_bootstrap_registers_the_first_schedule() {
    let chain = fresh();
    let found = chain.leaderships.get(0);
    assert_eq!(found.len(), 1);
    assert_eq!(found[0].0, LeadershipKey { epoch: 0, chain_length: 1, anchor: hash(1) });
    assert_eq!(*found[0].1, 1);
}

#[test]
fn initial_event_follows_the_clock() {
    let chain = fresh();
    let era = TimeEra::new(0, 0, 100);
    assert!(chain.initial(999, &era).is_none());
    assert_eq!(chain.initial(1_000 + 10 * 99 + 9, &era).unwrap().epoch, 0);
    assert_eq!(chain.initial(1_000 + 10 * 100, &era).unwrap().epoch, 1);
    assert_eq!(chain.initial(1_000 + 10 * 250, &era).unwrap().epoch, 2);
}

#[test]
fn end_of_epoch_event_names_the_next_epoch() {
    let mut chain = fresh();
    acquire(&mut chain, 2, 1, 2);
    let event = handle_end_of_epoch_event(&chain, 4).unwrap();
    assert_eq!(event.epoch, 5);
    assert_eq!(event.time_frame, chain.time_frame);
    assert_eq!(event.ledger_reference, vec![1u64, 2]);
}

#[test]
fn linear_extension() {
    let mut chain = fresh();
    let mut admitted = vec![1u128];
    for i in 1..=10u32 {
        let id = 1 + i as u128;
        let b = block(id, id - 1, 1 + i, 0, i);
        let header = b.header;
        assert_eq!(offer(&mut chain, b, true), Ok(HandledBlock::Acquired { header }));
        admitted.push(id);
        check_invariants(&chain, &admitted);
    }
    assert_eq!(chain.tip.branch().unwrap().chain_length(), 11);
    assert_eq!(chain.get_tip(), Ok(hash(11)));
    assert_eq!(chain.storage.get_tag("tip"), Some(hash(11)));
    assert_eq!(
        chain.get_ledger(&hash(11)),
        Some(&vec![1u64, 2, 3, 4, 5, 6, 7, 8, 9, 10, 11])
    );
    assert_eq!(chain.tip.branch().unwrap().state(), chain.get_ledger(&hash(11)).unwrap());
}

#[test]
fn same_block_twice_is_rejected() {
    let mut chain = fresh();
    acquire(&mut chain, 2, 1, 2);
    let keys_before = chain.leaderships.get(0).len();
    let second = offer(&mut chain, block(2, 1, 2, 0, 2), true);
    assert_eq!(second, Ok(HandledBlock::Rejected { reason: RejectionReason::AlreadyPresent }));
    assert_eq!(chain.get_tip(), Ok(hash(2)));
    assert_eq!(chain.storage.get_tag("tip"), Some(hash(2)));
    assert_eq!(chain.get_ledger(&hash(2)), Some(&vec![1u64, 2]));
    assert_eq!(chain.leaderships.get(0).len(), keys_before);
    assert!(chain.unconnected_blocks.children(&hash(1)).is_empty());
    check_invariants(&chain, &[1, 2]);
}

#[test]
fn already_present_comes_before_any_other_check() {
    let mut chain = fresh();
    acquire(&mut chain, 2, 1, 2);
    let again = block(2, 1, 2, 0, 13);
    assert_eq!(
        offer(&mut chain, again, true),
        Ok(HandledBlock::Rejected { reason: RejectionReason::AlreadyPresent })
    );
}

#[test]
fn fork_reorg() {
    let mut chain = fresh();
    for i in 2..=5u32 {
        acquire(&mut chain, i as u128, i as u128 - 1, i);
    }
    assert_eq!(chain.get_tip(), Ok(hash(5)));
    acquire(&mut chain, 105, 4, 5);
    assert_eq!(chain.get_tip(), Ok(hash(5)));
    let b = block(106, 105, 6, 0, 6);
    let header = b.header;
    assert_eq!(offer(&mut chain, b, true), Ok(HandledBlock::Acquired { header }));
    assert_eq!(chain.get_tip(), Ok(hash(106)));
    assert_eq!(chain.storage.get_tag("tip"), Some(hash(106)));
    assert!(chain.storage.block_exists(&hash(5)));
    assert_eq!(chain.get_ledger(&hash(106)), Some(&vec![1u64, 2, 3, 4, 105, 106]));
    check_invariants(&chain, &[1, 2, 3, 4, 5, 105, 106]);
}

#[test]
fn block_at_length_six_from_length_four_is_not_accepted() {
    let mut chain = fresh();
    for i in 2..=5u32 {
        acquire(&mut chain, i as u128, i as u128 - 1, i);
    }
    let r = offer(&mut chain, block(106, 4, 6, 0, 6), true);
    assert_eq!(
        r,
        Err(HandleBlockError::Ledger {
            source: LedgerError::WrongChainLength { actual: 6, parent: 4 }
        })
    );
    assert_eq!(chain.get_tip(), Ok(hash(5)));
    assert!(!chain.storage.block_exists(&hash(106)));
    assert!(chain.get_ledger(&hash(106)).is_none());
}

fn two_chains(order: &[u128]) -> Chain {
    let mut chain = fresh();
    for id in order {
        let (parent, length) = match *id {
            11 => (1, 2),
            12 => (11, 3),
            21 => (1, 2),
            22 => (21, 3),
            23 => (22, 4),
            _ => unreachable!(),
        };
        acquire(&mut chain, *id, parent, length);
        check_invariants(&chain, &[1]);
    }
    chain
}

#[test]
fn longest_chain_wins_in_any_interleaving() {
    let orders: [[u128; 5]; 6] = [
        [11, 12, 21, 22, 23],
        [21, 22, 23, 11, 12],
        [11, 21, 12, 22, 23],
        [21, 11, 22, 12, 23],
        [21, 22, 11, 23, 12],
        [11, 21, 22, 23, 12],
    ];
    for order in orders.iter() {
        let chain = two_chains(order);
        assert_eq!(chain.get_tip(), Ok(hash(23)));
        assert_eq!(chain.tip.branch().unwrap().chain_length(), 4);
        assert_eq!(chain.storage.get_tag("tip"), Some(hash(23)));
        assert_eq!(chain.get_ledger(&hash(23)), Some(&vec![1u64, 21, 22, 23]));
        assert_eq!(chain.get_ledger(&hash(12)), Some(&vec![1u64, 11, 12]));
    }
}

#[test]
fn tie_keeps_the_tip_that_came_first() {
    let mut chain = fresh();
    acquire(&mut chain, 11, 1, 2);
    acquire(&mut chain, 21, 1, 2);
    assert_eq!(chain.get_tip(), Ok(hash(11)));
    assert_eq!(chain.storage.get_tag("tip"), Some(hash(11)));
    let mut other = fresh();
    acquire(&mut other, 21, 1, 2);
    acquire(&mut other, 11, 1, 2);
    assert_eq!(other.get_tip(), Ok(hash(21)));
    assert!(other.get_ledger(&hash(11)).is_some());
}

#[test]
fn orphan_waits_for_its_parent() {
    let mut chain = fresh();
    let a2 = block(12, 11, 3, 0, 3);
    assert_eq!(
        offer(&mut chain, a2, true),
        Ok(HandledBlock::MissingBranchToBlock { to: hash(11) })
    );
    assert!(!chain.storage.block_exists(&hash(12)));
    assert_eq!(chain.get_tip(), Ok(hash(1)));
    assert_eq!(chain.unconnected_blocks.children(&hash(11)), vec![hash(12)]);
    let kept = chain.unconnected_blocks.get(&hash(11), &hash(12)).unwrap();
    assert_eq!(*kept, block(12, 11, 3, 0, 3));
    acquire(&mut chain, 11, 1, 2);
    let again = chain.unconnected_blocks.remove(&hash(11), &hash(12)).unwrap();
    let header = again.header;
    assert_eq!(offer(&mut chain, again, true), Ok(HandledBlock::Acquired { header }));
    assert_eq!(chain.get_tip(), Ok(hash(12)));
    assert!(chain.unconnected_blocks.children(&hash(11)).is_empty());
    check_invariants(&chain, &[1, 11, 12]);
}

#[test]
fn backfill() {
    let mut chain = fresh();
    let last = block(11, 10, 11, 0, 11);
    assert_eq!(
        offer(&mut chain, last, false),
        Ok(HandledBlock::MissingBranchToBlock { to: hash(10) })
    );
    assert!(chain.unconnected_blocks.get(&hash(10), &hash(11)).is_some());
    for i in 2..=10u32 {
        let b = block(i as u128, i as u128 - 1, i, 0, i);
        let header = b.header;
        assert_eq!(offer(&mut chain, b, false), Ok(HandledBlock::Acquired { header }));
    }
    assert_eq!(chain.get_tip(), Ok(hash(10)));
    let waiting = chain.unconnected_blocks.remove(&hash(10), &hash(11)).unwrap();
    let header = waiting.header;
    assert_eq!(offer(&mut chain, waiting, false), Ok(HandledBlock::Acquired { header }));
    assert_eq!(chain.get_tip(), Ok(hash(11)));
    assert_eq!(chain.tip.branch().unwrap().chain_length(), 11);
}

#[test]
fn epoch_crossing_registers_a_schedule() {
    let mut chain = fresh();
    acquire(&mut chain, 2, 1, 2);
    assert!(chain.get_leadership(1).is_none());
    let crossing = block(3, 2, 3, 1, 0);
    let header = crossing.header;
    assert_eq!(offer(&mut chain, crossing, true), Ok(HandledBlock::Acquired { header }));
    let found = chain.leaderships.get(1);
    assert_eq!(found.len(), 1);
    assert_eq!(found[0].0, LeadershipKey { epoch: 1, chain_length: 3, anchor: hash(2) });
    assert_eq!(*found[0].1, 1002);
    assert_eq!(*chain.get_leadership(1).unwrap().get(), 1002);

    let builds = Cell::new(0u32);
    let counting = |epoch: u32, state: &Ledger| {
        builds.set(builds.get() + 1);
        build(epoch, state)
    };
    let seen = Cell::new(0u32);
    let recording = |schedule: &Schedule, _header: &Header| {
        seen.set(*schedule);
        Verification::Success
    };
    let next = block(4, 3, 4, 1, 1);
    let decision = header_triage(&chain, &next.header, true, &counting, &recording);
    assert_eq!(decision, Ok(BlockHeaderTriage::ProcessBlockToState));
    assert_eq!(builds.get(), 0);
    assert_eq!(seen.get(), 1002);
}

#[test]
fn schedule_is_built_from_the_parent_where_the_epoch_is_new() {
    let chain = fresh();
    let builds = Cell::new(0u32);
    let counting = |epoch: u32, state: &Ledger| {
        builds.set(builds.get() + 1);
        build(epoch, state)
    };
    let seen = Cell::new(0u32);
    let recording = |schedule: &Schedule, _header: &Header| {
        seen.set(*schedule);
        Verification::Success
    };
    let next = block(2, 1, 2, 5, 0);
    let decision = header_triage(&chain, &next.header, true, &counting, &recording);
    assert_eq!(decision, Ok(BlockHeaderTriage::ProcessBlockToState));
    assert_eq!(builds.get(), 1);
    assert_eq!(seen.get(), 5001);
}

#[test]
fn consensus_failure_is_a_rejection() {
    let mut chain = fresh();
    let bad = block(2, 1, 2, 0, 13);
    assert_eq!(
        offer(&mut chain, bad, true),
        Ok(HandledBlock::Rejected {
            reason: RejectionReason::Consensus { error: ConsensusError { code: 13 } }
        })
    );
    assert!(!chain.storage.block_exists(&hash(2)));
    assert_eq!(chain.get_tip(), Ok(hash(1)));
}

#[test]
fn consensus_failure_comes_before_the_missing_parent() {
    let mut chain = fresh();
    acquire(&mut chain, 2, 1, 2);
    let bad = block(9, 8, 9, 0, 13);
    assert_eq!(
        offer(&mut chain, bad, true),
        Ok(HandledBlock::Rejected {
            reason: RejectionReason::Consensus { error: ConsensusError { code: 13 } }
        })
    );
    assert!(chain.unconnected_blocks.children(&hash(8)).is_empty());
}

fn chain_at_epoch_five() -> Chain {
    let mut chain = fresh();
    let b = block(2, 1, 2, 5, 0);
    let header = b.header;
    assert_eq!(offer(&mut chain, b, true), Ok(HandledBlock::Acquired { header }));
    chain
}

#[test]
fn tip_candidate_beyond_stability_depth_is_rejected() {
    let mut chain = chain_at_epoch_five();
    let old = block(3, 1, 2, 2, 1);
    assert_eq!(
        offer(&mut chain, old, true),
        Ok(HandledBlock::Rejected { reason: RejectionReason::BeyondStabilityDepth })
    );
    let edge = block(4, 1, 2, 3, 1);
    let header = edge.header;
    assert_eq!(offer(&mut chain, edge, true), Ok(HandledBlock::Acquired { header }));
}

#[test]
fn backfilled_block_skips_the_stability_check() {
    let mut chain = chain_at_epoch_five();
    let old = block(3, 1, 2, 2, 1);
    let header = old.header;
    assert_eq!(offer(&mut chain, old, false), Ok(HandledBlock::Acquired { header }));
    assert_eq!(chain.get_tip(), Ok(hash(2)));
}

#[test]
fn stability_check_comes_before_the_missing_parent() {
    let mut chain = chain_at_epoch_five();
    let old = block(9, 8, 9, 0, 1);
    assert_eq!(
        offer(&mut chain, old, true),
        Ok(HandledBlock::Rejected { reason: RejectionReason::BeyondStabilityDepth })
    );
}

#[test]
fn triage_decides_from_the_verdict() {
    let chain = fresh();
    let header = block(2, 1, 2, 0, 1).header;
    assert_eq!(
        chain.triage(&header, true, Some(Verification::Success)),
        BlockHeaderTriage::ProcessBlockToState
    );
    assert_eq!(
        chain.triage(&header, true, None),
        BlockHeaderTriage::MissingParentOrBranch { to: hash(1) }
    );
    assert_eq!(
        chain.triage(&header, true, Some(Verification::Failure(ConsensusError { code: 3 }))),
        BlockHeaderTriage::NotOfInterest {
            reason: RejectionReason::Consensus { error: ConsensusError { code: 3 } }
        }
    );
    let known = block(1, 0, 1, 0, 0).header;
    assert_eq!(
        chain.triage(&known, true, Some(Verification::Failure(ConsensusError { code: 3 }))),
        BlockHeaderTriage::NotOfInterest { reason: RejectionReason::AlreadyPresent }
    );
    let orphan = block(5, 4, 5, 0, 1).header;
    assert_eq!(
        chain.triage(&orphan, false, Some(Verification::Success)),
        BlockHeaderTriage::MissingParentOrBranch { to: hash(4) }
    );
}

#[test]
fn ledger_failure_leaves_the_chain_alone() {
    let mut chain = fresh();
    acquire(&mut chain, 2, 1, 2);
    let r = offer(&mut chain, block(666, 2, 3, 0, 3), true);
    assert_eq!(
        r,
        Err(HandleBlockError::Ledger { source: LedgerError::InvalidContent { code: 7 } })
    );
    assert_eq!(chain.get_tip(), Ok(hash(2)));
    assert!(!chain.storage.block_exists(&hash(666)));
    assert!(chain.get_ledger(&hash(666)).is_none());
    check_invariants(&chain, &[1, 2]);
}

#[test]
fn process_block_takes_the_block_in() {
    let mut chain = fresh();
    let b = block(2, 1, 2, 0, 1);
    let header = b.header;
    assert_eq!(
        process_block(&mut chain, b, &apply, &build),
        Ok(HandledBlock::Acquired { header })
    );
    assert_eq!(chain.get_tip(), Ok(hash(2)));
    assert_eq!(chain.get_block(&hash(2)).unwrap().0.header, header);
    assert_eq!(chain.get_block_tip().unwrap().1.depth, 2);
}

#[test]
fn accept_takes_the_state_it_is_given() {
    let mut chain = fresh();
    let b = block(2, 1, 2, 0, 1);
    let header = b.header;
    assert_eq!(chain.accept(b, vec![42], None), Ok(HandledBlock::Acquired { header }));
    assert_eq!(chain.get_ledger(&hash(2)), Some(&vec![42u64]));
    assert_eq!(chain.get_tip(), Ok(hash(2)));
}

#[test]
fn put_tip_refuses_a_branch_that_is_not_longer() {
    let mut chain = fresh();
    acquire(&mut chain, 2, 1, 2);
    let mut states: Multiverse<Ledger> = Multiverse::new();
    let root = states.add(hash(77), vec![77]);
    let branch = Branch::new(root, 2, vec![77]);
    let r = chain.put_tip(branch, block(77, 1, 2, 0, 1));
    assert_eq!(r, Err(HandleBlockError::InternalTip { source: TipReplaceError {} }));
    assert_eq!(chain.get_tip(), Ok(hash(2)));
    assert!(chain.storage.block_exists(&hash(77)));
}

#[test]
fn put_tip_reports_what_the_archive_says() {
    let mut chain = fresh();
    let mut states: Multiverse<Ledger> = Multiverse::new();
    let root = states.add(hash(77), vec![77]);
    let branch = Branch::new(root, 9, vec![77]);
    let r = chain.put_tip(branch, block(77, 8, 9, 0, 1));
    assert_eq!(r, Err(HandleBlockError::Storage { source: StorageError::BlockNotFound }));
    assert_eq!(chain.get_tip(), Ok(hash(1)));
    assert_eq!(chain.storage.get_tag("tip"), Some(hash(1)));
    assert!(!chain.storage.block_exists(&hash(77)));
}

#[test]
fn put_block_reports_what_the_archive_says() {
    let mut chain = fresh();
    assert_eq!(chain.put_block(block(5, 4, 5, 0, 1)), Err(StorageError::BlockNotFound));
    assert_eq!(chain.put_block(block(5, 1, 5, 0, 1)), Err(StorageError::ChainLengthMismatch));
    assert_eq!(chain.put_block(block(5, 1, 2, 0, 1)), Ok(()));
    assert_eq!(chain.block_exists(&hash(5)), Ok(true));
    assert_eq!(chain.block_exists(&hash(6)), Ok(false));
    assert_eq!(chain.get_block(&hash(6)).err(), Some(StorageError::BlockNotFound));
}

#[test]
fn crash_recovery() {
    let mut chain = fresh();
    for i in 2..=11u32 {
        acquire(&mut chain, i as u128, i as u128 - 1, i);
    }
    let tip_state = chain.get_ledger(&hash(11)).unwrap().clone();
    let Blockchain { storage, .. } = chain;
    let reloaded = load(storage).ok().unwrap();
    assert_eq!(reloaded.get_tip(), Ok(hash(11)));
    assert_eq!(reloaded.tip.branch().unwrap().chain_length(), 11);
    assert_eq!(reloaded.get_ledger(&hash(11)), Some(&tip_state));
    assert_eq!(reloaded.tip.branch().unwrap().state(), &tip_state);
    check_invariants(&reloaded, &[1, 2, 3, 4, 5, 6, 7, 8, 9, 10, 11]);
}

#[test]
fn load_after_store_gives_the_same_states() {
    let mut chain = fresh();
    acquire(&mut chain, 11, 1, 2);
    acquire(&mut chain, 21, 1, 2);
    acquire(&mut chain, 22, 21, 3);
    let crossing = block(23, 22, 4, 1, 0);
    let header = crossing.header;
    assert_eq!(offer(&mut chain, crossing, true), Ok(HandledBlock::Acquired { header }));
    let states: Vec<(u128, Ledger)> = [1u128, 21, 22, 23]
        .iter()
        .map(|id| (*id, chain.get_ledger(&hash(*id)).unwrap().clone()))
        .collect();
    let Blockchain { storage, .. } = chain;
    let reloaded = load(storage).ok().unwrap();
    assert_eq!(reloaded.get_tip(), Ok(hash(23)));
    for (id, state) in states.iter() {
        assert_eq!(reloaded.get_ledger(&hash(*id)), Some(state));
    }
    assert!(reloaded.get_ledger(&hash(11)).is_none());
    assert!(reloaded.storage.block_exists(&hash(11)));
    assert_eq!(*reloaded.get_leadership(1).unwrap().get(), 1003);
}

#[test]
fn reload_right_after_bootstrap() {
    let chain = fresh();
    let Blockchain { storage, .. } = chain;
    let reloaded = load(storage).ok().unwrap();
    assert_eq!(reloaded.get_tip(), Ok(hash(1)));
    assert_eq!(reloaded.get_ledger(&hash(1)), Some(&vec![1u64]));
}

#[test]
fn load_needs_the_settings_of_the_first_block() {
    let none = Block0Settings { start_time: None, slot_duration: Some(10) };
    let r: Result<Chain, LoadError> =
        Blockchain::load(block(1, 0, 1, 0, 0), BlockStore::new(), &none, &genesis, &apply, &build);
    assert_eq!(load_error(r), LoadError::Block0 { source: Block0Error::NoStartTime });
    let none = Block0Settings { start_time: Some(5), slot_duration: None };
    let r: Result<Chain, LoadError> =
        Blockchain::load(block(1, 0, 1, 0, 0), BlockStore::new(), &none, &genesis, &apply, &build);
    assert_eq!(load_error(r), LoadError::Block0 { source: Block0Error::NoSlotDuration });
    let zero = Block0Settings { start_time: Some(5), slot_duration: Some(0) };
    let r: Result<Chain, LoadError> =
        Blockchain::load(block(1, 0, 1, 0, 0), BlockStore::new(), &zero, &genesis, &apply, &build);
    assert_eq!(load_error(r), LoadError::Block0 { source: Block0Error::InvalidSlotDuration });
}

#[test]
fn load_reports_what_the_archive_lacks() {
    let mut store = BlockStore::new();
    assert_eq!(store.put_block(block(50, 0, 1, 0, 0)), Ok(()));
    store.put_tag("tip", hash(50));
    assert_eq!(
        load_error(load(store)),
        LoadError::Storage { source: StorageError::BlockNotFound }
    );

    let mut store = BlockStore::new();
    assert_eq!(store.put_block(block(1, 0, 1, 0, 0)), Ok(()));
    assert_eq!(store.put_block(block(50, 0, 1, 0, 0)), Ok(()));
    assert_eq!(store.put_block(block(51, 50, 2, 0, 1)), Ok(()));
    store.put_tag("tip", hash(51));
    assert_eq!(
        load_error(load(store)),
        LoadError::Storage { source: StorageError::CannotIterate }
    );

    let r: Result<Chain, LoadError> = Blockchain::load(
        block(1, 0, 3, 0, 0),
        BlockStore::new(),
        &settings(),
        &genesis,
        &apply,
        &build,
    );
    assert_eq!(load_error(r), LoadError::Storage { source: StorageError::BlockNotFound });

    let r: Result<Chain, LoadError> = Blockchain::load(
        block(1, 0, 0, 0, 0),
        BlockStore::new(),
        &settings(),
        &genesis,
        &apply,
        &build,
    );
    assert_eq!(load_error(r), LoadError::Storage { source: StorageError::ChainLengthMismatch });
}

#[test]
fn load_reports_what_the_ledger_refuses() {
    let mut store = BlockStore::new();
    assert_eq!(store.put_block(block(1, 0, 1, 0, 0)), Ok(()));
    assert_eq!(store.put_block(block(666, 1, 2, 0, 1)), Ok(()));
    store.put_tag("tip", hash(666));
    assert_eq!(
        load_error(load(store)),
        LoadError::Ledger { source: LedgerError::InvalidContent { code: 7 } }
    );
    let refusing = |_block: &Block| -> Result<Ledger, LedgerError> {
        Err(LedgerError::InvalidContent { code: 1 })
    };
    let r: Result<Chain, LoadError> = Blockchain::load(
        block(1, 0, 1, 0, 0),
        BlockStore::new(),
        &settings(),
        &refusing,
        &apply,
        &build,
    );
    assert_eq!(
        load_error(r),
        LoadError::Ledger { source: LedgerError::InvalidContent { code: 1 } }
    );
}

#[test]
fn restore_goes_by_the_tag() {
    let mut store = BlockStore::new();
    assert_eq!(store.put_block(block(1, 0, 1, 0, 0)), Ok(()));
    assert_eq!(store.put_block(block(2, 1, 2, 0, 1)), Ok(()));
    assert_eq!(store.put_block(block(3, 2, 3, 0, 2)), Ok(()));
    store.put_tag("tip", hash(2));
    let chain: Chain = Blockchain::restore(
        hash(1),
        store,
        TimeFrame::new(0, 1),
        &genesis,
        &apply,
        &build,
    )
    .ok()
    .unwrap();
    assert_eq!(chain.get_tip(), Ok(hash(2)));
    assert_eq!(chain.get_ledger(&hash(2)), Some(&vec![1u64, 2]));
    assert!(chain.get_ledger(&hash(3)).is_none());
    assert!(chain.storage.block_exists(&hash(3)));
}

#[test]
fn checkpoints_of_a_tip_at_depth_100() {
    let mut chain = fresh();
    for i in 2..=100u32 {
        acquire(&mut chain, i as u128, i as u128 - 1, i);
    }
    let checkpoints = chain.get_checkpoints().unwrap();
    let expected: Vec<HeaderHash> =
        [100u128, 99, 98, 96, 92, 84, 68, 36, 1].iter().map(|id| hash(*id)).collect();
    assert_eq!(checkpoints, expected);
}

#[test]
fn checkpoints_of_short_chains() {
    let mut chain = fresh();
    assert_eq!(chain.get_checkpoints(), Ok(vec![hash(1)]));
    acquire(&mut chain, 2, 1, 2);
    assert_eq!(chain.get_checkpoints(), Ok(vec![hash(2), hash(1)]));
    acquire(&mut chain, 3, 2, 3);
    assert_eq!(chain.get_checkpoints(), Ok(vec![hash(3), hash(2), hash(1)]));
    acquire(&mut chain, 4, 3, 4);
    assert_eq!(chain.get_checkpoints(), Ok(vec![hash(4), hash(3), hash(2), hash(1)]));
    acquire(&mut chain, 5, 4, 5);
    assert_eq!(chain.get_checkpoints(), Ok(vec![hash(5), hash(4), hash(3), hash(1)]));
}

#[test]
fn errors_say_what_went_wrong() {
    assert_eq!(
        RejectionReason::AlreadyPresent.message(),
        "Block already present in the blockchain"
    );
    assert_eq!(
        RejectionReason::BeyondStabilityDepth.message(),
        "the block is beyond the stability depth, we reject it"
    );
    assert_eq!(
        RejectionReason::Consensus { error: ConsensusError { code: 42 } }.message(),
        "the header failed verification with code 42"
    );
    assert_eq!(
        HandleBlockError::Storage { source: StorageError::BlockNotFound }.message(),
        "Error in the blockchain storage"
    );
    assert_eq!(
        HandleBlockError::Ledger { source: LedgerError::InvalidContent { code: 1 } }.message(),
        "Invalid blockchain state"
    );
    assert_eq!(
        HandleBlockError::InternalTip { source: TipReplaceError {} }.message(),
        "Cannot update the blockchain's TIP"
    );
    assert_eq!(
        LoadError::Storage { source: StorageError::CannotIterate }.message(),
        "Error in the blockchain storage: cannot iterate between the two blocks"
    );
    assert_eq!(
        LoadError::Storage { source: StorageError::BlockNotFound }.message(),
        "Error in the blockchain storage: block not found"
    );
    assert_eq!(
        LoadError::Storage { source: StorageError::ChainLengthMismatch }.message(),
        "Error in the blockchain storage: the chain length of the block does not follow that of its parent"
    );
    assert_eq!(
        LoadError::Ledger { source: LedgerError::WrongChainLength { actual: 6, parent: 4 } }
            .message(),
        "Invalid blockchain state: chain length 6 does not follow the chain length 4 of the parent"
    );
    assert_eq!(
        LoadError::Ledger { source: LedgerError::InvalidContent { code: 7 } }.message(),
        "Invalid blockchain state: the ledger refused the block with code 7"
    );
    assert_eq!(
        LoadError::Block0 { source: Block0Error::NoStartTime }.message(),
        "Initial setting of the blockchain are invalid"
    );
}
