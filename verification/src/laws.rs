//! What holds of the chain whatever blocks it is offered.

use crate::block::Block;
use crate::block::Epoch;
use crate::chain::stability_horizon;
use crate::chain::tip_tag;
use crate::chain::BlockHeaderTriage;
use crate::chain::Blockchain;
use crate::chain::HandleBlockError;
use crate::chain::HandledBlock;
use crate::chain::LedgerError;
use crate::chain::RejectionReason;
use crate::chain::Verification;
use crate::hash::HeaderHash;
use crate::load::states_replayed;
use crate::multiverse::Entry;
use crate::storage::StoreView;
use crate::time::TimeFrame;
use vstd::prelude::*;

verus! {

/// Every block with a live ledger state is in the archive.
pub proof fn law_states_have_blocks<L: Clone, D>(chain: &Blockchain<L, D>, h: HeaderHash)
    requires
        chain.wf(),
        chain.multiverse.contains(h),
    ensures
        chain.storage@.contains(h),
{
}

/// The ledger state of the tip is live.
pub proof fn law_tip_is_live<L: Clone, D>(chain: &Blockchain<L, D>)
    requires
        chain.wf(),
    ensures
        chain.multiverse.contains(chain.tip_hash()),
{
}

/// The chain length of the tip is the depth that the archive records for it.
pub proof fn law_tip_length_is_depth<L: Clone, D>(chain: &Blockchain<L, D>)
    requires
        chain.wf(),
    ensures
        chain.storage@.contains(chain.tip_hash()),
        chain.tip_branch().chain_length == chain.storage@.info(chain.tip_hash()).depth,
{
}

/// No block with a live ledger state is longer than the tip.
pub proof fn law_tip_is_longest<L: Clone, D>(chain: &Blockchain<L, D>, h: HeaderHash)
    requires
        chain.wf(),
        chain.multiverse.contains(h),
    ensures
        chain.storage@.block(h).header.chain_length <= chain.tip_branch().chain_length,
{
}

/// Where no block of the archive is longer than the tip, none is after a
/// block was taken in; and the tip is then at least as long as that block
/// and as it was before.
pub proof fn law_tip_stays_longest<L: Clone, D>(
    before: &Blockchain<L, D>,
    after: &Blockchain<L, D>,
    block: Block,
    state: L,
    leadership: Option<D>,
)
    requires
        before.wf(),
        after.wf(),
        !before.storage@.contains(block.header.hash),
        before.accepted(after, block, state, leadership),
        forall|h: HeaderHash| #[trigger]
            before.storage@.contains(h) ==> before.storage@.depth(h)
                <= before.tip_branch().chain_length,
    ensures
        after.tip_branch().chain_length >= before.tip_branch().chain_length,
        after.tip_branch().chain_length >= block.header.chain_length,
        forall|h: HeaderHash| #[trigger]
            after.storage@.contains(h) ==> after.storage@.depth(h)
                <= after.tip_branch().chain_length,
{
    assert forall|h: HeaderHash| #[trigger] after.storage@.contains(h) implies after.storage@.depth(
        h,
    ) <= after.tip_branch().chain_length by {
        if h != block.header.hash {
            assert(before.storage@.contains(h));
        }
    }
}

/// A block that is offered again after it was taken in is rejected as
/// already present, whatever the verifier says of it, and nothing changes.
pub proof fn law_same_block_twice<
    L: Clone,
    D,
    A: Fn(&L, &Block) -> Result<L, LedgerError>,
    B: Fn(Epoch, &L) -> D,
>(
    before: &Blockchain<L, D>,
    between: &Blockchain<L, D>,
    after: &Blockchain<L, D>,
    block: Block,
    state: L,
    leadership: Option<D>,
    is_tip_candidate: bool,
    verification: Option<Verification>,
    answer: Result<HandledBlock, HandleBlockError>,
    apply: &A,
    build: &B,
)
    requires
        before.accepted(between, block, state, leadership),
        between.handled(
            after,
            block,
            between.triage_of(block.header, is_tip_candidate, verification),
            answer,
            apply,
            build,
        ),
    ensures
        answer == Ok::<HandledBlock, HandleBlockError>(
            HandledBlock::Rejected { reason: RejectionReason::AlreadyPresent },
        ),
        after.unchanged(between),
{
    assert(between.storage@.blocks.dom().contains(block.header.hash));
}

/// A block that is not longer than the tip leaves the tip as it is, also
/// where it is just as long.
pub proof fn law_no_reorg_on_tie<L: Clone, D>(
    before: &Blockchain<L, D>,
    after: &Blockchain<L, D>,
    block: Block,
    state: L,
    leadership: Option<D>,
)
    requires
        before.accepted(after, block, state, leadership),
        block.header.chain_length <= before.tip_branch().chain_length,
    ensures
        after.tip@ == before.tip@,
        after.storage@.tags == before.storage@.tags,
{
}

/// A block that is longer than the tip becomes the tip, and the archive's
/// tag follows; the blocks of the chain it overtakes stay in the archive.
pub proof fn law_longer_block_wins<L: Clone, D>(
    before: &Blockchain<L, D>,
    after: &Blockchain<L, D>,
    block: Block,
    state: L,
    leadership: Option<D>,
)
    requires
        before.accepted(after, block, state, leadership),
        block.header.chain_length > before.tip_branch().chain_length,
    ensures
        after.tip_hash() == block.header.hash,
        after.tip_branch().chain_length == block.header.chain_length,
        after.storage@.tags[tip_tag()] == block.header.hash,
        forall|h: HeaderHash| #[trigger]
            before.storage@.contains(h) ==> after.storage@.contains(h),
{
}

/// A block whose parent is not known is kept in the orphan buffer under the
/// hash of that parent, from where it can be had again, and the answer
/// names that parent as the end of the branch to fetch.
pub proof fn law_orphan_is_kept<
    L: Clone,
    D,
    A: Fn(&L, &Block) -> Result<L, LedgerError>,
    B: Fn(Epoch, &L) -> D,
>(
    before: &Blockchain<L, D>,
    after: &Blockchain<L, D>,
    block: Block,
    is_tip_candidate: bool,
    verification: Option<Verification>,
    answer: Result<HandledBlock, HandleBlockError>,
    apply: &A,
    build: &B,
)
    requires
        !before.storage@.contains(block.header.hash),
        !before.storage@.contains(block.header.parent_hash),
        !(verification matches Some(Verification::Failure(_))),
        !(is_tip_candidate && block.header.date.epoch < stability_horizon(before.tip_epoch())),
        before.handled(
            after,
            block,
            before.triage_of(block.header, is_tip_candidate, verification),
            answer,
            apply,
            build,
        ),
    ensures
        answer == Ok::<HandledBlock, HandleBlockError>(
            HandledBlock::MissingBranchToBlock { to: block.header.parent_hash },
        ),
        after.unconnected_blocks.holds(block.header.parent_hash, block.header.hash),
        after.unconnected_blocks.waiting_for(block.header.parent_hash)[block.header.hash] == block,
        after.storage@ == before.storage@,
        after.tip@ == before.tip@,
{
    assert(before.triage_of(block.header, is_tip_candidate, verification) == (
    BlockHeaderTriage::MissingParentOrBranch { to: block.header.parent_hash }));
    assert(after.unconnected_blocks@.dom().contains(block.header.parent_hash));
}

/// Whether a function of the ledger gives one result for one input.
pub open spec fn genesis_is_function<L, G: Fn(&Block) -> Result<L, LedgerError>>(genesis: &G) -> bool {
    forall|b: &Block, r1: Result<L, LedgerError>, r2: Result<L, LedgerError>|
        #[trigger] call_ensures(*genesis, (b,), r1) && #[trigger] call_ensures(*genesis, (b,), r2)
            ==> r1 == r2
}

/// Whether applying a block to a ledger state gives one result.
pub open spec fn apply_is_function<L, A: Fn(&L, &Block) -> Result<L, LedgerError>>(apply: &A) -> bool {
    forall|s: &L, b: &Block, r1: Result<L, LedgerError>, r2: Result<L, LedgerError>|
        #[trigger] call_ensures(*apply, (s, b), r1) && #[trigger] call_ensures(*apply, (s, b), r2)
            ==> r1 == r2
}

/// Taking a block in keeps the live states those of a replay: the new state
/// came of applying the block to the state of its parent.
pub proof fn law_processing_keeps_replay<
    L: Clone,
    D,
    G: Fn(&Block) -> Result<L, LedgerError>,
    A: Fn(&L, &Block) -> Result<L, LedgerError>,
>(
    before: &Blockchain<L, D>,
    after: &Blockchain<L, D>,
    block: Block,
    state: L,
    leadership: Option<D>,
    block_0: HeaderHash,
    genesis: &G,
    apply: &A,
)
    requires
        before.wf(),
        before.replayed(block_0, genesis, apply),
        !before.storage@.contains(block.header.hash),
        before.multiverse.contains(block.header.parent_hash),
        before.accepted(after, block, state, leadership),
        call_ensures(
            *apply,
            (&before.multiverse.state(block.header.parent_hash), &block),
            Ok(state),
        ),
    ensures
        after.replayed(block_0, genesis, apply),
{
    let new = block.header.hash;
    assert(before.multiverse.contains(block_0));
    assert(before.multiverse.contains(before.tip_hash()));
    assert forall|h: HeaderHash| #[trigger]
        after.multiverse@.dom().contains(h) && h != block_0 implies {
        &&& after.multiverse@.dom().contains(after.storage@.parent(h))
        &&& call_ensures(
            *apply,
            (&after.multiverse@[after.storage@.parent(h)].state, &after.storage@.block(h)),
            Ok(after.multiverse@[h].state),
        )
    } by {
        if h != new {
            assert(before.multiverse.contains(h));
            assert(before.multiverse@.dom().contains(before.storage@.parent(h)));
            assert(before.multiverse.contains(before.storage@.parent(h)));
        }
    }
}

/// Whatever is done with a block that is offered, the live states stay
/// those of a replay.
pub proof fn law_handling_keeps_replay<
    L: Clone,
    D,
    G: Fn(&Block) -> Result<L, LedgerError>,
    A: Fn(&L, &Block) -> Result<L, LedgerError>,
    B: Fn(Epoch, &L) -> D,
>(
    before: &Blockchain<L, D>,
    after: &Blockchain<L, D>,
    block: Block,
    is_tip_candidate: bool,
    verification: Option<Verification>,
    answer: Result<HandledBlock, HandleBlockError>,
    block_0: HeaderHash,
    genesis: &G,
    apply: &A,
    build: &B,
)
    requires
        before.wf(),
        before.replayed(block_0, genesis, apply),
        before.handled(
            after,
            block,
            before.triage_of(block.header, is_tip_candidate, verification),
            answer,
            apply,
            build,
        ),
    ensures
        after.replayed(block_0, genesis, apply),
{
    let decision = before.triage_of(block.header, is_tip_candidate, verification);
    if decision == BlockHeaderTriage::ProcessBlockToState && answer is Ok
        && block.header.chain_length == before.storage@.depth(block.header.parent_hash) + 1 {
        let parent_state = before.multiverse.state(block.header.parent_hash);
        let (state, leadership) = choose|state: L, leadership: Option<D>|
            {
                &&& #[trigger] before.accepted(after, block, state, leadership)
                &&& call_ensures(*apply, (&parent_state, &block), Ok(state))
                &&& match leadership {
                    Some(d) => before.crosses_epoch(block.header) && call_ensures(
                        *build,
                        (block.header.date.epoch, &parent_state),
                        d,
                    ),
                    None => !before.crosses_epoch(block.header),
                }
            };
        law_processing_keeps_replay(
            before,
            after,
            block,
            state,
            leadership,
            block_0,
            genesis,
            apply,
        );
    }
}

/// In a chain whose live states are those of a replay, every block between
/// `block_0` and the tip has a live state.
pub proof fn lemma_chain_is_live<
    L,
    G: Fn(&Block) -> Result<L, LedgerError>,
    A: Fn(&L, &Block) -> Result<L, LedgerError>,
>(
    store: StoreView,
    states: Map<HeaderHash, Entry<L>>,
    block_0: HeaderHash,
    tip: HeaderHash,
    genesis: &G,
    apply: &A,
    k: nat,
)
    requires
        store.linked(),
        store.range_error(block_0, tip) is None,
        states.dom().contains(tip),
        states_replayed(store, states, block_0, genesis, apply),
        k <= store.depth(tip) - store.depth(block_0),
    ensures
        store.ancestor(tip, k) is Some,
        states.dom().contains(store.ancestor(tip, k).unwrap()),
    decreases k,
{
    store.lemma_ancestor(tip, k);
    if k > 0 {
        lemma_chain_is_live(store, states, block_0, tip, genesis, apply, (k - 1) as nat);
        store.lemma_ancestor(tip, (k - 1) as nat);
        let below = store.ancestor(tip, (k - 1) as nat).unwrap();
        store.lemma_ancestor_add(tip, (k - 1) as nat, 1);
        store.lemma_link(below);
        assert(store.ancestor(below, 1) == store.ancestor(store.parent(below), 0));
        assert(below != block_0);
    }
}

/// Two replays of one chain by one ledger agree on the state of every
/// block between `block_0` and the tip.
pub proof fn lemma_replays_agree<
    L,
    G: Fn(&Block) -> Result<L, LedgerError>,
    A: Fn(&L, &Block) -> Result<L, LedgerError>,
>(
    store: StoreView,
    a: Map<HeaderHash, Entry<L>>,
    b: Map<HeaderHash, Entry<L>>,
    block_0: HeaderHash,
    tip: HeaderHash,
    genesis: &G,
    apply: &A,
    h: HeaderHash,
)
    requires
        store.linked(),
        store.range_error(block_0, tip) is None,
        a.dom().contains(tip),
        b.dom().contains(tip),
        states_replayed(store, a, block_0, genesis, apply),
        states_replayed(store, b, block_0, genesis, apply),
        genesis_is_function(genesis),
        apply_is_function(apply),
        store.between(block_0, tip, h),
    ensures
        a.dom().contains(h),
        b.dom().contains(h),
        a[h].state == b[h].state,
    decreases store.depth(h),
{
    let k = (store.depth(tip) - store.depth(h)) as nat;
    lemma_chain_is_live(store, a, block_0, tip, genesis, apply, k);
    lemma_chain_is_live(store, b, block_0, tip, genesis, apply, k);
    if h == block_0 {
        assert(call_ensures(*genesis, (&store.block(block_0),), Ok(a[block_0].state)));
        assert(call_ensures(*genesis, (&store.block(block_0),), Ok(b[block_0].state)));
    } else {
        assert(store.depth(h) > store.depth(block_0)) by {
            if store.depth(h) == store.depth(block_0) {
                assert(store.ancestor(tip, k) == Some(block_0));
            }
        }
        let parent = store.parent(h);
        store.lemma_link(h);
        store.lemma_ancestor_add(tip, k, 1);
        assert(store.ancestor(h, 1) == store.ancestor(parent, 0));
        assert(store.between(block_0, tip, parent));
        lemma_replays_agree(store, a, b, block_0, tip, genesis, apply, parent);
        assert(call_ensures(*apply, (&a[parent].state, &store.block(h)), Ok(a[h].state)));
        assert(call_ensures(*apply, (&b[parent].state, &store.block(h)), Ok(b[h].state)));
    }
}

/// A chain that is restored from the archive of a running chain has the
/// tip of that chain, and for every block from `block_0` to the tip the
/// ledger state that the running chain has for it, provided that the ledger
/// gives one result for one input.
pub proof fn law_reload_gives_same_states<
    L: Clone,
    D,
    G: Fn(&Block) -> Result<L, LedgerError>,
    A: Fn(&L, &Block) -> Result<L, LedgerError>,
    B: Fn(Epoch, &L) -> D,
>(
    running: &Blockchain<L, D>,
    reloaded: Blockchain<L, D>,
    block_0: HeaderHash,
    time_frame: TimeFrame,
    genesis: &G,
    apply: &A,
    build: &B,
    h: HeaderHash,
)
    requires
        running.wf(),
        running.replayed(block_0, genesis, apply),
        genesis_is_function(genesis),
        apply_is_function(apply),
        Blockchain::<L, D>::restored(
            block_0,
            running.storage@,
            time_frame,
            genesis,
            apply,
            build,
            Ok(reloaded),
        ),
    ensures
        reloaded.tip_hash() == running.tip_hash(),
        reloaded.storage@ == running.storage@,
        running.storage@.between(block_0, running.tip_hash(), h) ==> {
            &&& running.multiverse.contains(h)
            &&& reloaded.multiverse.contains(h)
            &&& reloaded.multiverse.state(h) == running.multiverse.state(h)
        },
{
    let store = running.storage@;
    let tip = running.tip_hash();
    if store.between(block_0, tip, h) {
        lemma_replays_agree(
            store,
            running.multiverse@,
            reloaded.multiverse@,
            block_0,
            tip,
            genesis,
            apply,
            h,
        );
    }
}

/// Whatever is done with a block that is offered, no block leaves the
/// archive and the tip does not get shorter.
pub proof fn law_handling_keeps_archive_and_tip<
    L: Clone,
    D,
    A: Fn(&L, &Block) -> Result<L, LedgerError>,
    B: Fn(Epoch, &L) -> D,
>(
    before: &Blockchain<L, D>,
    after: &Blockchain<L, D>,
    block: Block,
    decision: BlockHeaderTriage,
    answer: Result<HandledBlock, HandleBlockError>,
    apply: &A,
    build: &B,
    h: HeaderHash,
)
    requires
        before.handled(after, block, decision, answer, apply, build),
    ensures
        before.storage@.contains(h) ==> after.storage@.contains(h),
        after.tip@ is Some && before.tip@ is Some ==> after.tip_branch().chain_length
            >= before.tip_branch().chain_length,
{
}

} // verus!
