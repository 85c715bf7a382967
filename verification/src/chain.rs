//! The chain itself: triage of incoming headers, admission of blocks, fork
//! choice, and recovery from the archive.

use crate::block::Block;
use crate::block::ChainLength;
use crate::block::Epoch;
use crate::block::Header;
use crate::checkpoints::checkpoint_offsets;
use crate::checkpoints::sample;
use crate::hash::HeaderHash;
use crate::leadership::lemma_key_index;
use crate::leadership::lemma_noted;
use crate::leadership::lemma_noted_roots;
use crate::leadership::noted;
use crate::leadership::of_epoch;
use crate::leadership::EpochParameters;
use crate::leadership::LeadershipEntry;
use crate::leadership::LeadershipKey;
use crate::leadership::Leaderships;
use crate::multiverse::pinned;
use crate::multiverse::Entry;
use crate::multiverse::Multiverse;
use crate::orphans::OrphanBuffer;
use crate::storage::BlockInfo;
use crate::storage::BlockStore;
use crate::storage::StorageError;
use crate::time::TimeEra;
use crate::time::TimeFrame;
use crate::tip::Branch;
use crate::tip::Tip;
use crate::tip::TipGetError;
use crate::tip::TipReplaceError;
use crate::text::decimal;
use crate::text::decimal_text;
use vstd::prelude::*;
use vstd::string::StringExecFns;

verus! {

/// Why the consensus verifier refused a header. The code is the verifier's own.
#[derive(Clone, Copy, Debug, PartialEq, Eq, Structural)]
pub struct ConsensusError {
    pub code: u32,
}

/// What the consensus verifier said of a header.
#[derive(Clone, Copy, Debug, PartialEq, Eq, Structural)]
pub enum Verification {
    Success,
    Failure(ConsensusError),
}

/// Why a block could not be applied to the ledger state of its parent.
#[derive(Clone, Copy, Debug, PartialEq, Eq, Structural)]
pub enum LedgerError {
    /// The chain length of the block does not follow that of its parent.
    WrongChainLength { actual: ChainLength, parent: ChainLength },
    /// The ledger refused the contents of the block. The code is the ledger's own.
    InvalidContent { code: u32 },
}

/// Why the settings of the chain could not be read off its first block.
#[derive(Clone, Copy, Debug, PartialEq, Eq, Structural)]
pub enum Block0Error {
    NoStartTime,
    NoSlotDuration,
    /// The slot duration is zero.
    InvalidSlotDuration,
}

/// What the first block fixes of the clock of the chain.
#[derive(Clone, Copy, Debug, PartialEq, Eq, Structural)]
pub struct Block0Settings {
    /// The start of the chain, in seconds since the Unix epoch.
    pub start_time: Option<u64>,
    /// The length of a slot in seconds.
    pub slot_duration: Option<u64>,
}

/// Why the chain could not be brought up.
#[allow(inconsistent_fields)]
#[derive(Clone, Copy, Debug, PartialEq, Eq, Structural)]
pub enum LoadError {
    Storage { source: StorageError },
    Ledger { source: LedgerError },
    Block0 { source: Block0Error },
}

/// Why a block that passed triage could not be taken in.
#[allow(inconsistent_fields)]
#[derive(Clone, Copy, Debug, PartialEq, Eq, Structural)]
pub enum HandleBlockError {
    Storage { source: StorageError },
    Ledger { source: LedgerError },
    InternalTip { source: TipReplaceError },
}

/// Why a block is of no interest.
#[derive(Clone, Copy, Debug, PartialEq, Eq, Structural)]
pub enum RejectionReason {
    AlreadyPresent,
    BeyondStabilityDepth,
    Consensus { error: ConsensusError },
}

/// What became of a block that was offered.
#[derive(Clone, Copy, Debug, PartialEq, Eq, Structural)]
pub enum HandledBlock {
    /// The block has been rejected.
    Rejected { reason: RejectionReason },
    /// The block waits in the orphan buffer; the blocks up to `to` are
    /// needed from the network before it can be applied.
    MissingBranchToBlock { to: HeaderHash },
    /// The block has been acquired and may be passed on to the network.
    Acquired { header: Header },
}

/// What is to be done with a block, judged by its header.
#[derive(Clone, Copy, Debug, PartialEq, Eq, Structural)]
pub enum BlockHeaderTriage {
    /// The block is of no interest for this chain.
    NotOfInterest { reason: RejectionReason },
    /// The block does not connect to a known ledger state; it is to be kept
    /// aside while the chain up to `to` is fetched.
    MissingParentOrBranch { to: HeaderHash },
    /// The block can be applied to the ledger state of its parent.
    ProcessBlockToState,
}

/// A schedule that is either lent by the registry or was built for the occasion.
pub enum Borrow<'a, D> {
    Borrowed(&'a D),
    Owned(D),
}

impl<'a, D> Borrow<'a, D> {
    pub open spec fn value(&self) -> D {
        match self {
            Borrow::Borrowed(d) => **d,
            Borrow::Owned(d) => *d,
        }
    }

    pub fn get(&self) -> (d: &D)
        ensures
            *d == self.value(),
    {
        match self {
            Borrow::Borrowed(d) => d,
            Borrow::Owned(d) => d,
        }
    }
}

/// The chain of the node: the archive of blocks, the live ledger states of
/// type `L`, the schedules of type `D`, the tip and the blocks that wait for
/// their parent.
pub struct Blockchain<L, D> {
    /// The archive of the blocks of all chains.
    pub storage: BlockStore,
    pub multiverse: Multiverse<L>,
    pub leaderships: Leaderships<D>,
    /// The tip of the favoured chain; it moves as consensus goes.
    pub tip: Tip<L>,
    pub time_frame: TimeFrame,
    /// Incoming blocks whose parent is not known yet, by the hash of that parent.
    pub unconnected_blocks: OrphanBuffer,
}

/// The name of the tag that mirrors the tip in the archive.
pub const LOCAL_BLOCKCHAIN_TIP_TAG: &'static str = "tip";

/// The name of the tag that mirrors the tip in the archive.
pub open spec fn tip_tag() -> Seq<char> {
    LOCAL_BLOCKCHAIN_TIP_TAG@
}

/// The epoch before which a tip candidate is too old, given the epoch of the tip.
pub open spec fn stability_horizon(tip_epoch: Epoch) -> Epoch {
    if tip_epoch >= 2 {
        (tip_epoch - 2) as u32
    } else {
        0
    }
}

impl<L: Clone, D> Blockchain<L, D> {
    pub open spec fn tip_branch(&self) -> Branch<L> {
        self.tip@.unwrap()
    }

    pub open spec fn tip_hash(&self) -> HeaderHash {
        self.tip@.unwrap().spec_hash()
    }

    /// What holds of the chain at all times: every ledger state belongs to
    /// a block of the archive; the tip is one of them, it alone is pinned,
    /// its length is its depth in the archive, and no state lies on a
    /// longer chain; and the archive's tag names the tip.
    pub open spec fn wf(&self) -> bool {
        &&& self.storage.wf()
        &&& self.multiverse.wf()
        &&& self.leaderships.wf()
        &&& self.unconnected_blocks.wf()
        &&& self.time_frame.wf()
        &&& self.tip@ is Some
        &&& self.multiverse.contains(self.tip_hash())
        &&& cloned(self.multiverse.state(self.tip_hash()), self.tip_branch().state)
        &&& self.tip_branch().chain_length == self.storage@.depth(self.tip_hash())
        &&& forall|h: HeaderHash| #[trigger]
            self.multiverse.contains(h) ==> {
                &&& self.storage@.contains(h)
                &&& self.storage@.depth(h) <= self.tip_branch().chain_length
                &&& self.multiverse.roots(h) == if h == self.tip_hash() {
                    1u64
                } else {
                    0u64
                }
            }
        &&& forall|i: int|
            0 <= i < self.leaderships@.len() ==> (#[trigger] self.leaderships@[i]).roots <= 1
        &&& self.storage@.tags.dom().contains(tip_tag())
        &&& self.storage@.tags[tip_tag()] == self.tip_hash()
    }

    /// The ledger state after the block `hash`, if it is still live.
    pub fn get_ledger(&self, hash: &HeaderHash) -> (r: Option<&L>)
        requires
            self.multiverse.wf(),
        ensures
            match r {
                Some(state) => self.multiverse.contains(*hash) && *state == self.multiverse.state(
                    *hash,
                ),
                None => !self.multiverse.contains(*hash),
            },
    {
        self.multiverse.get(hash)
    }

    /// The hash of the block at the tip.
    pub fn get_tip(&self) -> (r: Result<HeaderHash, TipGetError>)
        ensures
            match r {
                Ok(h) => self.tip@ is Some && h == self.tip_hash(),
                Err(_) => self.tip@ is None,
            },
    {
        self.tip.hash()
    }

    pub fn get_block(&self, hash: &HeaderHash) -> (r: Result<(&Block, BlockInfo), StorageError>)
        requires
            self.storage.wf(),
        ensures
            match r {
                Ok((block, info)) => self.storage@.contains(*hash) && *block == self.storage@.block(
                    *hash,
                ) && info == self.storage@.info(*hash),
                Err(e) => !self.storage@.contains(*hash) && e == StorageError::BlockNotFound,
            },
    {
        self.storage.get_block(hash)
    }

    /// The block at the tip and its record in the archive.
    pub fn get_block_tip(&self) -> (r: Result<(&Block, BlockInfo), StorageError>)
        requires
            self.storage.wf(),
            self.tip@ is Some,
        ensures
            match r {
                Ok((block, info)) => self.storage@.contains(self.tip_hash()) && *block
                    == self.storage@.block(self.tip_hash()) && info == self.storage@.info(
                    self.tip_hash(),
                ),
                Err(e) => !self.storage@.contains(self.tip_hash()) && e
                    == StorageError::BlockNotFound,
            },
    {
        match self.tip.hash() {
            Ok(hash) => self.storage.get_block(&hash),
            Err(_) => Err(StorageError::BlockNotFound),
        }
    }

    pub fn block_exists(&self, block_hash: &HeaderHash) -> (r: Result<bool, StorageError>)
        requires
            self.storage.wf(),
        ensures
            r == Ok::<bool, StorageError>(self.storage@.contains(*block_hash)),
    {
        Ok(self.storage.block_exists(block_hash))
    }

    /// The schedule of `epoch` on the longest chain that has entered it.
    pub fn get_leadership(&self, epoch: Epoch) -> (r: Option<Borrow<'_, D>>)
        requires
            self.leaderships.wf(),
        ensures
            match r {
                Some(found) => of_epoch(self.leaderships@, epoch).len() > 0 && found.value()
                    == of_epoch(self.leaderships@, epoch)[0].leadership,
                None => of_epoch(self.leaderships@, epoch).len() == 0,
            },
    {
        match self.leaderships.first(epoch) {
            Some((_, leadership)) => Some(Borrow::Borrowed(leadership)),
            None => None,
        }
    }

    /// A schedule for `epoch`, built from the ledger state after the block
    /// `parent_hash`; none where that state is not live.
    pub fn build_leadership<B: Fn(Epoch, &L) -> D>(
        &self,
        epoch: Epoch,
        parent_hash: &HeaderHash,
        build: &B,
    ) -> (r: Option<D>)
        requires
            self.multiverse.wf(),
            self.multiverse.contains(*parent_hash) ==> call_requires(
                *build,
                (epoch, &self.multiverse.state(*parent_hash)),
            ),
        ensures
            match r {
                Some(d) => self.multiverse.contains(*parent_hash) && call_ensures(
                    *build,
                    (epoch, &self.multiverse.state(*parent_hash)),
                    d,
                ),
                None => !self.multiverse.contains(*parent_hash),
            },
    {
        match self.get_ledger(parent_hash) {
            Some(ledger) => Some(build(epoch, ledger)),
            None => None,
        }
    }

    /// What `get_leadership_or_build` may hand back.
    pub open spec fn leadership_for<B: Fn(Epoch, &L) -> D>(
        &self,
        epoch: Epoch,
        parent_hash: HeaderHash,
        build: &B,
        found: Option<D>,
    ) -> bool {
        if of_epoch(self.leaderships@, epoch).len() > 0 {
            found == Some(of_epoch(self.leaderships@, epoch)[0].leadership)
        } else if self.multiverse.contains(parent_hash) {
            found is Some && call_ensures(
                *build,
                (epoch, &self.multiverse.state(parent_hash)),
                found.unwrap(),
            )
        } else {
            found is None
        }
    }

    /// The schedule of `epoch` from the registry, or else one built from
    /// the ledger state after the block `parent_hash`. There is none only
    /// where the registry has none for the epoch and that state is not live.
    pub fn get_leadership_or_build<B: Fn(Epoch, &L) -> D>(
        &self,
        epoch: Epoch,
        parent_hash: &HeaderHash,
        build: &B,
    ) -> (r: Option<Borrow<'_, D>>)
        requires
            self.leaderships.wf(),
            self.multiverse.wf(),
            self.multiverse.contains(*parent_hash) ==> call_requires(
                *build,
                (epoch, &self.multiverse.state(*parent_hash)),
            ),
        ensures
            self.leadership_for(
                epoch,
                *parent_hash,
                build,
                match r {
                    Some(found) => Some(found.value()),
                    None => None,
                },
            ),
    {
        match self.get_leadership(epoch) {
            Some(found) => Some(found),
            None => match self.build_leadership(epoch, parent_hash, build) {
                Some(built) => Some(Borrow::Owned(built)),
                None => None,
            },
        }
    }
}

impl<L: Clone, D> Blockchain<L, D> {
    /// The epoch of the block at the tip.
    pub open spec fn tip_epoch(&self) -> Epoch {
        self.storage@.block(self.tip_hash()).header.date.epoch
    }

    /// What is to be done with a header, given what the consensus verifier
    /// said of it, or `None` where no schedule could be had to verify it
    /// against. The checks come in this order: a block of the archive is
    /// turned away; then a header that failed verification; then a tip
    /// candidate more than two epochs behind the tip; then, where the
    /// parent or its ledger state is not known, or no schedule was to be
    /// had, the block is set aside until its parent is admitted; what is
    /// left can be applied.
    pub open spec fn triage_of(
        &self,
        header: Header,
        is_tip_candidate: bool,
        verification: Option<Verification>,
    ) -> BlockHeaderTriage {
        if self.storage@.contains(header.hash) {
            BlockHeaderTriage::NotOfInterest { reason: RejectionReason::AlreadyPresent }
        } else if let Some(Verification::Failure(error)) = verification {
            BlockHeaderTriage::NotOfInterest { reason: RejectionReason::Consensus { error } }
        } else if is_tip_candidate && header.date.epoch < stability_horizon(self.tip_epoch()) {
            BlockHeaderTriage::NotOfInterest { reason: RejectionReason::BeyondStabilityDepth }
        } else if verification is None || !self.storage@.contains(header.parent_hash)
            || !self.multiverse.contains(header.parent_hash) {
            BlockHeaderTriage::MissingParentOrBranch { to: header.parent_hash }
        } else {
            BlockHeaderTriage::ProcessBlockToState
        }
    }

    /// Decides what is to be done with a header, given the verifier's verdict.
    pub fn triage(
        &self,
        header: &Header,
        is_tip_candidate: bool,
        verification: Option<Verification>,
    ) -> (t: BlockHeaderTriage)
        requires
            self.wf(),
        ensures
            t == self.triage_of(*header, is_tip_candidate, verification),
    {
        if self.storage.block_exists(&header.hash) {
            return BlockHeaderTriage::NotOfInterest { reason: RejectionReason::AlreadyPresent };
        }
        let tip_epoch = match self.get_block_tip() {
            Ok((block, _)) => block.header.date.epoch,
            Err(_) => 0,
        };
        match verification {
            Some(Verification::Failure(error)) => {
                return BlockHeaderTriage::NotOfInterest {
                    reason: RejectionReason::Consensus { error },
                };
            },
            _ => {},
        }
        let horizon = if tip_epoch >= 2 {
            tip_epoch - 2
        } else {
            0
        };
        if is_tip_candidate && header.date.epoch < horizon {
            return BlockHeaderTriage::NotOfInterest {
                reason: RejectionReason::BeyondStabilityDepth,
            };
        }
        if verification.is_none() || !self.storage.block_exists(&header.parent_hash)
            || self.multiverse.get(&header.parent_hash).is_none() {
            return BlockHeaderTriage::MissingParentOrBranch { to: header.parent_hash };
        }
        BlockHeaderTriage::ProcessBlockToState
    }

    /// Whether `verification` can be what came of verifying `header`: the
    /// verdict of `verify` on the schedule that `get_leadership_or_build`
    /// hands back, or `None` where it hands back none.
    pub open spec fn verdict_of<B: Fn(Epoch, &L) -> D, V: Fn(&D, &Header) -> Verification>(
        &self,
        header: Header,
        build: &B,
        verify: &V,
        verification: Option<Verification>,
    ) -> bool {
        exists|found: Option<D>| #[trigger]
            self.leadership_for(header.date.epoch, header.parent_hash, build, found) && match found {
                Some(d) => verification is Some && call_ensures(
                    *verify,
                    (&d, &header),
                    verification.unwrap(),
                ),
                None => verification is None,
            }
    }
}

/// Decides whether a block is worth applying, from its header alone: it
/// looks up or builds the schedule of the header's epoch, has the header
/// verified against it where there is one, and decides as `triage_of` says.
pub fn header_triage<L: Clone, D, B: Fn(Epoch, &L) -> D, V: Fn(&D, &Header) -> Verification>(
    blockchain: &Blockchain<L, D>,
    header: &Header,
    is_tip_candidate: bool,
    build: &B,
    verify: &V,
) -> (r: Result<BlockHeaderTriage, HandleBlockError>)
    requires
        blockchain.wf(),
        forall|e: Epoch, s: &L| call_requires(*build, (e, s)),
        forall|d: &D, h: &Header| call_requires(*verify, (d, h)),
    ensures
        match r {
            Ok(t) => if blockchain.storage@.contains(header.hash) {
                t == (BlockHeaderTriage::NotOfInterest { reason: RejectionReason::AlreadyPresent })
            } else {
                exists|v: Option<Verification>| #[trigger]
                    blockchain.verdict_of(*header, build, verify, v) && t == blockchain.triage_of(
                        *header,
                        is_tip_candidate,
                        v,
                    )
            },
            Err(_) => false,
        },
{
    if blockchain.storage.block_exists(&header.hash) {
        return Ok(BlockHeaderTriage::NotOfInterest { reason: RejectionReason::AlreadyPresent });
    }
    let leadership = blockchain.get_leadership_or_build(
        header.date.epoch,
        &header.parent_hash,
        build,
    );
    let verification = match &leadership {
        Some(found) => Some(verify(found.get(), header)),
        None => None,
    };
    proof {
        let found = match leadership {
            Some(found) => Some(found.value()),
            None => None,
        };
        assert(blockchain.leadership_for(header.date.epoch, header.parent_hash, build, found));
        assert(blockchain.verdict_of(*header, build, verify, verification));
    }
    Ok(blockchain.triage(header, is_tip_candidate, verification))
}

impl<L: Clone, D> Blockchain<L, D> {
    /// Nothing that the chain holds differs from what `before` holds.
    pub open spec fn unchanged(&self, before: &Blockchain<L, D>) -> bool {
        &&& self.storage@ == before.storage@
        &&& self.multiverse@ == before.multiverse@
        &&& self.leaderships@ == before.leaderships@
        &&& self.tip@ == before.tip@
        &&& self.time_frame == before.time_frame
        &&& self.unconnected_blocks@ == before.unconnected_blocks@
    }

    /// The blocks of the archive once `block` has been filed.
    pub open spec fn blocks_with(&self, block: Block) -> Map<HeaderHash, Block> {
        if self.storage@.contains(block.header.hash) {
            self.storage@.blocks
        } else {
            self.storage@.blocks.insert(block.header.hash, block)
        }
    }

    /// The ledger states once the handle of the tip has been given back.
    pub open spec fn states_without_tip_handle(&self) -> Map<HeaderHash, Entry<L>> {
        if self.tip@ is Some && pinned(self.multiverse@, self.tip_hash()) {
            self.multiverse@.insert(self.tip_hash(), self.multiverse.released(self.tip_hash()))
        } else {
            self.multiverse@
        }
    }

    /// Files a block in the archive; nothing else changes.
    pub fn put_block(&mut self, block: Block) -> (r: Result<(), StorageError>)
        requires
            old(self).storage.wf(),
        ensures
            final(self).storage.wf(),
            r == old(self).storage.put_outcome(block.header),
            final(self).storage@.tags == old(self).storage@.tags,
            final(self).storage@.blocks == if r is Ok {
                old(self).blocks_with(block)
            } else {
                old(self).storage@.blocks
            },
            final(self).multiverse == old(self).multiverse,
            final(self).leaderships == old(self).leaderships,
            final(self).tip == old(self).tip,
            final(self).time_frame == old(self).time_frame,
            final(self).unconnected_blocks == old(self).unconnected_blocks,
    {
        self.storage.put_block(block)
    }

    /// Makes `branch` the tip, where `block` is the block it ends with: the
    /// block is filed, then the archive's tag is pointed at it, then the
    /// branch is installed and the handle of the branch it replaces is
    /// given back. A step that fails leaves the steps before it done.
    pub fn put_tip(&mut self, branch: Branch<L>, block: Block) -> (r: Result<(), HandleBlockError>)
        requires
            old(self).storage.wf(),
            old(self).multiverse.wf(),
        ensures
            final(self).storage.wf(),
            final(self).multiverse.wf(),
            final(self).leaderships == old(self).leaderships,
            final(self).time_frame == old(self).time_frame,
            final(self).unconnected_blocks == old(self).unconnected_blocks,
            match r {
                Ok(()) => {
                    &&& old(self).storage.put_outcome(block.header) is Ok
                    &&& old(self).tip.admits(branch)
                    &&& final(self).storage@.blocks == old(self).blocks_with(block)
                    &&& final(self).storage@.tags == old(self).storage@.tags.insert(
                        tip_tag(),
                        block.header.hash,
                    )
                    &&& final(self).tip@ == Some(branch)
                    &&& final(self).multiverse@ == old(self).states_without_tip_handle()
                },
                Err(HandleBlockError::Storage { source }) => {
                    &&& old(self).storage.put_outcome(block.header) == Err::<(), StorageError>(
                        source,
                    )
                    &&& final(self).unchanged(old(self))
                },
                Err(HandleBlockError::InternalTip { source }) => {
                    &&& old(self).storage.put_outcome(block.header) is Ok
                    &&& !old(self).tip.admits(branch)
                    &&& final(self).storage@.blocks == old(self).blocks_with(block)
                    &&& final(self).storage@.tags == old(self).storage@.tags.insert(
                        tip_tag(),
                        block.header.hash,
                    )
                    &&& final(self).tip@ == old(self).tip@
                    &&& final(self).multiverse@ == old(self).multiverse@
                },
                Err(HandleBlockError::Ledger { source }) => false,
            },
    {
        let hash = block.header.hash;
        match self.storage.put_block(block) {
            Ok(()) => {},
            Err(source) => {
                return Err(HandleBlockError::Storage { source });
            },
        }
        self.storage.put_tag(LOCAL_BLOCKCHAIN_TIP_TAG, hash);
        match self.tip.replace_with(branch) {
            Ok(previous) => {
                match previous {
                    Some(replaced) => {
                        self.multiverse.release(replaced.root);
                    },
                    None => {},
                }
                Ok(())
            },
            Err(source) => Err(HandleBlockError::InternalTip { source }),
        }
    }

    /// Whether the block enters an epoch later than that of its parent.
    pub open spec fn crosses_epoch(&self, header: Header) -> bool {
        header.date.epoch > self.storage@.block(header.parent_hash).header.date.epoch
    }

    /// Whether the block is longer than the tip and so takes its place.
    pub open spec fn wins(&self, header: Header) -> bool {
        header.chain_length > self.tip_branch().chain_length
    }

    /// What accepting `block` with the ledger state `state` makes of the
    /// chain `self`, namely `after`: the block is in the archive; its state
    /// is live; a schedule handed in is noted under the epoch that the
    /// block enters; and where the block is longer than the tip, it is the
    /// new tip, pinned and tagged, while the old tip is no longer pinned.
    /// A block that is not longer leaves the tip alone.
    pub open spec fn accepted(
        &self,
        after: &Blockchain<L, D>,
        block: Block,
        state: L,
        leadership: Option<D>,
    ) -> bool {
        let header = block.header;
        &&& after.storage@.blocks == self.storage@.blocks.insert(header.hash, block)
        &&& after.leaderships@ == match leadership {
            Some(d) => noted(
                self.leaderships@,
                LeadershipKey {
                    epoch: header.date.epoch,
                    chain_length: header.chain_length,
                    anchor: header.parent_hash,
                },
                d,
            ),
            None => self.leaderships@,
        }
        &&& after.time_frame == self.time_frame
        &&& after.unconnected_blocks@ == self.unconnected_blocks@
        &&& if self.wins(header) {
            &&& after.storage@.tags == self.storage@.tags.insert(tip_tag(), header.hash)
            &&& after.multiverse@ == self.multiverse@.insert(
                self.tip_hash(),
                Entry { state: self.multiverse.state(self.tip_hash()), roots: 0 },
            ).insert(header.hash, Entry { state, roots: 1 })
            &&& after.tip@ is Some
            &&& after.tip_hash() == header.hash
            &&& after.tip_branch().chain_length == header.chain_length
            &&& cloned(state, after.tip_branch().state)
        } else {
            &&& after.storage@.tags == self.storage@.tags
            &&& after.multiverse@ == self.multiverse@.insert(header.hash, Entry { state, roots: 0 })
            &&& after.tip@ == self.tip@
        }
    }

    /// Takes in a block whose header passed triage, given the ledger state
    /// that applying it to the state of its parent gave, and the schedule
    /// of the epoch it enters where that is later than its parent's.
    pub fn accept(&mut self, block: Block, state: L, leadership: Option<D>) -> (r: Result<
        HandledBlock,
        HandleBlockError,
    >)
        requires
            old(self).wf(),
            !old(self).storage@.contains(block.header.hash),
            old(self).storage@.contains(block.header.parent_hash),
            old(self).multiverse.contains(block.header.parent_hash),
            block.header.chain_length == old(self).storage@.depth(block.header.parent_hash) + 1,
            leadership is Some <==> old(self).crosses_epoch(block.header),
        ensures
            final(self).wf(),
            r == Ok::<HandledBlock, HandleBlockError>(
                HandledBlock::Acquired { header: block.header },
            ),
            old(self).accepted(final(self), block, state, leadership),
    {
        let header = block.header;
        let ghost before = *self;
        let ghost key = LeadershipKey {
            epoch: header.date.epoch,
            chain_length: header.chain_length,
            anchor: header.parent_hash,
        };
        match leadership {
            Some(d) => {
                proof {
                    lemma_key_index(self.leaderships@, key);
                    lemma_noted(self.leaderships@, key, d);
                    lemma_noted_roots(self.leaderships@, key, d);
                }
                let root = self.leaderships.add(
                    header.date.epoch,
                    header.chain_length,
                    header.parent_hash,
                    d,
                );
                self.leaderships.release(root);
            },
            None => {},
        }
        let tip_length = match self.tip.branch() {
            Ok(branch) => branch.chain_length,
            Err(_) => 0,
        };
        let cached = state.clone();
        let root = self.multiverse.add(header.hash, state);
        let branch = Branch::new(root, header.chain_length, cached);
        if header.chain_length > tip_length {
            match self.put_tip(branch, block) {
                Ok(()) => {},
                Err(e) => {
                    return Err(e);
                },
            }
            proof {
                assert(self.multiverse@ =~= before.multiverse@.insert(
                    before.tip_hash(),
                    Entry { state: before.multiverse.state(before.tip_hash()), roots: 0 },
                ).insert(header.hash, Entry { state, roots: 1 }));
            }
        } else {
            self.multiverse.release(branch.root);
            match self.put_block(block) {
                Ok(()) => {},
                Err(source) => {
                    return Err(HandleBlockError::Storage { source });
                },
            }
            proof {
                assert(self.multiverse@ =~= before.multiverse@.insert(
                    header.hash,
                    Entry { state, roots: 0 },
                ));
            }
        }
        proof {
            assert forall|h: HeaderHash| #[trigger] self.multiverse.contains(h) implies {
                &&& self.storage@.contains(h)
                &&& self.storage@.depth(h) <= self.tip_branch().chain_length
                &&& self.multiverse.roots(h) == if h == self.tip_hash() {
                    1u64
                } else {
                    0u64
                }
            } by {
                if h != header.hash {
                    assert(before.multiverse.contains(h));
                }
            }
        }
        Ok(HandledBlock::Acquired { header })
    }
}

impl<L: Clone, D> Blockchain<L, D> {
    /// What `process_block` makes of the chain `self`, namely `after`, and
    /// what it answers with, whatever the ledger and the schedule builder
    /// hand back. A block whose chain length does not follow its parent's
    /// is refused before the ledger is asked, and so is one that the ledger
    /// refuses; both leave the chain as it was. Any other block is taken in
    /// with the state that the ledger gave, and with a schedule built from
    /// the parent's state where it enters a later epoch.
    pub open spec fn processed<A: Fn(&L, &Block) -> Result<L, LedgerError>, B: Fn(Epoch, &L) -> D>(
        &self,
        after: &Blockchain<L, D>,
        block: Block,
        answer: Result<HandledBlock, HandleBlockError>,
        apply: &A,
        build: &B,
    ) -> bool {
        let header = block.header;
        let parent_state = self.multiverse.state(header.parent_hash);
        if header.chain_length != self.storage@.depth(header.parent_hash) + 1 {
            &&& after.unchanged(self)
            &&& answer == Err::<HandledBlock, HandleBlockError>(
                HandleBlockError::Ledger {
                    source: LedgerError::WrongChainLength {
                        actual: header.chain_length,
                        parent: self.storage@.block(header.parent_hash).header.chain_length,
                    },
                },
            )
        } else {
            match answer {
                Ok(handled) => {
                    &&& handled == (HandledBlock::Acquired { header })
                    &&& exists|state: L, leadership: Option<D>|
                        {
                            &&& #[trigger] self.accepted(after, block, state, leadership)
                            &&& call_ensures(*apply, (&parent_state, &block), Ok(state))
                            &&& match leadership {
                                Some(d) => self.crosses_epoch(header) && call_ensures(
                                    *build,
                                    (header.date.epoch, &parent_state),
                                    d,
                                ),
                                None => !self.crosses_epoch(header),
                            }
                        }
                },
                Err(HandleBlockError::Ledger { source }) => {
                    &&& after.unchanged(self)
                    &&& call_ensures(*apply, (&parent_state, &block), Err(source))
                },
                Err(_) => false,
            }
        }
    }
}

/// Applies a block whose header passed triage to the ledger state of its
/// parent and takes it in: the new state becomes live, a schedule is noted
/// where the block enters a later epoch than its parent, the block is filed,
/// and where it is longer than the tip it becomes the tip.
pub fn process_block<
    L: Clone,
    D,
    A: Fn(&L, &Block) -> Result<L, LedgerError>,
    B: Fn(Epoch, &L) -> D,
>(blockchain: &mut Blockchain<L, D>, block: Block, apply: &A, build: &B) -> (r: Result<
    HandledBlock,
    HandleBlockError,
>)
    requires
        old(blockchain).wf(),
        !old(blockchain).storage@.contains(block.header.hash),
        old(blockchain).storage@.contains(block.header.parent_hash),
        old(blockchain).multiverse.contains(block.header.parent_hash),
        forall|s: &L, b: &Block| call_requires(*apply, (s, b)),
        forall|e: Epoch, s: &L| call_requires(*build, (e, s)),
    ensures
        final(blockchain).wf(),
        old(blockchain).processed(final(blockchain), block, r, apply, build),
{
    let header = block.header;
    let (parent_length, parent_epoch) = match blockchain.storage.get_block(&header.parent_hash) {
        Ok((parent, _)) => (parent.header.chain_length, parent.header.date.epoch),
        Err(source) => {
            return Err(HandleBlockError::Storage { source });
        },
    };
    if parent_length == u32::MAX || header.chain_length != parent_length + 1 {
        return Err(
            HandleBlockError::Ledger {
                source: LedgerError::WrongChainLength {
                    actual: header.chain_length,
                    parent: parent_length,
                },
            },
        );
    }
    let (applied, leadership) = match blockchain.multiverse.get(&header.parent_hash) {
        Some(parent_state) => {
            let applied = apply(parent_state, &block);
            let leadership = if applied.is_ok() && header.date.epoch > parent_epoch {
                Some(build(header.date.epoch, parent_state))
            } else {
                None
            };
            (applied, leadership)
        },
        None => {
            return Err(HandleBlockError::Storage { source: StorageError::BlockNotFound });
        },
    };
    let state = match applied {
        Ok(state) => state,
        Err(source) => {
            return Err(HandleBlockError::Ledger { source });
        },
    };
    let r = blockchain.accept(block, state, leadership);
    proof {
        assert(old(blockchain).accepted(blockchain, block, state, leadership));
    }
    r
}

impl<L: Clone, D> Blockchain<L, D> {
    /// What `handle_block` makes of the chain `self`, namely `after`, and
    /// what it answers with, once triage has decided: a block of no
    /// interest is rejected and nothing changes; a block that cannot be
    /// connected is filed in the orphan buffer under its parent's hash,
    /// with the hash of that parent as the end of the branch to fetch; any
    /// other block is processed.
    pub open spec fn handled<A: Fn(&L, &Block) -> Result<L, LedgerError>, B: Fn(Epoch, &L) -> D>(
        &self,
        after: &Blockchain<L, D>,
        block: Block,
        decision: BlockHeaderTriage,
        answer: Result<HandledBlock, HandleBlockError>,
        apply: &A,
        build: &B,
    ) -> bool {
        match decision {
            BlockHeaderTriage::NotOfInterest { reason } => {
                &&& after.unchanged(self)
                &&& answer == Ok::<HandledBlock, HandleBlockError>(HandledBlock::Rejected { reason })
            },
            BlockHeaderTriage::MissingParentOrBranch { to } => {
                &&& answer == Ok::<HandledBlock, HandleBlockError>(
                    HandledBlock::MissingBranchToBlock { to },
                )
                &&& after.unconnected_blocks@ == self.unconnected_blocks@.insert(
                    block.header.parent_hash,
                    self.unconnected_blocks.waiting_for(block.header.parent_hash).insert(
                        block.header.hash,
                        block,
                    ),
                )
                &&& after.storage@ == self.storage@
                &&& after.multiverse@ == self.multiverse@
                &&& after.leaderships@ == self.leaderships@
                &&& after.tip@ == self.tip@
                &&& after.time_frame == self.time_frame
            },
            BlockHeaderTriage::ProcessBlockToState => self.processed(
                after,
                block,
                answer,
                apply,
                build,
            ),
        }
    }
}

/// Takes a block from the network or from a local leader, offered as a
/// candidate for the tip or not, and does with it what triage decides.
pub fn handle_block<
    L: Clone,
    D,
    B: Fn(Epoch, &L) -> D,
    V: Fn(&D, &Header) -> Verification,
    A: Fn(&L, &Block) -> Result<L, LedgerError>,
>(
    blockchain: &mut Blockchain<L, D>,
    block: Block,
    is_tip_candidate: bool,
    build: &B,
    verify: &V,
    apply: &A,
) -> (r: Result<HandledBlock, HandleBlockError>)
    requires
        old(blockchain).wf(),
        forall|e: Epoch, s: &L| call_requires(*build, (e, s)),
        forall|d: &D, h: &Header| call_requires(*verify, (d, h)),
        forall|s: &L, b: &Block| call_requires(*apply, (s, b)),
    ensures
        final(blockchain).wf(),
        if old(blockchain).storage@.contains(block.header.hash) {
            &&& final(blockchain).unchanged(old(blockchain))
            &&& r == Ok::<HandledBlock, HandleBlockError>(
                HandledBlock::Rejected { reason: RejectionReason::AlreadyPresent },
            )
        } else {
            exists|v: Option<Verification>| #[trigger]
                old(blockchain).verdict_of(block.header, build, verify, v) && old(
                    blockchain,
                ).handled(
                    final(blockchain),
                    block,
                    old(blockchain).triage_of(block.header, is_tip_candidate, v),
                    r,
                    apply,
                    build,
                )
        },
{
    let header = block.header;
    let decision = match header_triage(blockchain, &header, is_tip_candidate, build, verify) {
        Ok(decision) => decision,
        Err(e) => {
            return Err(e);
        },
    };
    let ghost v = if blockchain.storage@.contains(header.hash) {
        None
    } else {
        choose|v: Option<Verification>| #[trigger]
            blockchain.verdict_of(header, build, verify, v) && decision == blockchain.triage_of(
                header,
                is_tip_candidate,
                v,
            )
    };
    match decision {
        BlockHeaderTriage::NotOfInterest { reason } => Ok(HandledBlock::Rejected { reason }),
        BlockHeaderTriage::MissingParentOrBranch { to } => {
            blockchain.unconnected_blocks.insert(block);
            Ok(HandledBlock::MissingBranchToBlock { to })
        },
        BlockHeaderTriage::ProcessBlockToState => {
            let r = process_block(blockchain, block, apply, build);
            proof {
                assert(old(blockchain).verdict_of(block.header, build, verify, v) && old(
                    blockchain,
                ).handled(
                    blockchain,
                    block,
                    old(blockchain).triage_of(block.header, is_tip_candidate, v),
                    r,
                    apply,
                    build,
                ));
            }
            r
        },
    }
}

/// The epoch that is open at `now` on the clock of the chain, if the clock
/// has one for that time.
pub open spec fn epoch_at(time_frame: TimeFrame, era: TimeEra, now: u64) -> Option<Epoch> {
    match time_frame.spec_slot_at(now) {
        Some(slot) => match era.spec_from_slot_to_era(slot) {
            Some(date) => Some(date.epoch),
            None => None,
        },
        None => None,
    }
}

impl<L: Clone, D> Blockchain<L, D> {
    /// The hashes to offer a peer for it to find the latest block it shares
    /// with this chain: the tip, then the blocks 1, 2, 4, 8 and so on links
    /// above it, and genesis last.
    pub fn get_checkpoints(&self) -> (r: Result<Vec<HeaderHash>, StorageError>)
        requires
            self.wf(),
        ensures
            match r {
                Ok(hashes) => {
                    &&& hashes@.len() == checkpoint_offsets(
                        self.tip_branch().chain_length as nat,
                    ).len()
                    &&& forall|i: int|
                        0 <= i < hashes@.len() ==> self.storage@.ancestor(
                            self.tip_hash(),
                            checkpoint_offsets(self.tip_branch().chain_length as nat)[i],
                        ) == Some(#[trigger] hashes@[i])
                },
                Err(_) => false,
            },
    {
        match self.tip.hash() {
            Ok(tip) => sample(&self.storage, &tip),
            Err(_) => Err(StorageError::BlockNotFound),
        }
    }

    /// What the scheduler of leader duties is to be told at startup: the
    /// epoch that is open at `now`, a time in seconds since the Unix epoch,
    /// with the clock of the chain and a copy of the ledger state at the
    /// tip. There is nothing to tell where the clock has no epoch for `now`.
    pub fn initial(&self, now: u64, era: &TimeEra) -> (r: Option<EpochParameters<L>>)
        requires
            self.wf(),
            era.wf(),
        ensures
            match r {
                Some(event) => {
                    &&& epoch_at(self.time_frame, *era, now) == Some(event.epoch)
                    &&& event.time_frame == self.time_frame
                    &&& cloned(self.multiverse.state(self.tip_hash()), event.ledger_reference)
                },
                None => epoch_at(self.time_frame, *era, now) is None,
            },
    {
        let slot = match self.time_frame.slot_at(now) {
            Some(slot) => slot,
            None => {
                return None;
            },
        };
        let date = match era.from_slot_to_era(slot) {
            Some(date) => date,
            None => {
                return None;
            },
        };
        let tip = match self.tip.hash() {
            Ok(tip) => tip,
            Err(_) => {
                return None;
            },
        };
        match self.multiverse.get(&tip) {
            Some(state) => Some(
                EpochParameters {
                    epoch: date.epoch,
                    time_frame: self.time_frame,
                    ledger_reference: state.clone(),
                },
            ),
            None => None,
        }
    }
}

/// What the scheduler of leader duties is to be told when `epoch` ends: the
/// number of the epoch that opens, with the clock of the chain and a copy of
/// the ledger state at the tip.
pub fn handle_end_of_epoch_event<L: Clone, D>(blockchain: &Blockchain<L, D>, epoch: Epoch) -> (r:
    Result<EpochParameters<L>, HandleBlockError>)
    requires
        blockchain.wf(),
        epoch < u32::MAX,
    ensures
        match r {
            Ok(event) => {
                &&& event.epoch == epoch + 1
                &&& event.time_frame == blockchain.time_frame
                &&& cloned(
                    blockchain.multiverse.state(blockchain.tip_hash()),
                    event.ledger_reference,
                )
            },
            Err(_) => false,
        },
{
    let tip = match blockchain.tip.hash() {
        Ok(tip) => tip,
        Err(_) => {
            return Err(HandleBlockError::Storage { source: StorageError::BlockNotFound });
        },
    };
    match blockchain.multiverse.get(&tip) {
        Some(state) => Ok(
            EpochParameters {
                epoch: epoch + 1,
                time_frame: blockchain.time_frame,
                ledger_reference: state.clone(),
            },
        ),
        None => Err(HandleBlockError::Storage { source: StorageError::BlockNotFound }),
    }
}

impl ConsensusError {
    /// What went wrong, in words.
    pub open spec fn spec_message(&self) -> Seq<char> {
        "the header failed verification with code "@ + decimal_text(self.code as nat)
    }

    pub fn message(&self) -> (s: String)
        ensures
            s@ == self.spec_message(),
    {
        String::from_str("the header failed verification with code ").concat(
            decimal(self.code as u64).as_str(),
        )
    }
}

impl LedgerError {
    /// What went wrong, in words.
    pub open spec fn spec_message(&self) -> Seq<char> {
        match self {
            LedgerError::WrongChainLength { actual, parent } => "chain length "@ + decimal_text(
                *actual as nat,
            ) + " does not follow the chain length "@ + decimal_text(*parent as nat)
                + " of the parent"@,
            LedgerError::InvalidContent { code } => "the ledger refused the block with code "@
                + decimal_text(*code as nat),
        }
    }

    pub fn message(&self) -> (s: String)
        ensures
            s@ == self.spec_message(),
    {
        match self {
            LedgerError::WrongChainLength { actual, parent } => String::from_str(
                "chain length ",
            ).concat(decimal(*actual as u64).as_str()).concat(
                " does not follow the chain length ",
            ).concat(decimal(*parent as u64).as_str()).concat(" of the parent"),
            LedgerError::InvalidContent { code } => String::from_str(
                "the ledger refused the block with code ",
            ).concat(decimal(*code as u64).as_str()),
        }
    }
}

impl RejectionReason {
    /// Why the block was turned away, in words.
    pub open spec fn spec_message(&self) -> Seq<char> {
        match self {
            RejectionReason::AlreadyPresent => "Block already present in the blockchain"@,
            RejectionReason::BeyondStabilityDepth =>
                "the block is beyond the stability depth, we reject it"@,
            RejectionReason::Consensus { error } => error.spec_message(),
        }
    }

    pub fn message(&self) -> (s: String)
        ensures
            s@ == self.spec_message(),
    {
        match self {
            RejectionReason::AlreadyPresent => String::from_str(
                "Block already present in the blockchain",
            ),
            RejectionReason::BeyondStabilityDepth => String::from_str(
                "the block is beyond the stability depth, we reject it",
            ),
            RejectionReason::Consensus { error } => error.message(),
        }
    }
}

impl HandleBlockError {
    /// What went wrong, in words.
    pub open spec fn spec_message(&self) -> Seq<char> {
        match self {
            HandleBlockError::Storage { source } => "Error in the blockchain storage"@,
            HandleBlockError::Ledger { source } => "Invalid blockchain state"@,
            HandleBlockError::InternalTip { source } => "Cannot update the blockchain's TIP"@,
        }
    }

    pub fn message(&self) -> (s: String)
        ensures
            s@ == self.spec_message(),
    {
        match self {
            HandleBlockError::Storage { source } => String::from_str(
                "Error in the blockchain storage",
            ),
            HandleBlockError::Ledger { source } => String::from_str("Invalid blockchain state"),
            HandleBlockError::InternalTip { source } => String::from_str(
                "Cannot update the blockchain's TIP",
            ),
        }
    }
}

impl LoadError {
    /// What went wrong, in words.
    pub open spec fn spec_message(&self) -> Seq<char> {
        match self {
            LoadError::Storage { source } => "Error in the blockchain storage: "@
                + source.spec_message(),
            LoadError::Ledger { source } => "Invalid blockchain state: "@ + source.spec_message(),
            LoadError::Block0 { source } => "Initial setting of the blockchain are invalid"@,
        }
    }

    pub fn message(&self) -> (s: String)
        ensures
            s@ == self.spec_message(),
    {
        match self {
            LoadError::Storage { source } => String::from_str(
                "Error in the blockchain storage: ",
            ).concat(source.message().as_str()),
            LoadError::Ledger { source } => String::from_str("Invalid blockchain state: ").concat(
                source.message().as_str(),
            ),
            LoadError::Block0 { source } => String::from_str(
                "Initial setting of the blockchain are invalid",
            ),
        }
    }
}

} // verus!
