//! Blocks and their headers, as far as the chain logic reads them.

use crate::hash::HeaderHash;
use vstd::prelude::*;

verus! {

/// Number of an epoch, counted from the start of the chain.
pub type Epoch = u32;

/// Position of a block on its chain: 1 for a genesis block, one more for each child.
pub type ChainLength = u32;

/// The epoch and the slot within it at which a block was produced.
#[derive(Clone, Copy, Debug, PartialEq, Eq, Structural)]
pub struct BlockDate {
    pub epoch: Epoch,
    pub slot_id: u32,
}

/// What the chain logic reads of a block header.
#[derive(Clone, Copy, Debug, PartialEq, Eq, Structural)]
pub struct Header {
    pub hash: HeaderHash,
    pub parent_hash: HeaderHash,
    pub chain_length: ChainLength,
    pub date: BlockDate,
}

/// One entry of a block's body. The chain logic carries it and never looks inside.
#[derive(Debug, PartialEq, Eq)]
pub struct Message {
    pub bytes: Vec<u8>,
}

/// A header and the ordered messages it commits to.
#[derive(Debug, PartialEq, Eq)]
pub struct Block {
    pub header: Header,
    pub messages: Vec<Message>,
}

impl Header {
    pub fn id(&self) -> (h: HeaderHash)
        ensures
            h == self.hash,
    {
        self.hash
    }

    pub fn parent_id(&self) -> (h: HeaderHash)
        ensures
            h == self.parent_hash,
    {
        self.parent_hash
    }

    pub fn chain_length(&self) -> (n: ChainLength)
        ensures
            n == self.chain_length,
    {
        self.chain_length
    }

    pub fn date(&self) -> (d: BlockDate)
        ensures
            d == self.date,
    {
        self.date
    }
}

impl Block {
    pub fn id(&self) -> (h: HeaderHash)
        ensures
            h == self.header.hash,
    {
        self.header.hash
    }

    pub fn parent_id(&self) -> (h: HeaderHash)
        ensures
            h == self.header.parent_hash,
    {
        self.header.parent_hash
    }

    pub fn chain_length(&self) -> (n: ChainLength)
        ensures
            n == self.header.chain_length,
    {
        self.header.chain_length
    }

    pub fn date(&self) -> (d: BlockDate)
        ensures
            d == self.header.date,
    {
        self.header.date
    }

    pub fn header(&self) -> (h: Header)
        ensures
            h == self.header,
    {
        self.header
    }
}

} // verus!
