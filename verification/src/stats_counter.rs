//! Counters of what the node has received since it started.

use vstd::prelude::*;

verus! {

/// The sum of two counts as a counter holds it: past its largest value a
/// counter starts again from zero.
pub open spec fn wrapped_sum(a: usize, b: usize) -> usize {
    if a + b > usize::MAX {
        (a + b - usize::MAX - 1) as usize
    } else {
        (a + b) as usize
    }
}

/// How many transactions and how many blocks the node has received.
#[derive(Debug)]
pub struct StatsCounter {
    tx_recv_cnt: usize,
    block_recv_cnt: usize,
}

impl StatsCounter {
    /// The number of transactions received.
    pub closed spec fn tx_recv(&self) -> usize {
        self.tx_recv_cnt
    }

    /// The number of blocks received.
    pub closed spec fn block_recv(&self) -> usize {
        self.block_recv_cnt
    }

    fn sum(a: usize, b: usize) -> (r: usize)
        ensures
            r == wrapped_sum(a, b),
    {
        if b > usize::MAX - a {
            b - (usize::MAX - a) - 1
        } else {
            a + b
        }
    }

    pub fn add_tx_recv_cnt(&mut self, count: usize)
        ensures
            final(self).tx_recv() == wrapped_sum(old(self).tx_recv(), count),
            final(self).block_recv() == old(self).block_recv(),
    {
        self.tx_recv_cnt = Self::sum(self.tx_recv_cnt, count);
    }

    #[verifier::when_used_as_spec(tx_recv)]
    pub fn get_tx_recv_cnt(&self) -> (n: usize)
        ensures
            n == self.tx_recv(),
    {
        self.tx_recv_cnt
    }

    pub fn add_block_recv_cnt(&mut self, count: usize)
        ensures
            final(self).block_recv() == wrapped_sum(old(self).block_recv(), count),
            final(self).tx_recv() == old(self).tx_recv(),
    {
        self.block_recv_cnt = Self::sum(self.block_recv_cnt, count);
    }

    #[verifier::when_used_as_spec(block_recv)]
    pub fn get_block_recv_cnt(&self) -> (n: usize)
        ensures
            n == self.block_recv(),
    {
        self.block_recv_cnt
    }
}

impl Default for StatsCounter {
    /// Counters that have counted nothing yet.
    fn default() -> (c: StatsCounter)
        ensures
            c.tx_recv() == 0,
            c.block_recv() == 0,
    {
        StatsCounter { tx_recv_cnt: 0, block_recv_cnt: 0 }
    }
}

} // verus!
