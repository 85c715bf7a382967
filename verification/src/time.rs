//! The clock of the chain: from wall-clock time to slots, from slots to epochs.

use crate::block::BlockDate;
use crate::block::Epoch;
use vstd::prelude::*;

verus! {

/// The start of the chain on the wall clock, in seconds since the Unix
/// epoch, and the length of one slot in seconds.
#[derive(Clone, Copy, Debug, PartialEq, Eq, Structural)]
pub struct TimeFrame {
    pub start: u64,
    pub slot_duration: u64,
}

/// A run of epochs of equal length: the epoch and the slot it starts with,
/// and the number of slots in each of its epochs.
#[derive(Clone, Copy, Debug, PartialEq, Eq, Structural)]
pub struct TimeEra {
    pub epoch_start: Epoch,
    pub slot_start: u64,
    pub slots_per_epoch: u32,
}

impl TimeFrame {
    pub open spec fn wf(&self) -> bool {
        self.slot_duration > 0
    }

    /// The slot that is open at `now`, if the chain has started by then.
    pub open spec fn spec_slot_at(&self, now: u64) -> Option<u64> {
        if now < self.start {
            None
        } else {
            Some(((now - self.start) / (self.slot_duration as int)) as u64)
        }
    }

    pub fn new(start: u64, slot_duration: u64) -> (t: TimeFrame)
        requires
            slot_duration > 0,
        ensures
            t.wf(),
            t == (TimeFrame { start, slot_duration }),
    {
        TimeFrame { start, slot_duration }
    }

    /// The slot that is open at `now`, a time in seconds since the Unix
    /// epoch; none before the start of the chain.
    pub fn slot_at(&self, now: u64) -> (slot: Option<u64>)
        requires
            self.wf(),
        ensures
            slot == self.spec_slot_at(now),
    {
        if now < self.start {
            None
        } else {
            Some((now - self.start) / self.slot_duration)
        }
    }
}

impl TimeEra {
    pub open spec fn wf(&self) -> bool {
        self.slots_per_epoch > 0
    }

    /// The epoch that `slot` falls in and its place within that epoch.
    /// There is none for a slot before the era, nor where the number of the
    /// epoch would not fit its type.
    pub open spec fn spec_from_slot_to_era(&self, slot: u64) -> Option<BlockDate> {
        if slot < self.slot_start {
            None
        } else if self.epoch_start + (slot - self.slot_start) / (self.slots_per_epoch as int)
            > u32::MAX {
            None
        } else {
            Some(
                BlockDate {
                    epoch: (self.epoch_start + (slot - self.slot_start) / (
                    self.slots_per_epoch as int)) as u32,
                    slot_id: ((slot - self.slot_start) % (self.slots_per_epoch as int)) as u32,
                },
            )
        }
    }

    pub fn new(epoch_start: Epoch, slot_start: u64, slots_per_epoch: u32) -> (e: TimeEra)
        requires
            slots_per_epoch > 0,
        ensures
            e.wf(),
            e == (TimeEra { epoch_start, slot_start, slots_per_epoch }),
    {
        TimeEra { epoch_start, slot_start, slots_per_epoch }
    }

    pub fn from_slot_to_era(&self, slot: u64) -> (date: Option<BlockDate>)
        requires
            self.wf(),
        ensures
            date == self.spec_from_slot_to_era(slot),
    {
        if slot < self.slot_start {
            return None;
        }
        let offset: u64 = slot - self.slot_start;
        let per_epoch: u64 = self.slots_per_epoch as u64;
        let epochs: u64 = offset / per_epoch;
        let within: u64 = offset % per_epoch;
        if epochs > (u32::MAX - self.epoch_start) as u64 {
            return None;
        }
        Some(BlockDate { epoch: self.epoch_start + epochs as u32, slot_id: within as u32 })
    }
}

} // verus!
