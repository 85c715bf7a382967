//! The blockchain core of a proof-of-stake node: block archive, live ledger
//! states across forks, leadership schedules, fork choice and recovery.

pub mod block;
pub mod chain;
pub mod checkpoints;
pub mod debug;
pub mod hash;
pub mod hex;
pub mod laws;
pub mod leadership;
pub mod load;
pub mod logging;
pub mod multiverse;
pub mod orphans;
pub mod pool;
pub mod staging;
pub mod stats_counter;
pub mod storage;
pub mod table;
pub mod text;
pub mod time;
pub mod tip;
