//! Sampling of the ancestors of a block at distances that double, for a
//! peer to find the latest block it shares with this node.

use crate::hash::HeaderHash;
use crate::storage::BlockStore;
use crate::storage::StorageError;
use vstd::prelude::*;

verus! {

/// `p`, `2p`, `4p`, and so on, as long as they stay below `limit`.
pub open spec fn doubling(limit: nat, p: nat) -> Seq<nat>
    decreases
            if p < limit {
                limit - p
            } else {
                0
            },
{
    if p == 0 || p >= limit {
        Seq::empty()
    } else {
        seq![p] + doubling(limit, 2 * p)
    }
}

/// The distances from a block at `depth` at which checkpoints are taken:
/// the block itself, then 1, 2, 4 and so on links above it for as long as
/// that stays below genesis, and last genesis.
pub open spec fn checkpoint_offsets(depth: nat) -> Seq<nat> {
    if depth <= 1 {
        seq![0nat]
    } else {
        seq![0nat] + doubling((depth - 1) as nat, 1) + seq![(depth - 1) as nat]
    }
}

/// Every distance that `doubling` gives lies below the limit.
pub proof fn lemma_doubling_below(limit: nat, p: nat)
    ensures
        forall|i: int| 0 <= i < doubling(limit, p).len() ==> #[trigger] doubling(limit, p)[i] < limit,
    decreases
            if p < limit {
                limit - p
            } else {
                0
            },
{
    if !(p == 0 || p >= limit) {
        lemma_doubling_below(limit, 2 * p);
        let rest = doubling(limit, 2 * p);
        assert forall|i: int| 0 <= i < doubling(limit, p).len() implies #[trigger] doubling(
            limit,
            p,
        )[i] < limit by {
            if i > 0 {
                assert(doubling(limit, p)[i] == rest[i - 1]);
            }
        }
    }
}

/// Every checkpoint of a block lies on its chain, at genesis or below it.
pub proof fn lemma_offsets_below(depth: nat)
    requires
        depth >= 1,
    ensures
        checkpoint_offsets(depth).len() >= 1,
        checkpoint_offsets(depth)[0] == 0,
        checkpoint_offsets(depth).last() == depth - 1,
        forall|i: int|
            0 <= i < checkpoint_offsets(depth).len() ==> #[trigger] checkpoint_offsets(depth)[i]
                < depth,
{
    if depth > 1 {
        lemma_doubling_below((depth - 1) as nat, 1);
    }
}

/// The distances at which checkpoints are taken from a block at `depth`.
pub fn offsets(depth: u64) -> (r: Vec<u64>)
    requires
        depth >= 1,
    ensures
        r@.len() == checkpoint_offsets(depth as nat).len(),
        forall|i: int| 0 <= i < r@.len() ==> #[trigger] r@[i] as nat == checkpoint_offsets(
            depth as nat,
        )[i],
{
    let mut r: Vec<u64> = Vec::new();
    r.push(0);
    if depth == 1 {
        return r;
    }
    let limit: u64 = depth - 1;
    let mut p: u64 = 1;
    let ghost mut done: Seq<nat> = Seq::empty();
    while p < limit
        invariant
            limit == depth - 1,
            1 <= p,
            r@.len() == 1 + done.len(),
            r@[0] == 0,
            forall|i: int| 0 <= i < done.len() ==> #[trigger] r@[i + 1] as nat == done[i],
            done + doubling(limit as nat, p as nat) == doubling(limit as nat, 1),
        decreases limit - p,
    {
        proof {
            assert(done + doubling(limit as nat, p as nat) =~= done.push(p as nat) + doubling(
                limit as nat,
                2 * (p as nat),
            ));
            if p >= limit - p {
                assert(doubling(limit as nat, 2 * (p as nat)) =~= doubling(
                    limit as nat,
                    limit as nat,
                ));
            }
            done = done.push(p as nat);
        }
        r.push(p);
        if p >= limit - p {
            p = limit;
        } else {
            p = 2 * p;
        }
    }
    r.push(limit);
    proof {
        assert(done =~= doubling(limit as nat, 1));
        assert(r@.len() == checkpoint_offsets(depth as nat).len());
        assert forall|i: int| 0 <= i < r@.len() implies #[trigger] r@[i] as nat == checkpoint_offsets(
            depth as nat,
        )[i] by {
            if 0 < i < r@.len() - 1 {
                assert(r@[(i - 1) + 1] as nat == done[i - 1]);
            }
        }
    }
    r
}

/// The checkpoints of the block `tip`: the hashes of its ancestors at the
/// distances that `checkpoint_offsets` gives, the block itself first and
/// genesis last.
pub fn sample(store: &BlockStore, tip: &HeaderHash) -> (r: Result<Vec<HeaderHash>, StorageError>)
    requires
        store.wf(),
    ensures
        match r {
            Ok(hashes) => {
                &&& store@.contains(*tip)
                &&& hashes@.len() == checkpoint_offsets(store@.depth(*tip) as nat).len()
                &&& forall|i: int|
                    0 <= i < hashes@.len() ==> store@.ancestor(
                        *tip,
                        checkpoint_offsets(store@.depth(*tip) as nat)[i],
                    ) == Some(#[trigger] hashes@[i])
            },
            Err(e) => !store@.contains(*tip) && e == StorageError::BlockNotFound,
        },
{
    let info = match store.get_block_info(tip) {
        Ok(info) => info,
        Err(e) => {
            return Err(e);
        },
    };
    proof {
        store@.lemma_link(*tip);
        lemma_offsets_below(info.depth as nat);
    }
    let distances = offsets(info.depth);
    let mut hashes: Vec<HeaderHash> = Vec::new();
    let mut i: usize = 0;
    while i < distances.len()
        invariant
            store.wf(),
            store@.contains(*tip),
            info.depth == store@.depth(*tip),
            i <= distances@.len(),
            hashes@.len() == i,
            distances@.len() == checkpoint_offsets(info.depth as nat).len(),
            forall|j: int|
                0 <= j < distances@.len() ==> #[trigger] distances@[j] as nat == checkpoint_offsets(
                    info.depth as nat,
                )[j],
            forall|j: int|
                0 <= j < checkpoint_offsets(info.depth as nat).len() ==> #[trigger] checkpoint_offsets(
                    info.depth as nat,
                )[j] < info.depth,
            forall|j: int|
                0 <= j < i ==> store@.ancestor(*tip, checkpoint_offsets(info.depth as nat)[j])
                    == Some(#[trigger] hashes@[j]),
        decreases distances@.len() - i,
    {
        assert(distances@[i as int] as nat == checkpoint_offsets(info.depth as nat)[i as int]);
        match store.get_nth_ancestor(tip, distances[i]) {
            Ok(found) => {
                hashes.push(found.block_hash);
            },
            Err(e) => {
                return Err(e);
            },
        }
        i += 1;
    }
    Ok(hashes)
}

} // verus!
