//! Blocks that arrived before their parent, filed by the parent they wait for.

use crate::block::Block;
use crate::hash::HeaderHash;
use crate::table::HashTable;
use vstd::prelude::*;

verus! {

/// The blocks that wait for their parent: for each parent hash the blocks
/// that name it, by their own hash.
pub struct OrphanBuffer {
    by_parent: HashTable<HashTable<Block>>,
}

impl View for OrphanBuffer {
    type V = Map<HeaderHash, Map<HeaderHash, Block>>;

    closed spec fn view(&self) -> Map<HeaderHash, Map<HeaderHash, Block>> {
        Map::new(
            |p: HeaderHash| self.by_parent@.dom().contains(p),
            |p: HeaderHash| self.by_parent@[p]@,
        )
    }
}

impl OrphanBuffer {
    pub closed spec fn wf(&self) -> bool {
        &&& self.by_parent.wf()
        &&& forall|p: HeaderHash| #[trigger]
            self.by_parent@.dom().contains(p) ==> self.by_parent@[p].wf()
    }

    /// The blocks that wait for `parent`, by their own hash.
    pub open spec fn waiting_for(&self, parent: HeaderHash) -> Map<HeaderHash, Block> {
        if self@.dom().contains(parent) {
            self@[parent]
        } else {
            Map::empty()
        }
    }

    /// Whether the block `child` waits for `parent`.
    pub open spec fn holds(&self, parent: HeaderHash, child: HeaderHash) -> bool {
        self.waiting_for(parent).dom().contains(child)
    }

    pub fn new() -> (b: OrphanBuffer)
        ensures
            b.wf(),
            b@ == Map::<HeaderHash, Map<HeaderHash, Block>>::empty(),
    {
        let b = OrphanBuffer { by_parent: HashTable::new() };
        assert(b@ =~= Map::<HeaderHash, Map<HeaderHash, Block>>::empty());
        b
    }

    /// Files `block` under the parent it names. A block that waits under the
    /// same hash for the same parent is replaced.
    pub fn insert(&mut self, block: Block)
        requires
            old(self).wf(),
        ensures
            final(self).wf(),
            final(self)@ == old(self)@.insert(
                block.header.parent_hash,
                old(self).waiting_for(block.header.parent_hash).insert(block.header.hash, block),
            ),
    {
        let parent = block.header.parent_hash;
        let hash = block.header.hash;
        let mut children = match self.by_parent.remove(&parent) {
            Some(children) => children,
            None => HashTable::new(),
        };
        children.insert(hash, block);
        self.by_parent.insert(parent, children);
        assert(self@ =~= old(self)@.insert(
            parent,
            old(self).waiting_for(parent).insert(hash, block),
        ));
    }

    /// The block `child` among those that wait for `parent`.
    pub fn get(&self, parent: &HeaderHash, child: &HeaderHash) -> (r: Option<&Block>)
        requires
            self.wf(),
        ensures
            match r {
                Some(block) => self.holds(*parent, *child) && *block == self.waiting_for(
                    *parent,
                )[*child],
                None => !self.holds(*parent, *child),
            },
    {
        match self.by_parent.get(parent) {
            Some(children) => children.get(child),
            None => None,
        }
    }

    /// The hashes of the blocks that wait for `parent`, each once.
    pub fn children(&self, parent: &HeaderHash) -> (hashes: Vec<HeaderHash>)
        requires
            self.wf(),
        ensures
            hashes@.no_duplicates(),
            forall|h: HeaderHash| #[trigger] hashes@.contains(h) <==> self.holds(*parent, h),
    {
        match self.by_parent.get(parent) {
            Some(children) => children.keys(),
            None => Vec::new(),
        }
    }

    /// Takes the block `child` out from among those that wait for `parent`.
    pub fn remove(&mut self, parent: &HeaderHash, child: &HeaderHash) -> (r: Option<Block>)
        requires
            old(self).wf(),
        ensures
            final(self).wf(),
            match r {
                Some(block) => old(self).holds(*parent, *child) && block == old(self).waiting_for(
                    *parent,
                )[*child] && final(self)@ == old(self)@.insert(
                    *parent,
                    old(self).waiting_for(*parent).remove(*child),
                ),
                None => !old(self).holds(*parent, *child) && final(self)@ == old(self)@,
            },
    {
        match self.by_parent.remove(parent) {
            Some(children) => {
                let mut children = children;
                let taken = children.remove(child);
                self.by_parent.insert(*parent, children);
                match taken {
                    Some(block) => {
                        assert(self@ =~= old(self)@.insert(
                            *parent,
                            old(self).waiting_for(*parent).remove(*child),
                        ));
                        Some(block)
                    },
                    None => {
                        assert(old(self).waiting_for(*parent).remove(*child) =~= old(
                            self,
                        ).waiting_for(*parent));
                        assert(self@ =~= old(self)@);
                        None
                    },
                }
            },
            None => {
                assert(self@ =~= old(self)@);
                None
            },
        }
    }
}

} // verus!
