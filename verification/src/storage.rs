//! The block archive: blocks by hash, each with its depth from genesis, and a
//! small namespace of named pointers into it.

use crate::block::Block;
use crate::block::Header;
use crate::hash::HeaderHash;
use crate::table::HashTable;
use vstd::prelude::*;
use vstd::string::StringExecFns;

verus! {

/// What the archive knows of a block besides its contents.
#[derive(Clone, Copy, Debug, PartialEq, Eq, Structural)]
pub struct BlockInfo {
    pub block_hash: HeaderHash,
    pub parent_hash: HeaderHash,
    /// Number of blocks on the path from genesis to this block, both included.
    pub depth: u64,
}

/// Why the archive could not do what was asked.
#[derive(Clone, Copy, Debug, PartialEq, Eq, Structural)]
pub enum StorageError {
    /// The archive holds no block under the hash that was asked for.
    BlockNotFound,
    /// The two ends of a range do not lie on one chain, or a walk would pass genesis.
    CannotIterate,
    /// The chain length in the header is neither 1, as that of a genesis
    /// block, nor one more than that of the parent.
    ChainLengthMismatch,
}

/// A named pointer to a block.
pub struct Tag {
    pub name: String,
    pub hash: HeaderHash,
}

/// The archive of blocks with its tags.
pub struct BlockStore {
    blocks: HashTable<Block>,
    tags: Vec<Tag>,
}

/// The archive as a pair of finite maps.
pub struct StoreView {
    pub blocks: Map<HeaderHash, Block>,
    pub tags: Map<Seq<char>, HeaderHash>,
}

impl StoreView {
    pub open spec fn contains(self, h: HeaderHash) -> bool {
        self.blocks.dom().contains(h)
    }

    pub open spec fn block(self, h: HeaderHash) -> Block {
        self.blocks[h]
    }

    /// The depth of a block is the chain length that its header states.
    pub open spec fn depth(self, h: HeaderHash) -> u64 {
        self.blocks[h].header.chain_length as u64
    }

    pub open spec fn parent(self, h: HeaderHash) -> HeaderHash {
        self.blocks[h].header.parent_hash
    }

    pub open spec fn info(self, h: HeaderHash) -> BlockInfo {
        BlockInfo { block_hash: h, parent_hash: self.parent(h), depth: self.depth(h) }
    }

    /// What must hold of the record of a block: it is filed under its own
    /// hash, at depth 1 or more; a block at depth 1 is a genesis block; any
    /// other block has its parent in the archive, one level above it.
    pub open spec fn link_ok(self, info: BlockInfo) -> bool {
        &&& self.blocks[info.block_hash].header.hash == info.block_hash
        &&& info.depth >= 1
        &&& info.depth > 1 ==> self.blocks.dom().contains(info.parent_hash) && info.depth
            == self.depth(info.parent_hash) + 1
    }

    /// Every block of the archive is linked to its parent as `link_ok` says.
    pub open spec fn linked(self) -> bool {
        forall|h: HeaderHash| self.blocks.dom().contains(h) ==> self.link_ok(#[trigger] self.info(h))
    }

    pub proof fn lemma_link(self, h: HeaderHash)
        requires
            self.linked(),
            self.contains(h),
        ensures
            self.link_ok(self.info(h)),
    {
    }

    /// Whether the chain of blocks is linked does not depend on the tags.
    pub proof fn lemma_linked_same_blocks(self, other: StoreView)
        requires
            self.linked(),
            other.blocks == self.blocks,
        ensures
            other.linked(),
    {
        assert forall|h: HeaderHash| other.blocks.dom().contains(h) implies other.link_ok(
            #[trigger] other.info(h),
        ) by {
            self.lemma_link(h);
        }
    }

    /// The block `n` parent links above `h`, as far as the links can be followed.
    pub open spec fn ancestor(self, h: HeaderHash, n: nat) -> Option<HeaderHash>
        decreases n,
    {
        if n == 0 {
            Some(h)
        } else if self.contains(h) && self.depth(h) > 1 {
            self.ancestor(self.parent(h), (n - 1) as nat)
        } else {
            None
        }
    }

    /// `a` is `h` itself or lies above it on its chain.
    pub open spec fn reaches(self, h: HeaderHash, a: HeaderHash) -> bool {
        exists|n: nat| self.ancestor(h, n) == Some(a)
    }

    /// In a linked archive, a block at depth `d` has exactly the ancestors
    /// 0 to `d - 1` links above it, each in the archive at its own depth.
    pub proof fn lemma_ancestor(self, h: HeaderHash, n: nat)
        requires
            self.linked(),
            self.contains(h),
        ensures
            n < self.depth(h) ==> self.ancestor(h, n) is Some && self.contains(
                self.ancestor(h, n).unwrap(),
            ) && self.depth(self.ancestor(h, n).unwrap()) == self.depth(h) - n,
            n >= self.depth(h) ==> self.ancestor(h, n) is None,
        decreases n,
    {
        self.lemma_link(h);
        if n > 0 && self.depth(h) > 1 {
            self.lemma_ancestor(self.parent(h), (n - 1) as nat);
        }
    }

    /// Walking `m` links and then `n` more is walking `m + n` links.
    pub proof fn lemma_ancestor_add(self, h: HeaderHash, m: nat, n: nat)
        requires
            self.ancestor(h, m) is Some,
        ensures
            self.ancestor(h, m + n) == self.ancestor(self.ancestor(h, m).unwrap(), n),
        decreases m,
    {
        if m > 0 {
            self.lemma_ancestor_add(self.parent(h), (m - 1) as nat, n);
        }
    }

    /// A walk that has run out of links stays out of them.
    pub proof fn lemma_ancestor_none(self, h: HeaderHash, m: nat, n: nat)
        requires
            self.ancestor(h, m) is None,
            n >= m,
        ensures
            self.ancestor(h, n) is None,
        decreases m,
    {
        if self.contains(h) && self.depth(h) > 1 {
            self.lemma_ancestor_none(self.parent(h), (m - 1) as nat, (n - 1) as nat);
        }
    }
}

/// No name is that of two tags.
pub open spec fn names_distinct(s: Seq<Tag>) -> bool {
    forall|i: int, j: int|
        0 <= i < s.len() && 0 <= j < s.len() && s[i].name@ == s[j].name@ ==> i == j
}

/// A tag is filed under the name `n`.
pub open spec fn has_name(s: Seq<Tag>, n: Seq<char>) -> bool {
    exists|i: int| 0 <= i < s.len() && #[trigger] s[i].name@ == n
}

/// Where the tag of name `n` stands.
pub open spec fn name_index(s: Seq<Tag>, n: Seq<char>) -> int {
    choose|i: int| 0 <= i < s.len() && #[trigger] s[i].name@ == n
}

/// The tags as a map from names to hashes.
pub open spec fn tags_to_map(s: Seq<Tag>) -> Map<Seq<char>, HeaderHash> {
    Map::new(|n: Seq<char>| has_name(s, n), |n: Seq<char>| s[name_index(s, n)].hash)
}

/// Among tags of distinct names, the map gives each name the hash of its tag.
proof fn lemma_tag_in_map(s: Seq<Tag>, i: int)
    requires
        names_distinct(s),
        0 <= i < s.len(),
    ensures
        tags_to_map(s).dom().contains(s[i].name@),
        tags_to_map(s)[s[i].name@] == s[i].hash,
{
    let n = s[i].name@;
    assert(has_name(s, n));
    let j = name_index(s, n);
    assert(0 <= j < s.len() && s[j].name@ == n);
}

impl View for BlockStore {
    type V = StoreView;

    closed spec fn view(&self) -> StoreView {
        StoreView { blocks: self.blocks@, tags: tags_to_map(self.tags@) }
    }
}

impl BlockStore {
    /// The representation is sound: no hash and no tag name is filed twice.
    pub closed spec fn inv(&self) -> bool {
        self.blocks.wf() && names_distinct(self.tags@)
    }

    pub open spec fn wf(&self) -> bool {
        self.inv() && self@.linked()
    }

    /// An archive with no block and no tag.
    pub fn new() -> (s: BlockStore)
        ensures
            s.wf(),
            s@.blocks == Map::<HeaderHash, Block>::empty(),
            s@.tags == Map::<Seq<char>, HeaderHash>::empty(),
    {
        let s = BlockStore { blocks: HashTable::new(), tags: Vec::new() };
        assert(s@.tags =~= Map::<Seq<char>, HeaderHash>::empty());
        s
    }

    pub fn block_exists(&self, hash: &HeaderHash) -> (b: bool)
        requires
            self.wf(),
        ensures
            b == self@.contains(*hash),
    {
        self.blocks.contains_key(hash)
    }

    pub fn get_block_info(&self, hash: &HeaderHash) -> (r: Result<BlockInfo, StorageError>)
        requires
            self.wf(),
        ensures
            match r {
                Ok(info) => self@.contains(*hash) && info == self@.info(*hash),
                Err(e) => !self@.contains(*hash) && e == StorageError::BlockNotFound,
            },
    {
        match self.blocks.get(hash) {
            Some(block) => Ok(
                BlockInfo {
                    block_hash: *hash,
                    parent_hash: block.header.parent_hash,
                    depth: block.header.chain_length as u64,
                },
            ),
            None => Err(StorageError::BlockNotFound),
        }
    }

    pub fn get_block(&self, hash: &HeaderHash) -> (r: Result<(&Block, BlockInfo), StorageError>)
        requires
            self.wf(),
        ensures
            match r {
                Ok((block, info)) => self@.contains(*hash) && *block == self@.block(*hash) && info
                    == self@.info(*hash),
                Err(e) => !self@.contains(*hash) && e == StorageError::BlockNotFound,
            },
    {
        match self.blocks.get(hash) {
            Some(block) => Ok(
                (
                    block,
                    BlockInfo {
                        block_hash: *hash,
                        parent_hash: block.header.parent_hash,
                        depth: block.header.chain_length as u64,
                    },
                ),
            ),
            None => Err(StorageError::BlockNotFound),
        }
    }

    /// Whether `put_block` files a block with this header, and if not, why.
    pub open spec fn put_outcome(&self, header: Header) -> Result<(), StorageError> {
        if self@.contains(header.hash) {
            Ok(())
        } else if header.chain_length == 1 {
            Ok(())
        } else if header.chain_length == 0 {
            Err(StorageError::ChainLengthMismatch)
        } else if !self@.contains(header.parent_hash) {
            Err(StorageError::BlockNotFound)
        } else if header.chain_length != self@.depth(header.parent_hash) + 1 {
            Err(StorageError::ChainLengthMismatch)
        } else {
            Ok(())
        }
    }

    /// Files a block under its hash. A block that is already there is left
    /// as it is. A block of chain length 1 starts a chain. Any other block
    /// is refused where its parent is unknown, so that every ancestor of a
    /// filed block is filed too, and where its chain length does not
    /// continue its parent's.
    pub fn put_block(&mut self, block: Block) -> (r: Result<(), StorageError>)
        requires
            old(self).wf(),
        ensures
            final(self).wf(),
            final(self)@.tags == old(self)@.tags,
            r == old(self).put_outcome(block.header),
            r is Err || old(self)@.contains(block.header.hash) ==> final(self)@ == old(self)@,
            r is Ok && !old(self)@.contains(block.header.hash) ==> final(self)@.blocks == old(
                self,
            )@.blocks.insert(block.header.hash, block),
    {
        let hash = block.header.hash;
        let parent = block.header.parent_hash;
        if self.blocks.contains_key(&hash) {
            return Ok(());
        }
        if block.header.chain_length == 0 {
            return Err(StorageError::ChainLengthMismatch);
        }
        if block.header.chain_length > 1 {
            match self.blocks.get(&parent) {
                None => {
                    return Err(StorageError::BlockNotFound);
                },
                Some(above) => {
                    if above.header.chain_length == u32::MAX || block.header.chain_length
                        != above.header.chain_length + 1 {
                        return Err(StorageError::ChainLengthMismatch);
                    }
                },
            }
        }
        let ghost before = self@;
        self.blocks.insert(hash, block);
        proof {
            let after = self@;
            assert(after.tags == before.tags);
            assert(after.blocks == before.blocks.insert(hash, block));
            assert forall|h: HeaderHash| after.blocks.dom().contains(h) implies after.link_ok(
                #[trigger] after.info(h),
            ) by {
                if h != hash {
                    before.lemma_link(h);
                    if before.depth(h) > 1 {
                        assert(before.parent(h) != hash);
                    }
                }
            }
        }
        Ok(())
    }

    fn find_tag(&self, name: &String) -> (r: Option<usize>)
        ensures
            match r {
                Some(i) => i < self.tags@.len() && self.tags@[i as int].name@ == name@,
                None => !has_name(self.tags@, name@),
            },
    {
        let mut i: usize = 0;
        while i < self.tags.len()
            invariant
                i <= self.tags@.len(),
                forall|j: int| 0 <= j < i ==> self.tags@[j].name@ != name@,
            decreases self.tags@.len() - i,
        {
            if self.tags[i].name == *name {
                return Some(i);
            }
            i += 1;
        }
        None
    }

    /// The hash that `name` points to, if the name was ever set.
    pub fn get_tag(&self, name: &str) -> (r: Option<HeaderHash>)
        requires
            self.wf(),
        ensures
            match r {
                Some(h) => self@.tags.dom().contains(name@) && self@.tags[name@] == h,
                None => !self@.tags.dom().contains(name@),
            },
    {
        let owned = name.to_owned();
        match self.find_tag(&owned) {
            Some(i) => {
                proof {
                    lemma_tag_in_map(self.tags@, i as int);
                }
                Some(self.tags[i].hash)
            },
            None => None,
        }
    }

    /// Points `name` at `hash`, whatever it pointed at before.
    pub fn put_tag(&mut self, name: &str, hash: HeaderHash)
        requires
            old(self).wf(),
        ensures
            final(self).wf(),
            final(self)@.blocks == old(self)@.blocks,
            final(self)@.tags == old(self)@.tags.insert(name@, hash),
    {
        let owned = name.to_owned();
        let ghost before = self.tags@;
        match self.find_tag(&owned) {
            Some(i) => {
                self.tags.set(i, Tag { name: owned, hash });
                proof {
                    let after = self.tags@;
                    assert(names_distinct(after)) by {
                        assert forall|a: int, b: int|
                            0 <= a < after.len() && 0 <= b < after.len() && after[a].name@
                                == after[b].name@ implies a == b by {
                            assert(after[a].name@ == before[a].name@);
                            assert(after[b].name@ == before[b].name@);
                        }
                    }
                    assert forall|n: Seq<char>| has_name(after, n) <==> has_name(before, n) by {
                        if has_name(after, n) {
                            let a = name_index(after, n);
                            assert(before[a].name@ == n);
                        }
                        if has_name(before, n) {
                            let a = name_index(before, n);
                            assert(after[a].name@ == n);
                        }
                    }
                    assert(has_name(before, name@)) by {
                        assert(before[i as int].name@ == name@);
                    }
                    assert forall|n: Seq<char>| has_name(after, n) implies tags_to_map(after)[n]
                        == tags_to_map(before).insert(name@, hash)[n] by {
                        let a = name_index(after, n);
                        lemma_tag_in_map(after, a);
                        assert(before[a].name@ == n);
                        lemma_tag_in_map(before, a);
                    }
                    assert(tags_to_map(after) =~= tags_to_map(before).insert(name@, hash));
                }
            },
            None => {
                self.tags.push(Tag { name: owned, hash });
                proof {
                    let after = self.tags@;
                    assert(names_distinct(after)) by {
                        assert forall|a: int, b: int|
                            0 <= a < after.len() && 0 <= b < after.len() && after[a].name@
                                == after[b].name@ implies a == b by {
                            if a < before.len() {
                                assert(before[a].name@ == after[a].name@);
                            }
                            if b < before.len() {
                                assert(before[b].name@ == after[b].name@);
                            }
                        }
                    }
                    assert forall|n: Seq<char>| has_name(after, n) <==> (has_name(before, n) || n
                        == name@) by {
                        if has_name(after, n) {
                            let a = name_index(after, n);
                            if a < before.len() {
                                assert(before[a].name@ == n);
                            }
                        }
                        if has_name(before, n) {
                            let a = name_index(before, n);
                            assert(after[a].name@ == n);
                        }
                        if n == name@ {
                            assert(after[after.len() - 1].name@ == n);
                        }
                    }
                    assert forall|n: Seq<char>| has_name(after, n) implies tags_to_map(after)[n]
                        == tags_to_map(before).insert(name@, hash)[n] by {
                        let a = name_index(after, n);
                        lemma_tag_in_map(after, a);
                        if a < before.len() {
                            assert(before[a].name@ == n);
                            lemma_tag_in_map(before, a);
                        }
                    }
                    assert(tags_to_map(after) =~= tags_to_map(before).insert(name@, hash));
                }
            },
        }
        proof {
            old(self)@.lemma_linked_same_blocks(self@);
        }
    }
}

impl StoreView {
    /// Why no range leads from `from` down to `to`, if none does.
    pub open spec fn range_error(self, from: HeaderHash, to: HeaderHash) -> Option<StorageError> {
        if !self.contains(from) || !self.contains(to) {
            Some(StorageError::BlockNotFound)
        } else if self.depth(from) > self.depth(to) || self.ancestor(
            to,
            (self.depth(to) - self.depth(from)) as nat,
        ) != Some(from) {
            Some(StorageError::CannotIterate)
        } else {
            None
        }
    }
}

impl BlockStore {
    /// The blocks met on the way up from `hash`: first `hash` itself, then its
    /// parent, and so on for `distance` blocks; and the block that the walk
    /// ends at, `distance` links above `hash`.
    pub fn path_to_nth_ancestor(&self, hash: &HeaderHash, distance: u64) -> (r: Result<
        (Vec<BlockInfo>, BlockInfo),
        StorageError,
    >)
        requires
            self.wf(),
        ensures
            match r {
                Ok((path, end)) => {
                    &&& self@.contains(*hash)
                    &&& distance < self@.depth(*hash)
                    &&& path@.len() == distance
                    &&& forall|i: int|
                        0 <= i < path@.len() ==> self@.ancestor(*hash, i as nat) == Some(
                            (#[trigger] path@[i]).block_hash,
                        ) && path@[i] == self@.info(path@[i].block_hash)
                    &&& self@.ancestor(*hash, distance as nat) == Some(end.block_hash)
                    &&& self@.contains(end.block_hash)
                    &&& end == self@.info(end.block_hash)
                },
                Err(e) => if self@.contains(*hash) {
                    e == StorageError::CannotIterate && distance >= self@.depth(*hash)
                } else {
                    e == StorageError::BlockNotFound
                },
            },
    {
        let mut cur = match self.get_block_info(hash) {
            Ok(info) => info,
            Err(e) => {
                return Err(e);
            },
        };
        if distance >= cur.depth {
            return Err(StorageError::CannotIterate);
        }
        let mut path: Vec<BlockInfo> = Vec::new();
        let mut i: u64 = 0;
        while i < distance
            invariant
                self.wf(),
                self@.contains(*hash),
                distance < self@.depth(*hash),
                i <= distance,
                path@.len() == i,
                forall|j: int|
                    0 <= j < path@.len() ==> self@.ancestor(*hash, j as nat) == Some(
                        (#[trigger] path@[j]).block_hash,
                    ) && path@[j] == self@.info(path@[j].block_hash),
                self@.ancestor(*hash, i as nat) == Some(cur.block_hash),
                self@.contains(cur.block_hash),
                cur == self@.info(cur.block_hash),
                cur.depth == self@.depth(*hash) - i,
            decreases distance - i,
        {
            proof {
                self@.lemma_link(cur.block_hash);
                self@.lemma_ancestor_add(*hash, i as nat, 1);
                assert(self@.ancestor(cur.block_hash, 1) == self@.ancestor(cur.parent_hash, 0));
            }
            path.push(cur);
            match self.get_block_info(&cur.parent_hash) {
                Ok(info) => {
                    cur = info;
                },
                Err(e) => {
                    return Err(e);
                },
            }
            i += 1;
        }
        Ok((path, cur))
    }

    /// The block `distance` parent links above `hash`.
    pub fn get_nth_ancestor(&self, hash: &HeaderHash, distance: u64) -> (r: Result<
        BlockInfo,
        StorageError,
    >)
        requires
            self.wf(),
        ensures
            match r {
                Ok(info) => {
                    &&& self@.contains(*hash)
                    &&& distance < self@.depth(*hash)
                    &&& self@.ancestor(*hash, distance as nat) == Some(info.block_hash)
                    &&& self@.contains(info.block_hash)
                    &&& info == self@.info(info.block_hash)
                },
                Err(e) => if self@.contains(*hash) {
                    e == StorageError::CannotIterate && distance >= self@.depth(*hash)
                } else {
                    e == StorageError::BlockNotFound
                },
            },
    {
        match self.path_to_nth_ancestor(hash, distance) {
            Ok((_, end)) => Ok(end),
            Err(e) => Err(e),
        }
    }

    /// The blocks on the chain from `from` to `to`, in the order in which they
    /// were built: the child of `from` first, `to` last. Both must be in the
    /// archive, with `to` equal to `from` or below it on one chain.
    pub fn iterate_range(&self, from: &HeaderHash, to: &HeaderHash) -> (r: Result<
        Vec<BlockInfo>,
        StorageError,
    >)
        requires
            self.wf(),
        ensures
            match r {
                Ok(range) => {
                    &&& self@.range_error(*from, *to) is None
                    &&& range@.len() == self@.depth(*to) - self@.depth(*from)
                    &&& forall|i: int|
                        0 <= i < range@.len() ==> self@.ancestor(
                            *to,
                            (range@.len() - 1 - i) as nat,
                        ) == Some((#[trigger] range@[i]).block_hash) && range@[i] == self@.info(
                            range@[i].block_hash,
                        )
                },
                Err(e) => self@.range_error(*from, *to) == Some(e),
            },
    {
        let from_info = match self.get_block_info(from) {
            Ok(info) => info,
            Err(e) => {
                return Err(e);
            },
        };
        let to_info = match self.get_block_info(to) {
            Ok(info) => info,
            Err(e) => {
                return Err(e);
            },
        };
        if from_info.depth > to_info.depth {
            return Err(StorageError::CannotIterate);
        }
        let distance = to_info.depth - from_info.depth;
        proof {
            self@.lemma_ancestor(*to, distance as nat);
        }
        let (path, end) = match self.path_to_nth_ancestor(to, distance) {
            Ok(found) => found,
            Err(e) => {
                return Err(e);
            },
        };
        if end.block_hash != *from {
            return Err(StorageError::CannotIterate);
        }
        let n = path.len();
        let mut range: Vec<BlockInfo> = Vec::new();
        let mut i: usize = 0;
        while i < n
            invariant
                n == path@.len(),
                i <= n,
                range@.len() == i,
                forall|j: int| 0 <= j < i ==> range@[j] == path@[n - 1 - j],
            decreases n - i,
        {
            range.push(path[n - 1 - i]);
            i += 1;
        }
        Ok(range)
    }
}

impl StorageError {
    /// What went wrong, in words.
    pub open spec fn spec_message(&self) -> Seq<char> {
        match self {
            StorageError::BlockNotFound => "block not found"@,
            StorageError::CannotIterate => "cannot iterate between the two blocks"@,
            StorageError::ChainLengthMismatch =>
                "the chain length of the block does not follow that of its parent"@,
        }
    }

    pub fn message(&self) -> (s: String)
        ensures
            s@ == self.spec_message(),
    {
        match self {
            StorageError::BlockNotFound => String::from_str("block not found"),
            StorageError::CannotIterate => String::from_str(
                "cannot iterate between the two blocks",
            ),
            StorageError::ChainLengthMismatch => String::from_str(
                "the chain length of the block does not follow that of its parent",
            ),
        }
    }
}

} // verus!
