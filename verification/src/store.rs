//! The content-addressed block store: every block under its digest, with the
//! length of the chain that ends in it.

use crate::block::{genesis, Block, BlockView};
use crate::error::ConsensusError;
use crate::utils::{hash_eq, BlockHash};
use vstd::prelude::*;

verus! {

/// What the store keeps for one block.
pub struct StoredView {
    pub block: BlockView,
    /// The number of blocks on the chain from genesis to this block.
    pub length: nat,
}

/// The rules that tie the blocks of a store into chains: the genesis block
/// stands under its digest at length one, every block stands under its own
/// digest, and every other block stands one step behind its parent.
pub open spec fn chain_rules(blocks: Map<Seq<u8>, StoredView>) -> bool {
    let root = genesis().digest();
    &&& blocks.contains_key(root)
    &&& blocks[root].block == genesis()
    &&& blocks[root].length == 1
    &&& forall|k: Seq<u8>| #[trigger]
        blocks.contains_key(k) ==> blocks[k].block.digest() == k && blocks[k].length >= 1
    &&& parents_held(blocks)
}

/// Whether the parent of the block under `hash` is stored, one step before
/// the block.
pub open spec fn behind_parent(blocks: Map<Seq<u8>, StoredView>, hash: Seq<u8>) -> bool {
    &&& blocks.contains_key(blocks[hash].block.parent)
    &&& blocks[hash].length == blocks[blocks[hash].block.parent].length + 1
}

/// Whether every block but the genesis block stands one step behind its
/// parent.
#[verifier::opaque]
pub open spec fn parents_held(blocks: Map<Seq<u8>, StoredView>) -> bool {
    forall|k: Seq<u8>| #[trigger]
        blocks.contains_key(k) && k != genesis().digest() ==> behind_parent(blocks, k)
}

/// In a store that obeys the chain rules, every block but the genesis block
/// stands one step behind its parent.
pub proof fn parent_is_held(blocks: Map<Seq<u8>, StoredView>, hash: Seq<u8>)
    requires
        chain_rules(blocks),
        blocks.contains_key(hash),
        hash != genesis().digest(),
    ensures
        behind_parent(blocks, hash),
{
    reveal(parents_held);
}

/// The store after `block` was offered to it: a block whose parent is held and
/// whose digest is new enters one step behind its parent; anything else
/// leaves the store as it was.
pub open spec fn with_block(blocks: Map<Seq<u8>, StoredView>, block: BlockView) -> Map<
    Seq<u8>,
    StoredView,
> {
    if blocks.contains_key(block.parent) && !blocks.contains_key(block.digest()) {
        blocks.insert(
            block.digest(),
            StoredView { block, length: blocks[block.parent].length + 1 },
        )
    } else {
        blocks
    }
}

/// The store after the block under `hash`, if there is one, was notarized.
pub open spec fn with_notarized(blocks: Map<Seq<u8>, StoredView>, hash: Seq<u8>) -> Map<
    Seq<u8>,
    StoredView,
> {
    if blocks.contains_key(hash) {
        blocks.insert(
            hash,
            StoredView { block: blocks[hash].block.notarized(), length: blocks[hash].length },
        )
    } else {
        blocks
    }
}

/// Offering a block to a store that obeys the chain rules gives a store that
/// obeys them, in which every block of the old store stands unchanged.
pub proof fn with_block_keeps_rules(blocks: Map<Seq<u8>, StoredView>, block: BlockView)
    requires
        chain_rules(blocks),
    ensures
        chain_rules(with_block(blocks, block)),
        forall|k: Seq<u8>| #[trigger]
            blocks.contains_key(k) ==> with_block(blocks, block).contains_key(k) && with_block(
                blocks,
                block,
            )[k] == blocks[k],
{
    let after = with_block(blocks, block);
    let root = genesis().digest();
    assert(blocks.contains_key(root));
    assert forall|k: Seq<u8>| #[trigger] after.contains_key(k) implies after[k].block.digest() == k
        && after[k].length >= 1 by {
        if k != block.digest() {
            assert(blocks.contains_key(k));
        }
    }
    assert(parents_held(after)) by {
        reveal(parents_held);
        assert forall|k: Seq<u8>| #[trigger]
            after.contains_key(k) && k != root implies behind_parent(after, k) by {
            if blocks.contains_key(k) {
                assert(behind_parent(blocks, k));
            }
        }
    }
}

/// Notarizing a block in a store that obeys the chain rules gives a store that
/// obeys them, in which every block keeps its content and its length, and no
/// block loses its notarization.
pub proof fn with_notarized_keeps_rules(blocks: Map<Seq<u8>, StoredView>, hash: Seq<u8>)
    requires
        chain_rules(blocks),
    ensures
        chain_rules(with_notarized(blocks, hash)),
        with_notarized(blocks, hash).dom() == blocks.dom(),
        forall|k: Seq<u8>| #[trigger]
            blocks.contains_key(k) ==> {
                let after = with_notarized(blocks, hash)[k];
                &&& after.length == blocks[k].length
                &&& after.block.same_content(blocks[k].block)
                &&& after.block.notarized == (blocks[k].block.notarized || k == hash)
            },
{
    let after = with_notarized(blocks, hash);
    let root = genesis().digest();
    assert(blocks.contains_key(root));
    assert(after.dom() =~= blocks.dom());
    assert forall|k: Seq<u8>| #[trigger] after.contains_key(k) implies after[k].block.digest() == k
        && after[k].length >= 1 by {
        assert(blocks.contains_key(k));
    }
    assert(parents_held(after)) by {
        reveal(parents_held);
        assert forall|k: Seq<u8>| #[trigger]
            after.contains_key(k) && k != root implies behind_parent(after, k) by {
            assert(blocks.contains_key(k));
            assert(behind_parent(blocks, k));
        }
    }
}

#[derive(Copy, Clone, Debug)]
struct StoredBlock {
    digest: BlockHash,
    block: Block,
    length: u32,
}

spec fn stored_view(entry: StoredBlock) -> StoredView {
    StoredView { block: entry.block@, length: entry.length as nat }
}

spec fn holds_at(entries: Seq<StoredBlock>, i: int, k: Seq<u8>) -> bool {
    0 <= i < entries.len() && entries[i].digest@ == k
}

spec fn holds(entries: Seq<StoredBlock>, k: Seq<u8>) -> bool {
    exists|i: int| holds_at(entries, i, k)
}

spec fn slot(entries: Seq<StoredBlock>, k: Seq<u8>) -> int {
    choose|i: int| holds_at(entries, i, k)
}

spec fn distinct(entries: Seq<StoredBlock>) -> bool {
    forall|i: int, j: int|
        0 <= i < j < entries.len() ==> (#[trigger] entries[i]).digest@ != (
        #[trigger] entries[j]).digest@
}

spec fn map_of(entries: Seq<StoredBlock>) -> Map<Seq<u8>, StoredView> {
    Map::new(|k: Seq<u8>| holds(entries, k), |k: Seq<u8>| stored_view(entries[slot(entries, k)]))
}

proof fn lemma_slot(entries: Seq<StoredBlock>, i: int)
    requires
        distinct(entries),
        0 <= i < entries.len(),
    ensures
        holds(entries, entries[i].digest@),
        slot(entries, entries[i].digest@) == i,
        map_of(entries).contains_key(entries[i].digest@),
        map_of(entries)[entries[i].digest@] == stored_view(entries[i]),
{
    assert(holds_at(entries, i, entries[i].digest@));
    let j = slot(entries, entries[i].digest@);
    assert(holds_at(entries, j, entries[i].digest@));
    if j != i {
        if j < i {
            assert(entries[j].digest@ != entries[i].digest@);
        } else {
            assert(entries[i].digest@ != entries[j].digest@);
        }
    }
}

proof fn lemma_push(entries: Seq<StoredBlock>, entry: StoredBlock)
    requires
        distinct(entries),
        !holds(entries, entry.digest@),
    ensures
        distinct(entries.push(entry)),
        map_of(entries.push(entry)) == map_of(entries).insert(entry.digest@, stored_view(entry)),
{
    let after = entries.push(entry);
    assert forall|i: int, j: int| 0 <= i < j < after.len() implies (#[trigger] after[i]).digest@
        != (#[trigger] after[j]).digest@ by {
        if j == entries.len() {
            assert(holds_at(entries, i, after[i].digest@));
        } else {
            assert(after[i] == entries[i] && after[j] == entries[j]);
        }
    }
    let goal = map_of(entries).insert(entry.digest@, stored_view(entry));
    assert forall|k: Seq<u8>| map_of(after).contains_key(k) == goal.contains_key(k) by {
        if holds(after, k) {
            let i = slot(after, k);
            assert(holds_at(after, i, k));
            if i < entries.len() {
                assert(holds_at(entries, i, k));
            }
        }
        if holds(entries, k) {
            let i = slot(entries, k);
            assert(holds_at(entries, i, k));
            assert(holds_at(after, i, k));
        }
        if k == entry.digest@ {
            assert(holds_at(after, entries.len() as int, k));
        }
    }
    assert forall|k: Seq<u8>| map_of(after).contains_key(k) implies map_of(after)[k] == goal[k] by {
        let i = slot(after, k);
        assert(holds_at(after, i, k));
        lemma_slot(after, i);
        if i < entries.len() {
            lemma_slot(entries, i);
        }
    }
    assert(map_of(after) =~= goal);
}

proof fn lemma_update(entries: Seq<StoredBlock>, at: int, entry: StoredBlock)
    requires
        distinct(entries),
        0 <= at < entries.len(),
        entry.digest@ == entries[at].digest@,
    ensures
        distinct(entries.update(at, entry)),
        map_of(entries.update(at, entry)) == map_of(entries).insert(
            entry.digest@,
            stored_view(entry),
        ),
{
    let after = entries.update(at, entry);
    assert forall|i: int, j: int| 0 <= i < j < after.len() implies (#[trigger] after[i]).digest@
        != (#[trigger] after[j]).digest@ by {
        assert(after[i].digest@ == entries[i].digest@);
        assert(after[j].digest@ == entries[j].digest@);
    }
    let goal = map_of(entries).insert(entry.digest@, stored_view(entry));
    assert forall|k: Seq<u8>| map_of(after).contains_key(k) == goal.contains_key(k) by {
        if holds(after, k) {
            let i = slot(after, k);
            assert(holds_at(after, i, k));
            assert(holds_at(entries, i, k));
        }
        if holds(entries, k) {
            let i = slot(entries, k);
            assert(holds_at(entries, i, k));
            assert(holds_at(after, i, k));
        }
        if k == entry.digest@ {
            assert(holds_at(after, at, k));
        }
    }
    assert forall|k: Seq<u8>| map_of(after).contains_key(k) implies map_of(after)[k] == goal[k] by {
        let i = slot(after, k);
        assert(holds_at(after, i, k));
        lemma_slot(after, i);
        lemma_slot(entries, i);
    }
    assert(map_of(after) =~= goal);
}

/// The blocks a node knows, each under its digest.
#[derive(Debug)]
pub struct BlockStore {
    entries: Vec<StoredBlock>,
}

impl View for BlockStore {
    type V = Map<Seq<u8>, StoredView>;

    closed spec fn view(&self) -> Map<Seq<u8>, StoredView> {
        map_of(self.entries@)
    }
}

impl BlockStore {
    /// The number of blocks held.
    pub closed spec fn count(&self) -> nat {
        self.entries@.len()
    }

    /// No digest is held twice, no chain is longer than the store is large,
    /// and the blocks obey the chain rules.
    pub closed spec fn well_formed(&self) -> bool {
        &&& distinct(self.entries@)
        &&& forall|i: int|
            0 <= i < self.entries@.len() ==> (#[trigger] self.entries@[i]).length
                <= self.entries@.len()
        &&& chain_rules(self@)
    }

    /// A well-formed store obeys the chain rules, and its chains are no longer
    /// than it is large.
    pub proof fn well_formed_chains(&self)
        requires
            self.well_formed(),
        ensures
            chain_rules(self@),
            self.count() >= 1,
            forall|k: Seq<u8>| #[trigger] self@.contains_key(k) ==> self@[k].length <= self.count(),
    {
        assert forall|k: Seq<u8>| #[trigger] self@.contains_key(k) implies self@[k].length
            <= self.count() by {
            let i = slot(self.entries@, k);
            assert(holds_at(self.entries@, i, k));
            lemma_slot(self.entries@, i);
        }
        let root = genesis().digest();
        assert(self@.contains_key(root));
        let i = slot(self.entries@, root);
        assert(holds_at(self.entries@, i, root));
    }

    /// A store that holds the genesis block and nothing else.
    pub fn new() -> (store: Self)
        ensures
            store.well_formed(),
            store.count() == 1,
            store@ == Map::<Seq<u8>, StoredView>::empty().insert(
                genesis().digest(),
                StoredView { block: genesis(), length: 1 },
            ),
    {
        let block = Block::genesis_block();
        let entry = StoredBlock { digest: block.digest(), block, length: 1 };
        let mut entries: Vec<StoredBlock> = Vec::new();
        proof {
            reveal(parents_held);
            assert(!holds(entries@, entry.digest@)) by {
                if holds(entries@, entry.digest@) {
                    let i = slot(entries@, entry.digest@);
                    assert(holds_at(entries@, i, entry.digest@));
                }
            }
            lemma_push(entries@, entry);
            assert(map_of(entries@) =~= Map::<Seq<u8>, StoredView>::empty()) by {
                assert forall|k: Seq<u8>| !holds(entries@, k) by {
                    if holds(entries@, k) {
                        let i = slot(entries@, k);
                        assert(holds_at(entries@, i, k));
                    }
                }
            }
        }
        entries.push(entry);
        BlockStore { entries }
    }

    fn find(&self, hash: &BlockHash) -> (found: Option<usize>)
        ensures
            match found {
                Some(i) => holds_at(self.entries@, i as int, hash@),
                None => !holds(self.entries@, hash@),
            },
    {
        let mut i: usize = 0;
        while i < self.entries.len()
            invariant
                i <= self.entries@.len(),
                forall|j: int| 0 <= j < i ==> !holds_at(self.entries@, j, hash@),
            decreases self.entries@.len() - i,
        {
            if hash_eq(&self.entries[i].digest, hash) {
                return Some(i);
            }
            i += 1;
        }
        proof {
            if holds(self.entries@, hash@) {
                let j = slot(self.entries@, hash@);
                assert(holds_at(self.entries@, j, hash@));
            }
        }
        None
    }

    /// The number of blocks held.
    pub fn len(&self) -> (len: usize)
        ensures
            len == self.count(),
    {
        self.entries.len()
    }

    /// Whether a block is held under `hash`.
    pub fn contains(&self, hash: &BlockHash) -> (held: bool)
        ensures
            held == self@.contains_key(hash@),
    {
        self.find(hash).is_some()
    }

    /// The block under `hash` and the length of its chain.
    pub fn get(&self, hash: &BlockHash) -> (found: Option<(Block, u32)>)
        requires
            self.well_formed(),
        ensures
            found.is_some() == self@.contains_key(hash@),
            found matches Some((block, length)) ==> self@[hash@] == (StoredView {
                block: block@,
                length: length as nat,
            }),
    {
        match self.find(hash) {
            Some(i) => {
                proof {
                    lemma_slot(self.entries@, i as int);
                }
                let entry = self.entries[i];
                Some((entry.block, entry.length))
            },
            None => None,
        }
    }

    /// Stores `block` under its digest, one step behind its parent, and
    /// returns the digest. A block whose parent is not held is refused; one
    /// that is held already stays as it is.
    pub fn insert(&mut self, block: Block) -> (stored: Result<BlockHash, ConsensusError>)
        requires
            old(self).well_formed(),
            old(self).count() < u32::MAX,
        ensures
            final(self).well_formed(),
            final(self)@ == with_block(old(self)@, block@),
            final(self).count() == old(self).count() + (if final(self)@ == old(self)@ {
                0nat
            } else {
                1nat
            }),
            match stored {
                Ok(digest) => digest@ == block@.digest() && old(self)@.contains_key(block@.parent),
                Err(error) => error == ConsensusError::ParentUnknown && !old(self)@.contains_key(
                    block@.parent,
                ),
            },
    {
        let parent = match self.find(&block.parent_digest) {
            Some(i) => i,
            None => {
                return Err(ConsensusError::ParentUnknown);
            },
        };
        let digest = block.digest();
        proof {
            lemma_slot(self.entries@, parent as int);
            self.well_formed_chains();
        }
        if self.find(&digest).is_some() {
            return Ok(digest);
        }
        let entry = StoredBlock { digest, block, length: self.entries[parent].length + 1 };
        proof {
            lemma_push(self.entries@, entry);
            let before = self@;
            let after = map_of(self.entries@.push(entry));
            assert(after == with_block(before, block@));
            assert(before.contains_key(genesis().digest()));
            with_block_keeps_rules(before, block@);
            assert(after != before) by {
                assert(after.contains_key(digest@));
            }
        }
        self.entries.push(entry);
        Ok(digest)
    }

    /// Marks the block under `hash` notarized and says whether the store
    /// holds such a block. Without one, nothing changes.
    pub fn notarize(&mut self, hash: &BlockHash) -> (held: bool)
        requires
            old(self).well_formed(),
        ensures
            final(self).well_formed(),
            final(self).count() == old(self).count(),
            held == old(self)@.contains_key(hash@),
            final(self)@ == with_notarized(old(self)@, hash@),
    {
        match self.find(hash) {
            Some(i) => {
                let mut entry = self.entries[i];
                entry.block.notarize();
                proof {
                    lemma_slot(self.entries@, i as int);
                    lemma_update(self.entries@, i as int, entry);
                    let before = self@;
                    let after = map_of(self.entries@.update(i as int, entry));
                    assert(after == with_notarized(before, hash@));
                    with_notarized_keeps_rules(before, hash@);
                }
                self.entries.set(i, entry);
                true
            },
            None => false,
        }
    }
}

} // verus!
