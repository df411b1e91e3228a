//! The honest node: it proposes when it leads, votes for proposals that
//! extend a longest notarized chain, and passes on what is new to it.

use crate::block::Block;
use crate::error::ConsensusError;
use crate::invariants::{
    adjust_keeps_well_formed, notarize_keeps_well_formed, receive_keeps_well_formed,
    store_keeps_well_formed, tick_votes_keeps_well_formed, try_finalize_keeps_well_formed,
};
use crate::laws::finality::{
    finality_carries_over, finality_justified, receive_keeps_finality_justified,
    try_finalize_keeps_finality_justified,
};
use crate::message::{
    message_views, message_views_push, Message, MessageContent, ProposalMessage, VoteMessage,
};
use crate::node::{BaseNode, Epoch, NodeIdentifier};
use crate::protocol::{
    flood, has_tally, leader_for, quorum, tally_at, tally_slot, voters_for, NodeView,
};
use crate::store::{
    with_block, with_block_keeps_rules, with_notarized_keeps_rules, BlockStore, StoredView,
};
use crate::tally::VoteBook;
use crate::utils::{hash_eq, push_le_bytes, sha512_digest, sum_hash_bytes, BlockHash};
use std::collections::VecDeque;
use vstd::prelude::*;

verus! {

/// A node that follows the protocol.
#[derive(Debug)]
pub struct HonestNode {
    id: NodeIdentifier,
    node_count: u32,
    longest_notarized_chain_head_digests: Vec<BlockHash>,
    finalized_chain_head_digest: BlockHash,
    blocks: BlockStore,
    votes: VoteBook,
    current_leader: NodeIdentifier,
}

/// Digests as byte sequences, in order.
pub open spec fn hash_views(hashes: Seq<BlockHash>) -> Seq<Seq<u8>> {
    Seq::new(hashes.len(), |i: int| hashes[i]@)
}

/// Whether `hash` is among `hashes`.
fn contains_hash(hashes: &Vec<BlockHash>, hash: &BlockHash) -> (found: bool)
    ensures
        found == hash_views(hashes@).contains(hash@),
{
    let mut i: usize = 0;
    while i < hashes.len()
        invariant
            i <= hashes@.len(),
            forall|j: int| 0 <= j < i ==> hash_views(hashes@)[j] != hash@,
        decreases hashes@.len() - i,
    {
        if hash_eq(&hashes[i], hash) {
            assert(hash_views(hashes@)[i as int] == hash@);
            return true;
        }
        i += 1;
    }
    false
}

impl View for HonestNode {
    type V = NodeView;

    closed spec fn view(&self) -> NodeView {
        NodeView {
            id: self.id,
            node_count: self.node_count,
            heads: hash_views(self.longest_notarized_chain_head_digests@),
            finalized: self.finalized_chain_head_digest@,
            blocks: self.blocks@,
            votes: self.votes@,
            leader: self.current_leader,
        }
    }
}

impl HonestNode {
    /// The node `id` of a network of `node_count` nodes, which knows the
    /// genesis block alone.
    pub fn new(id: NodeIdentifier, node_count: u32) -> (node: Self)
        requires
            node_count > 0,
        ensures
            node@ == NodeView::initial(id, node_count),
            node.well_formed(),
            node.has_room(),
    {
        let genesis_block = Block::genesis_block();
        let block_key = genesis_block.digest();
        let node = HonestNode {
            id,
            node_count,
            blocks: BlockStore::new(),
            longest_notarized_chain_head_digests: vec![block_key],
            finalized_chain_head_digest: block_key,
            votes: VoteBook::new(),
            current_leader: 0,
        };
        proof {
            assert(node@.heads =~= seq![block_key@]);
            node.blocks.well_formed_chains();
            node.votes.well_formed_tallies();
        }
        node
    }

    /// The state of a well-formed node is well-formed, and its finalized head
    /// is the genesis block or the middle one of three notarized blocks in a
    /// row.
    pub proof fn well_formed_state(&self)
        requires
            self.well_formed(),
        ensures
            self@.well_formed(),
            finality_justified(self@),
    {
    }

    /// The identifier of this node.
    pub fn id(&self) -> (id: NodeIdentifier)
        ensures
            id == self@.id,
    {
        self.id
    }

    /// The number of nodes in the network.
    pub fn node_count(&self) -> (node_count: u32)
        ensures
            node_count == self@.node_count,
    {
        self.node_count
    }

    /// The leader that the last tick computed.
    pub fn current_leader(&self) -> (leader: NodeIdentifier)
        ensures
            leader == self@.leader,
    {
        self.current_leader
    }

    /// The head of the finalized chain.
    pub fn finalized_head(&self) -> (head: BlockHash)
        ensures
            head@ == self@.finalized,
    {
        self.finalized_chain_head_digest
    }

    /// The tied heads of the longest notarized chains, oldest first.
    pub fn longest_notarized_heads(&self) -> (heads: &Vec<BlockHash>)
        ensures
            hash_views(heads@) == self@.heads,
    {
        &self.longest_notarized_chain_head_digests
    }

    /// The block stored under `hash` and the length of its chain.
    pub fn block(&self, hash: &BlockHash) -> (found: Option<(Block, u32)>)
        requires
            self.well_formed(),
        ensures
            found.is_some() == self@.blocks.contains_key(hash@),
            found matches Some((block, length)) ==> self@.blocks[hash@] == (StoredView {
                block: block@,
                length: length as nat,
            }),
    {
        self.blocks.get(hash)
    }

    /// The number of distinct voters recorded for the block under `hash`.
    pub fn votes_for(&self, hash: &BlockHash) -> (votes: u32)
        requires
            self.well_formed(),
        ensures
            votes == voters_for(self@.votes, hash@).len(),
    {
        self.votes.votes_for(hash)
    }

    /// Whether this node leads `epoch`.
    pub fn is_leader(&self, epoch: Epoch) -> (leads: bool)
        requires
            self@.node_count > 0,
        ensures
            leads == (leader_for(epoch, self@.node_count) == self@.id),
    {
        self.calculate_leader_id(epoch) == self.id
    }

    /// The leader of `epoch`: a function of the epoch and the number of nodes
    /// alone, so that every node computes the same one.
    pub fn calculate_leader_id(&self, epoch: Epoch) -> (leader: NodeIdentifier)
        requires
            self@.node_count > 0,
        ensures
            leader == leader_for(epoch, self@.node_count),
            leader < self@.node_count,
    {
        let mut bytes: Vec<u8> = Vec::new();
        push_le_bytes(&mut bytes, epoch);
        let hash = sha512_digest(bytes.as_slice());
        let sum = sum_hash_bytes(&hash);
        sum % self.node_count
    }

    /// Puts on the queue a copy of `message` for every node but this one, in
    /// rising order of their identifiers.
    pub fn broadcast(&self, message: &Message, message_queue: &mut VecDeque<Message>)
        ensures
            message_views(final(message_queue)@) == message_views(old(message_queue)@) + flood(
                self@.id,
                message@.from,
                message@.content,
                self@.node_count as nat,
            ),
    {
        let mut target_id: u32 = 0;
        assert(message_views(message_queue@) =~= message_views(old(message_queue)@) + flood(
            self@.id,
            message@.from,
            message@.content,
            0,
        ));
        while target_id < self.node_count
            invariant
                target_id <= self.node_count,
                message_views(message_queue@) == message_views(old(message_queue)@) + flood(
                    self@.id,
                    message@.from,
                    message@.content,
                    target_id as nat,
                ),
            decreases self.node_count - target_id,
        {
            let ghost sent = flood(self@.id, message@.from, message@.content, target_id as nat);
            if target_id != self.id {
                let new_message = Message {
                    to: target_id,
                    from: message.from,
                    content: message.content,
                };
                proof {
                    message_views_push(message_queue@, new_message);
                    assert((message_views(old(message_queue)@) + sent).push(new_message@)
                        =~= message_views(old(message_queue)@) + sent.push(new_message@));
                }
                message_queue.push_back(new_message);
            }
            target_id += 1;
        }
    }

    /// Whether `votes` distinct voters reach the quorum: two thirds of the
    /// nodes, rounded down.
    pub fn can_block_be_notarized(&self, votes: u32) -> (enough: bool)
        ensures
            enough == (votes >= quorum(self@.node_count)),
    {
        votes as u64 >= self.node_count as u64 * 2 / 3
    }

    /// Marks the block under `block_digest` notarized; without such a block,
    /// and for a block that is notarized already, nothing changes.
    pub fn notarize_block(&mut self, block_digest: BlockHash)
        requires
            old(self).well_formed(),
        ensures
            final(self).well_formed(),
            final(self)@ == old(self)@.notarize(block_digest@),
            final(self).has_room() == old(self).has_room(),
    {
        proof {
            notarize_keeps_well_formed(self@, block_digest@);
            with_notarized_keeps_rules(self@.blocks, block_digest@);
            finality_carries_over(self@, self@.notarize(block_digest@));
        }
        self.blocks.notarize(&block_digest);
    }

    /// Whether `block` can stand in three blocks in a row at `expected_epoch`:
    /// it is notarized and was created in that epoch.
    pub fn can_block_be_finalized(&self, block: &Block, expected_epoch: Epoch) -> (fits: bool)
        ensures
            fits == (block@.notarized && block@.epoch == expected_epoch),
    {
        block.is_notarized && block.creation_epoch == expected_epoch
    }

    /// Checks whether the block under `block_digest` closes three consecutive
    /// notarized epochs, and makes its parent the finalized head if so.
    pub fn try_finalize_chain(&mut self, block_digest: BlockHash) -> (outcome: Result<
        bool,
        ConsensusError,
    >)
        requires
            old(self).well_formed(),
        ensures
            final(self).well_formed(),
            final(self)@ == old(self)@.try_finalize(block_digest@),
            outcome == old(self)@.finalize_outcome(block_digest@),
            final(self).has_room() == old(self).has_room(),
    {
        proof {
            try_finalize_keeps_well_formed(self@, block_digest@);
            try_finalize_keeps_finality_justified(self@, block_digest@);
        }
        let block = match self.blocks.get(&block_digest) {
            Some((block, _length)) => block,
            None => {
                return Err(ConsensusError::ParentUnknown);
            },
        };
        if !block.is_notarized {
            return Ok(false);
        }
        let parent = match self.blocks.get(&block.parent_digest) {
            Some((parent, _length)) => parent,
            None => {
                return Err(ConsensusError::ParentUnknown);
            },
        };
        if block.creation_epoch < 1 || !self.can_block_be_finalized(
            &parent,
            block.creation_epoch - 1,
        ) {
            return Ok(false);
        }
        let grandparent = match self.blocks.get(&parent.parent_digest) {
            Some((grandparent, _length)) => grandparent,
            None => {
                return Ok(false);
            },
        };
        if block.creation_epoch < 2 || !self.can_block_be_finalized(
            &grandparent,
            block.creation_epoch - 2,
        ) {
            return Ok(false);
        }
        self.finalized_chain_head_digest = block.parent_digest;
        Ok(true)
    }

    /// Lets the fork choice look at a stored block: a notarized block with a
    /// notarized parent replaces the heads if its chain is longer than theirs,
    /// and joins them if it is as long.
    pub fn adjust_longest_chain_head(&mut self, new_block: &Block, new_length: u32)
        requires
            old(self).well_formed(),
            old(self)@.blocks.contains_key(new_block@.digest()),
            old(self)@.blocks[new_block@.digest()] == (StoredView {
                block: new_block@,
                length: new_length as nat,
            }),
        ensures
            final(self).well_formed(),
            final(self)@ == old(self)@.adjust(new_block@.digest()),
            final(self).has_room() == old(self).has_room(),
    {
        proof {
            adjust_keeps_well_formed(self@, new_block@.digest());
            finality_carries_over(self@, self@.adjust(new_block@.digest()));
        }
        if !new_block.is_notarized {
            return;
        }
        match self.blocks.get(&new_block.parent_digest) {
            Some((parent, _length)) => {
                if !parent.is_notarized {
                    return;
                }
            },
            None => {
                return;
            },
        }
        let first_longest_chain_head = self.longest_notarized_chain_head_digests[0];
        assert(self@.heads[0] == first_longest_chain_head@);
        match self.blocks.get(&first_longest_chain_head) {
            Some((_head, curr_longest_length)) => {
                let digest = new_block.digest();
                if curr_longest_length < new_length {
                    self.longest_notarized_chain_head_digests = vec![digest];
                    assert(self@.heads =~= seq![digest@]);
                } else if curr_longest_length == new_length {
                    if !contains_hash(&self.longest_notarized_chain_head_digests, &digest) {
                        self.longest_notarized_chain_head_digests.push(digest);
                        assert(self@.heads =~= old(self)@.heads.push(digest@));
                    }
                }
            },
            None => {},
        }
    }

    /// Whether the node's counters can take one more block and one more vote.
    pub fn can_grow(&self) -> (roomy: bool)
        requires
            self.well_formed(),
        ensures
            roomy == self.has_room(),
    {
        if self.blocks.len() >= u32::MAX as usize {
            return false;
        }
        let mut i: usize = 0;
        while i < self.votes.len()
            invariant
                self.votes.well_formed(),
                i <= self.votes@.len(),
                forall|j: int| 0 <= j < i ==> (#[trigger] self.votes@[j]).voters.len() < u32::MAX,
            decreases self.votes@.len() - i,
        {
            if self.votes.votes_at(i) == u32::MAX {
                return false;
            }
            i += 1;
        }
        true
    }
}

impl BaseNode for HonestNode {
    closed spec fn well_formed(&self) -> bool {
        &&& self@.well_formed()
        &&& finality_justified(self@)
        &&& self.blocks.well_formed()
        &&& self.votes.well_formed()
    }

    closed spec fn has_room(&self) -> bool {
        &&& self.blocks.count() < u32::MAX
        &&& self.votes.has_room()
    }

    /// Takes a message. One from this node itself, a proposal for a stored
    /// block and a repeated vote are passed over. A proposal whose parent is
    /// not stored is dropped with an error. Anything else is news: the block
    /// is stored, or the vote tallied, and a copy of the message goes to every
    /// other node, behind this node's own vote where it votes on the proposal.
    fn on_message_received(
        &mut self,
        message: &Message,
        message_queue: &mut VecDeque<Message>,
    ) -> (outcome: Result<(), ConsensusError>)
        ensures
            final(self)@ == old(self)@.receive(message@),
            message_views(final(message_queue)@) == message_views(old(message_queue)@) + old(
                self,
            )@.receive_output(message@),
            outcome == old(self)@.receive_outcome(message@),
    {
        proof {
            receive_keeps_well_formed(self@, message@);
            receive_keeps_finality_justified(self@, message@);
            assert(message_views(message_queue@) + Seq::empty() =~= message_views(message_queue@));
        }
        if message.from == self.id {
            return Ok(());
        }
        let mut processed_the_unique_message = false;
        match message.content {
            MessageContent::Proposal(ProposalMessage { block }) => {
                let digest = block.digest();
                if !self.blocks.contains(&digest) {
                    match self.blocks.insert(block) {
                        Ok(_) => {},
                        Err(error) => {
                            return Err(error);
                        },
                    }
                    if contains_hash(
                        &self.longest_notarized_chain_head_digests,
                        &block.parent_digest,
                    ) {
                        let vote = VoteMessage::new(self.id, self.current_leader, digest);
                        proof {
                            message_views_push(message_queue@, vote);
                        }
                        message_queue.push_back(vote);
                    }
                    processed_the_unique_message = true;
                }
            },
            MessageContent::Vote(VoteMessage { block_digest }) => {
                proof {
                    self.votes.well_formed_tallies();
                    self.room_for_vote(block_digest@);
                }
                if self.votes.record_vote(&block_digest, message.from) {
                    processed_the_unique_message = true;
                }
            },
        }
        if processed_the_unique_message {
            let ghost queued = message_views(message_queue@);
            self.broadcast(message, message_queue);
            proof {
                let echo = flood(
                    self@.id,
                    message@.from,
                    message@.content,
                    self@.node_count as nat,
                );
                if old(self)@.votes_on(message@) {
                    let vote = queued.last();
                    assert(queued + echo =~= message_views(old(message_queue)@) + (seq![vote]
                        + echo));
                }
            }
        }
        Ok(())
    }

    /// Takes the tick of `epoch`: deals with every tally in turn, computes the
    /// leader, and, where this node leads, proposes a block atop its first head
    /// to every other node and stores it. Returns the digests of the blocks
    /// with a quorum whose finalization check was dropped because the block or
    /// its parent is not stored, in the order of the tallies.
    fn at_time(&mut self, epoch: Epoch, message_queue: &mut VecDeque<Message>) -> (dropped: Vec<
        BlockHash,
    >)
        ensures
            final(self)@ == old(self)@.tick(epoch),
            message_views(final(message_queue)@) == message_views(old(message_queue)@) + old(
                self,
            )@.tick_output(epoch),
            hash_views(dropped@) == old(self)@.tick_dropped(old(self)@.votes.len()),
    {
        let tallies = self.votes.len();
        let mut dropped: Vec<BlockHash> = Vec::new();
        let mut i: usize = 0;
        assert(hash_views(dropped@) =~= old(self)@.tick_dropped(0));
        while i < tallies
            invariant
                self.well_formed(),
                self.has_room(),
                old(self).well_formed(),
                tallies == old(self)@.votes.len(),
                i <= tallies,
                self@ == old(self)@.tick_votes(i as nat),
                hash_views(dropped@) == old(self)@.tick_dropped(i as nat),
            decreases tallies - i,
        {
            proof {
                tick_votes_keeps_well_formed(old(self)@, i as nat);
            }
            let block_digest = self.votes.digest_at(i);
            let votes_for_block = self.votes.votes_at(i);
            let ghost reported = hash_views(dropped@);
            if self.can_block_be_notarized(votes_for_block) {
                self.notarize_block(block_digest);
                if self.try_finalize_chain(block_digest).is_err() {
                    dropped.push(block_digest);
                    assert(hash_views(dropped@) =~= reported.push(block_digest@));
                }
            }
            match self.blocks.get(&block_digest) {
                Some((block, length)) => {
                    proof {
                        self.blocks.well_formed_chains();
                    }
                    self.adjust_longest_chain_head(&block, length);
                },
                None => {},
            }
            i += 1;
        }
        proof {
            tick_votes_keeps_well_formed(old(self)@, tallies as nat);
            assert(message_views(message_queue@) + Seq::empty() =~= message_views(message_queue@));
        }
        let ghost voted = self@;
        self.current_leader = self.calculate_leader_id(epoch);
        proof {
            finality_carries_over(voted, self@);
        }
        if self.is_leader(epoch) {
            let first_longest_chain_head_digest = self.longest_notarized_chain_head_digests[0];
            assert(self@.heads[0] == first_longest_chain_head_digest@);
            proof {
                self.blocks.well_formed_chains();
            }
            match self.blocks.get(&first_longest_chain_head_digest) {
                Some((longest_chain_head, _length)) => {
                    let block = Block::new(epoch, longest_chain_head.digest());
                    assert(block@ == self@.proposal(epoch));
                    proof {
                        store_keeps_well_formed(self@, block@);
                        with_block_keeps_rules(self@.blocks, block@);
                        finality_carries_over(
                            self@,
                            NodeView { blocks: with_block(self@.blocks, block@), ..self@ },
                        );
                    }
                    self.broadcast(&ProposalMessage::new(self.id, self.id, block), message_queue);
                    let _ = self.blocks.insert(block);
                },
                None => {},
            }
        }
        dropped
    }
}

impl HonestNode {
    /// A node with room can tally one more vote for any block.
    proof fn room_for_vote(&self, digest: Seq<u8>)
        requires
            self.has_room(),
        ensures
            voters_for(self@.votes, digest).len() < u32::MAX,
    {
        if has_tally(self@.votes, digest) {
            let i = tally_slot(self@.votes, digest);
            assert(tally_at(self@.votes, i, digest));
        }
    }
}

} // verus!
