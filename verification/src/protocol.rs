//! The protocol as mathematics: the state of one node and the transitions
//! that a tick of the epoch clock and the receipt of a message make on it.

use crate::block::{genesis, payload_for, BlockView};
use crate::error::ConsensusError;
use crate::message::{ContentView, MessageView};
use crate::node::{Epoch, NodeIdentifier};
use crate::store::{chain_rules, with_block, with_notarized, StoredView};
use crate::utils::{byte_sum, le_bytes, sha512};
use vstd::prelude::*;

verus! {

/// The least number of distinct voters that notarizes a block among
/// `node_count` nodes: two thirds of them, rounded down.
pub open spec fn quorum(node_count: u32) -> nat {
    (2 * node_count / 3) as nat
}

/// The leader of `epoch` among `node_count` nodes: the bytes of the hash of
/// the epoch's little-endian encoding, added up and reduced modulo the number
/// of nodes.
pub open spec fn leader_for(epoch: Epoch, node_count: u32) -> nat
    recommends
        node_count > 0,
{
    byte_sum(sha512(le_bytes(epoch))) % (node_count as nat)
}

/// The votes recorded for one block.
pub struct TallyView {
    pub digest: Seq<u8>,
    pub voters: Set<NodeIdentifier>,
}

/// Whether a tally for `digest` stands at position `i`.
pub open spec fn tally_at(votes: Seq<TallyView>, i: int, digest: Seq<u8>) -> bool {
    0 <= i < votes.len() && votes[i].digest == digest
}

/// Whether some tally is kept for `digest`.
pub open spec fn has_tally(votes: Seq<TallyView>, digest: Seq<u8>) -> bool {
    exists|i: int| tally_at(votes, i, digest)
}

/// The position of the tally for `digest`.
pub open spec fn tally_slot(votes: Seq<TallyView>, digest: Seq<u8>) -> int {
    choose|i: int| tally_at(votes, i, digest)
}

/// The voters recorded for `digest`; nobody where no tally is kept.
pub open spec fn voters_for(votes: Seq<TallyView>, digest: Seq<u8>) -> Set<NodeIdentifier> {
    if has_tally(votes, digest) {
        votes[tally_slot(votes, digest)].voters
    } else {
        Set::empty()
    }
}

/// The tallies after `voter` voted for `digest`: the voter joins the tally of
/// the block, which is opened behind all others if this is its first vote.
pub open spec fn with_vote(votes: Seq<TallyView>, digest: Seq<u8>, voter: NodeIdentifier) -> Seq<
    TallyView,
> {
    if has_tally(votes, digest) {
        let i = tally_slot(votes, digest);
        votes.update(i, TallyView { digest, voters: votes[i].voters.insert(voter) })
    } else {
        votes.push(TallyView { digest, voters: Set::empty().insert(voter) })
    }
}

/// One tally per block, each with finitely many voters and at least one.
pub open spec fn tallies_well_formed(votes: Seq<TallyView>) -> bool {
    &&& forall|i: int, j: int|
        0 <= i < j < votes.len() ==> (#[trigger] votes[i]).digest != (#[trigger] votes[j]).digest
    &&& forall|i: int|
        0 <= i < votes.len() ==> (#[trigger] votes[i]).voters.finite() && votes[i].voters.len() > 0
}

/// The copies of a message that a flood from node `id` puts on the queue for
/// the nodes below `upto`: one for each node but `id` itself, in rising order
/// of their identifiers, each with the sender and content of the message
/// copied.
pub open spec fn flood(
    id: NodeIdentifier,
    from: NodeIdentifier,
    content: ContentView,
    upto: nat,
) -> Seq<MessageView>
    decreases upto,
{
    if upto == 0 {
        Seq::empty()
    } else {
        let before = flood(id, from, content, (upto - 1) as nat);
        if upto - 1 == id {
            before
        } else {
            before.push(MessageView { from, to: (upto - 1) as NodeIdentifier, content })
        }
    }
}

/// The state of one node.
pub struct NodeView {
    pub id: NodeIdentifier,
    pub node_count: u32,
    /// The tied heads of the longest notarized chains, oldest first.
    pub heads: Seq<Seq<u8>>,
    /// The head of the finalized chain.
    pub finalized: Seq<u8>,
    pub blocks: Map<Seq<u8>, StoredView>,
    /// The tallies, in the order in which their first votes came.
    pub votes: Seq<TallyView>,
    pub leader: NodeIdentifier,
}

impl NodeView {
    /// A node that knows the genesis block alone.
    pub open spec fn initial(id: NodeIdentifier, node_count: u32) -> NodeView {
        NodeView {
            id,
            node_count,
            heads: seq![genesis().digest()],
            finalized: genesis().digest(),
            blocks: Map::empty().insert(
                genesis().digest(),
                StoredView { block: genesis(), length: 1 },
            ),
            votes: Seq::empty(),
            leader: 0,
        }
    }

    /// The chain length that all heads share.
    pub open spec fn head_length(self) -> nat {
        self.blocks[self.heads[0]].length
    }

    /// The invariant of a node's state.
    pub open spec fn well_formed(self) -> bool {
        &&& self.node_count > 0
        &&& chain_rules(self.blocks)
        &&& self.heads.len() > 0
        &&& self.heads.no_duplicates()
        &&& forall|i: int|
            0 <= i < self.heads.len() ==> {
                &&& self.blocks.contains_key(#[trigger] self.heads[i])
                &&& self.blocks[self.heads[i]].block.notarized
                &&& self.blocks[self.heads[i]].length == self.head_length()
                &&& self.heads[i] == genesis().digest() || self.parent_notarized(self.heads[i])
            }
        &&& self.blocks.contains_key(self.finalized)
        &&& self.blocks[self.finalized].block.notarized
        &&& tallies_well_formed(self.votes)
    }

    /// Whether a tally has reached the quorum.
    pub open spec fn reached_quorum(self, voters: Set<NodeIdentifier>) -> bool {
        voters.len() >= quorum(self.node_count)
    }

    /// The state after the block under `hash`, if known, was notarized.
    pub open spec fn notarize(self, hash: Seq<u8>) -> NodeView {
        NodeView { blocks: with_notarized(self.blocks, hash), ..self }
    }

    /// Whether the block under `hash` and its parent are both known.
    pub open spec fn knows_with_parent(self, hash: Seq<u8>) -> bool {
        self.blocks.contains_key(hash) && self.blocks.contains_key(self.blocks[hash].block.parent)
    }

    /// Whether the parent of the known block under `hash` is known and
    /// notarized.
    pub open spec fn parent_notarized(self, hash: Seq<u8>) -> bool {
        let parent = self.blocks[hash].block.parent;
        self.blocks.contains_key(parent) && self.blocks[parent].block.notarized
    }

    /// The rule of three: the block under `hash`, its parent and its
    /// grandparent are all known and notarized, and were created in three
    /// consecutive epochs.
    pub open spec fn closes_three(self, hash: Seq<u8>) -> bool {
        let block = self.blocks[hash].block;
        let parent = self.blocks[block.parent].block;
        let grandparent = self.blocks[parent.parent].block;
        &&& self.knows_with_parent(hash)
        &&& block.notarized
        &&& parent.notarized
        &&& parent.epoch + 1 == block.epoch
        &&& self.blocks.contains_key(parent.parent)
        &&& grandparent.notarized
        &&& grandparent.epoch + 2 == block.epoch
    }

    /// The state after a finalization check on the block under `hash`: where
    /// the block closes three consecutive notarized epochs, its parent becomes
    /// the finalized head.
    pub open spec fn try_finalize(self, hash: Seq<u8>) -> NodeView {
        if self.closes_three(hash) {
            NodeView { finalized: self.blocks[hash].block.parent, ..self }
        } else {
            self
        }
    }

    /// What a finalization check on the block under `hash` reports: whether
    /// it moved the finalized head, or that the block is not known, or that it is
    /// notarized and its parent is not known.
    pub open spec fn finalize_outcome(self, hash: Seq<u8>) -> Result<bool, ConsensusError> {
        if !self.blocks.contains_key(hash) {
            Err(ConsensusError::ParentUnknown)
        } else if !self.blocks[hash].block.notarized {
            Ok(false)
        } else if !self.blocks.contains_key(self.blocks[hash].block.parent) {
            Err(ConsensusError::ParentUnknown)
        } else {
            Ok(self.closes_three(hash))
        }
    }

    /// Whether the known block under `hash` takes part in the fork choice:
    /// it is notarized, and so is its parent.
    pub open spec fn eligible(self, hash: Seq<u8>) -> bool {
        &&& self.blocks.contains_key(hash)
        &&& self.blocks[hash].block.notarized
        &&& self.parent_notarized(hash)
    }

    /// The state after the fork choice looked at the block under `hash`: an
    /// eligible block on a longer chain than the heads replaces them all, one
    /// on a chain of their length joins them, and any other changes nothing.
    pub open spec fn adjust(self, hash: Seq<u8>) -> NodeView {
        if !self.eligible(hash) {
            self
        } else if self.head_length() < self.blocks[hash].length {
            NodeView { heads: seq![hash], ..self }
        } else if self.head_length() == self.blocks[hash].length && !self.heads.contains(hash) {
            NodeView { heads: self.heads.push(hash), ..self }
        } else {
            self
        }
    }

    /// The state after a tick has dealt with one tally: a block whose tally has
    /// reached the quorum is notarized and checked for finalization, and the
    /// fork choice then looks at the block, if it is known.
    pub open spec fn tick_tally(self, tally: TallyView) -> NodeView {
        let counted = if self.reached_quorum(tally.voters) {
            self.notarize(tally.digest).try_finalize(tally.digest)
        } else {
            self
        };
        counted.adjust(tally.digest)
    }

    /// The state after a tick has dealt with the first `upto` tallies, in
    /// their order.
    pub open spec fn tick_votes(self, upto: nat) -> NodeView
        decreases upto,
    {
        if upto == 0 {
            self
        } else {
            self.tick_votes((upto - 1) as nat).tick_tally(self.votes[upto - 1])
        }
    }

    /// Whether a tick drops the finalization check for a tally: the tally
    /// has reached the quorum, and the check names a block that is not known.
    pub open spec fn check_dropped(self, tally: TallyView) -> bool {
        self.reached_quorum(tally.voters) && self.notarize(tally.digest).finalize_outcome(
            tally.digest,
        ).is_err()
    }

    /// The blocks whose finalization checks a tick drops while it deals with
    /// the first `upto` tallies, in the order of the tallies.
    pub open spec fn tick_dropped(self, upto: nat) -> Seq<Seq<u8>>
        decreases upto,
    {
        if upto == 0 {
            Seq::empty()
        } else {
            let before = self.tick_dropped((upto - 1) as nat);
            if self.tick_votes((upto - 1) as nat).check_dropped(self.votes[upto - 1]) {
                before.push(self.votes[upto - 1].digest)
            } else {
                before
            }
        }
    }

    /// The block that this node proposes when it leads `epoch`: a child of
    /// its first head.
    pub open spec fn proposal(self, epoch: Epoch) -> BlockView {
        BlockView {
            parent: self.heads[0],
            payload: payload_for(epoch),
            epoch,
            notarized: false,
        }
    }

    /// The state after all tallies were dealt with and the leader of `epoch`
    /// was computed.
    pub open spec fn tick_counted(self, epoch: Epoch) -> NodeView {
        NodeView {
            leader: leader_for(epoch, self.node_count) as NodeIdentifier,
            ..self.tick_votes(self.votes.len())
        }
    }

    /// The state after the tick of `epoch`: the tallies are dealt with, the
    /// leader is computed, and a node that leads stores its own proposal.
    pub open spec fn tick(self, epoch: Epoch) -> NodeView {
        let counted = self.tick_counted(epoch);
        if counted.leader == counted.id {
            NodeView { blocks: with_block(counted.blocks, counted.proposal(epoch)), ..counted }
        } else {
            counted
        }
    }

    /// The messages that the tick of `epoch` puts on the queue: the leader's
    /// proposal for every other node, or nothing.
    pub open spec fn tick_output(self, epoch: Epoch) -> Seq<MessageView> {
        let counted = self.tick_counted(epoch);
        if counted.leader == counted.id {
            flood(
                self.id,
                self.id,
                ContentView::Proposal(counted.proposal(epoch)),
                self.node_count as nat,
            )
        } else {
            Seq::empty()
        }
    }

    /// Whether a message is new to this node: it comes from another node, and
    /// either proposes a block that is not stored while its parent is, or is a
    /// vote that its block's tally does not hold.
    pub open spec fn is_news(self, message: MessageView) -> bool {
        &&& message.from != self.id
        &&& match message.content {
            ContentView::Proposal(block) => !self.blocks.contains_key(block.digest())
                && self.blocks.contains_key(block.parent),
            ContentView::Vote(digest) => !voters_for(self.votes, digest).contains(message.from),
        }
    }

    /// Whether this node votes for a proposed block: the block is news and
    /// extends one of the longest notarized chains.
    pub open spec fn votes_on(self, message: MessageView) -> bool {
        &&& self.is_news(message)
        &&& message.content matches ContentView::Proposal(block)
        &&& self.heads.contains(block.parent)
    }

    /// The state after a message was received. News is taken in: a proposed
    /// block is stored, a vote is tallied. Anything else changes nothing.
    pub open spec fn receive(self, message: MessageView) -> NodeView {
        if !self.is_news(message) {
            self
        } else {
            match message.content {
                ContentView::Proposal(block) => NodeView {
                    blocks: with_block(self.blocks, block),
                    ..self
                },
                ContentView::Vote(digest) => NodeView {
                    votes: with_vote(self.votes, digest, message.from),
                    ..self
                },
            }
        }
    }

    /// The messages that the receipt of a message puts on the queue: for a
    /// proposal that the node votes on, its vote, addressed to the leader;
    /// then, for any news, a copy of the message for every other node.
    pub open spec fn receive_output(self, message: MessageView) -> Seq<MessageView> {
        if !self.is_news(message) {
            Seq::empty()
        } else {
            let echo = flood(self.id, message.from, message.content, self.node_count as nat);
            match message.content {
                ContentView::Proposal(block) => if self.votes_on(message) {
                    seq![
                        MessageView {
                            from: self.id,
                            to: self.leader,
                            content: ContentView::Vote(block.digest()),
                        },
                    ] + echo
                } else {
                    echo
                },
                ContentView::Vote(digest) => echo,
            }
        }
    }

    /// What the receipt of a message reports: a proposal from another node
    /// for a block that is not stored and whose parent is not stored either
    /// is dropped as an error; everything else is in order.
    pub open spec fn receive_outcome(self, message: MessageView) -> Result<(), ConsensusError> {
        if message.from != self.id && (message.content matches ContentView::Proposal(block)
            && !self.blocks.contains_key(block.digest()) && !self.blocks.contains_key(
            block.parent,
        )) {
            Err(ConsensusError::ParentUnknown)
        } else {
            Ok(())
        }
    }
}

} // verus!
