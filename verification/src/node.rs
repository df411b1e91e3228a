//! Nodes of the network and the votes they tally.

pub mod honest_node;

use crate::error::ConsensusError;
use crate::message::Message;
use crate::utils::BlockHash;
use std::collections::{HashSet, VecDeque};
use vstd::prelude::*;
use vstd::std_specs::hash::*;

verus! {

broadcast use vstd::std_specs::hash::group_hash_axioms;

/// The number of a node: its position in the network.
pub type NodeIdentifier = u32;

/// A round of the global clock, in which one leader may propose.
pub type Epoch = u64;

/// What the network driver asks of a node: to take the tick of an epoch and
/// to take a message, each time putting the messages it sends on the queue.
pub trait BaseNode {
    /// The invariant of the node's state.
    spec fn well_formed(&self) -> bool;

    /// Whether the node's counters can take one more block and one more vote.
    spec fn has_room(&self) -> bool;

    /// Takes a message that was addressed to this node.
    fn on_message_received(
        &mut self,
        message: &Message,
        message_queue: &mut VecDeque<Message>,
    ) -> (outcome: Result<(), ConsensusError>)
        requires
            old(self).well_formed(),
            old(self).has_room(),
        ensures
            final(self).well_formed(),
    ;

    /// Takes the tick of `epoch`. Returns the digests of the blocks for which
    /// a check was dropped because it named a block that the node does not
    /// know.
    fn at_time(&mut self, epoch: Epoch, message_queue: &mut VecDeque<Message>) -> (dropped: Vec<
        BlockHash,
    >)
        requires
            old(self).well_formed(),
            old(self).has_room(),
        ensures
            final(self).well_formed(),
    ;
}

/// The votes for one block: a count and the voters counted.
#[derive(Debug)]
pub struct Vote(pub u32, pub HashSet<NodeIdentifier>);

impl Vote {
    /// The number of votes counted.
    pub open spec fn count(&self) -> nat {
        self.0 as nat
    }

    /// The voters recorded.
    pub open spec fn voters(&self) -> Set<NodeIdentifier> {
        self.1@
    }

    /// Every recorded voter was counted once, and nobody else was.
    pub open spec fn well_formed(&self) -> bool {
        &&& self.voters().finite()
        &&& self.count() == self.voters().len()
    }

    /// A tally without votes.
    pub fn new() -> (vote: Self)
        ensures
            vote.count() == 0,
            vote.voters() == Set::<NodeIdentifier>::empty(),
            vote.well_formed(),
    {
        Vote(0, HashSet::new())
    }

    /// Counts one more vote.
    pub fn increment(&mut self)
        requires
            old(self).count() < u32::MAX,
        ensures
            final(self).count() == old(self).count() + 1,
            final(self).voters() == old(self).voters(),
    {
        self.0 += 1;
    }

    /// Records `voter` among the voters.
    pub fn add_voter(&mut self, voter: NodeIdentifier)
        ensures
            final(self).voters() == old(self).voters().insert(voter),
            final(self).count() == old(self).count(),
    {
        self.1.insert(voter);
    }

    /// The number of votes counted.
    pub fn get_votes(&self) -> (votes: u32)
        ensures
            votes == self.count(),
    {
        self.0
    }

    /// Whether `voter` is among the voters.
    pub fn has_voted(&self, voter: NodeIdentifier) -> (voted: bool)
        ensures
            voted == self.voters().contains(voter),
    {
        self.1.contains(&voter)
    }

    /// Counts the vote of `voter` unless it was counted before. Returns whether
    /// the vote was new; a repeated vote changes nothing.
    pub fn record_vote(&mut self, voter: NodeIdentifier) -> (fresh: bool)
        requires
            old(self).well_formed(),
            old(self).count() < u32::MAX,
        ensures
            fresh == !old(self).voters().contains(voter),
            final(self).voters() == old(self).voters().insert(voter),
            final(self).count() == old(self).count() + (if fresh { 1nat } else { 0nat }),
            final(self).well_formed(),
    {
        if self.has_voted(voter) {
            assert(self.voters().insert(voter) =~= self.voters());
            false
        } else {
            self.increment();
            self.add_voter(voter);
            true
        }
    }
}

} // verus!
