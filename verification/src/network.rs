//! The steps of the epoch driver: ticking every node, and handing the message
//! at the front of the queue to the node it is addressed to.

use crate::error::ConsensusError;
use crate::message::{message_views, Message, MessageView};
use crate::node::honest_node::{hash_views, HonestNode};
use crate::node::{BaseNode, Epoch};
use crate::protocol::NodeView;
use crate::utils::BlockHash;
use std::collections::VecDeque;
use vstd::prelude::*;

verus! {

/// The states of the nodes of a network, in the order of their positions.
pub open spec fn node_views(nodes: Seq<HonestNode>) -> Seq<NodeView> {
    Seq::new(nodes.len(), |i: int| nodes[i]@)
}

/// Whether every node is well-formed and has room for one more block and
/// one more vote.
pub open spec fn all_ready(nodes: Seq<HonestNode>) -> bool {
    forall|i: int|
        0 <= i < nodes.len() ==> (#[trigger] nodes[i]).well_formed() && nodes[i].has_room()
}

/// The messages that the first `upto` nodes send at the tick of `epoch`, in
/// the order of the nodes.
pub open spec fn tick_outputs(nodes: Seq<NodeView>, epoch: Epoch, upto: nat) -> Seq<MessageView>
    decreases upto,
{
    if upto == 0 {
        Seq::empty()
    } else {
        tick_outputs(nodes, epoch, (upto - 1) as nat) + nodes[upto - 1].tick_output(epoch)
    }
}

/// The network after the message `message` was handed to the node at the
/// position it is addressed to: that node has received it, the others are as
/// they were. A message addressed to no position changes nothing.
pub open spec fn after_delivery(nodes: Seq<NodeView>, message: MessageView) -> Seq<NodeView> {
    if message.to < nodes.len() {
        nodes.update(message.to as int, nodes[message.to as int].receive(message))
    } else {
        nodes
    }
}

/// The messages that the delivery of `message` puts on the queue.
pub open spec fn delivery_output(nodes: Seq<NodeView>, message: MessageView) -> Seq<MessageView> {
    if message.to < nodes.len() {
        nodes[message.to as int].receive_output(message)
    } else {
        Seq::empty()
    }
}

/// What the delivery of `message` reports: a destination outside the network
/// is an error, and otherwise whatever the receiving node reports.
pub open spec fn delivery_outcome(nodes: Seq<NodeView>, message: MessageView) -> Result<
    (),
    ConsensusError,
> {
    if message.to < nodes.len() {
        nodes[message.to as int].receive_outcome(message)
    } else {
        Err(ConsensusError::UnroutableDestination)
    }
}

/// Ticks every node once, in the order of their positions; the messages they
/// send go to the back of the queue. Returns, for each node, the digests of
/// the blocks for which it dropped a finalization check.
pub fn tick_all(
    nodes: &mut Vec<HonestNode>,
    epoch: Epoch,
    message_queue: &mut VecDeque<Message>,
) -> (dropped: Vec<Vec<BlockHash>>)
    requires
        all_ready(old(nodes)@),
    ensures
        final(nodes)@.len() == old(nodes)@.len(),
        dropped@.len() == old(nodes)@.len(),
        forall|i: int|
            0 <= i < dropped@.len() ==> hash_views((#[trigger] dropped@[i])@) == old(
                nodes,
            )@[i]@.tick_dropped(old(nodes)@[i]@.votes.len()),
        forall|i: int|
            0 <= i < final(nodes)@.len() ==> (#[trigger] final(nodes)@[i]).well_formed()
                && final(nodes)@[i]@ == old(nodes)@[i]@.tick(epoch),
        message_views(final(message_queue)@) == message_views(old(message_queue)@) + tick_outputs(
            node_views(old(nodes)@),
            epoch,
            old(nodes)@.len(),
        ),
{
    let count = nodes.len();
    let mut dropped: Vec<Vec<BlockHash>> = Vec::new();
    let mut i: usize = 0;
    assert(message_views(message_queue@) =~= message_views(old(message_queue)@) + tick_outputs(
        node_views(old(nodes)@),
        epoch,
        0,
    ));
    while i < count
        invariant
            i <= count,
            count == nodes@.len(),
            nodes@.len() == old(nodes)@.len(),
            dropped@.len() == i,
            forall|j: int|
                0 <= j < i ==> hash_views((#[trigger] dropped@[j])@) == old(
                    nodes,
                )@[j]@.tick_dropped(old(nodes)@[j]@.votes.len()),
            forall|j: int|
                0 <= j < i ==> (#[trigger] nodes@[j]).well_formed() && nodes@[j]@ == old(
                    nodes,
                )@[j]@.tick(epoch),
            forall|j: int| i <= j < count ==> #[trigger] nodes@[j] == old(nodes)@[j],
            all_ready(old(nodes)@),
            message_views(message_queue@) == message_views(old(message_queue)@) + tick_outputs(
                node_views(old(nodes)@),
                epoch,
                i as nat,
            ),
        decreases count - i,
    {
        let ghost before = nodes@;
        let ghost queued = message_views(message_queue@);
        let ghost sent = tick_outputs(node_views(old(nodes)@), epoch, i as nat);
        assert(before[i as int] == old(nodes)@[i as int]);
        let report = nodes[i].at_time(epoch, message_queue);
        dropped.push(report);
        proof {
            let output = old(nodes)@[i as int]@.tick_output(epoch);
            assert(node_views(old(nodes)@)[i as int] == old(nodes)@[i as int]@);
            assert((message_views(old(message_queue)@) + sent) + output =~= message_views(
                old(message_queue)@,
            ) + (sent + output));
            assert(forall|j: int| 0 <= j < count && j != i ==> nodes@[j] == before[j]);
        }
        i += 1;
    }
    dropped
}

/// Takes the message at the front of the queue and hands it to the node at
/// the position that the message is addressed to; the messages that the node
/// sends go to the back of the queue. Returns nothing where the queue is
/// empty, and otherwise what the delivery reports.
pub fn deliver_next(nodes: &mut Vec<HonestNode>, message_queue: &mut VecDeque<Message>) -> (outcome:
    Option<Result<(), ConsensusError>>)
    requires
        all_ready(old(nodes)@),
    ensures
        final(nodes)@.len() == old(nodes)@.len(),
        forall|i: int| 0 <= i < final(nodes)@.len() ==> (#[trigger] final(nodes)@[i]).well_formed(),
        match outcome {
            None => {
                &&& old(message_queue)@.len() == 0
                &&& final(message_queue)@ == old(message_queue)@
                &&& node_views(final(nodes)@) == node_views(old(nodes)@)
            },
            Some(report) => {
                &&& old(message_queue)@.len() > 0
                &&& report == delivery_outcome(node_views(old(nodes)@), old(message_queue)@[0]@)
                &&& node_views(final(nodes)@) == after_delivery(
                    node_views(old(nodes)@),
                    old(message_queue)@[0]@,
                )
                &&& message_views(final(message_queue)@) == message_views(
                    old(message_queue)@,
                ).drop_first() + delivery_output(
                    node_views(old(nodes)@),
                    old(message_queue)@[0]@,
                )
            },
        },
{
    let message = match message_queue.pop_front() {
        Some(message) => message,
        None => {
            return None;
        },
    };
    let ghost rest = message_views(message_queue@);
    proof {
        assert(rest =~= message_views(old(message_queue)@).drop_first());
    }
    let to = message.to as usize;
    if to < nodes.len() {
        let ghost before = nodes@;
        let report = nodes[to].on_message_received(&message, message_queue);
        proof {
            assert(forall|j: int| 0 <= j < before.len() && j != to ==> nodes@[j] == before[j]);
            assert(node_views(nodes@) =~= after_delivery(node_views(before), message@));
        }
        Some(report)
    } else {
        proof {
            assert(rest + Seq::<MessageView>::empty() =~= rest);
        }
        Some(Err(ConsensusError::UnroutableDestination))
    }
}

} // verus!
