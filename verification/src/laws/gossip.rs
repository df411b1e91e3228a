//! Gossip: what a node floods reaches every other node by the time the
//! queue has been drained, and is taken in there once.

use crate::error::ConsensusError;
use crate::invariants::{receive_keeps_well_formed, tick_keeps_well_formed};
use crate::laws::notarization::{receive_extends, tick_extends, with_vote_adds_voter};
use crate::message::{ContentView, MessageView};
use crate::network::{after_delivery, delivery_output};
use crate::node::{Epoch, NodeIdentifier};
use crate::protocol::{flood, voters_for, NodeView};
use vstd::prelude::*;

verus! {

/// The copies that a flood makes: one for every node but the one that
/// floods, in rising order of their identifiers, each with the sender and the
/// content of the message copied. No copy is addressed to the node that floods.
pub proof fn flood_reaches_every_other_node(
    id: NodeIdentifier,
    from: NodeIdentifier,
    content: ContentView,
    upto: nat,
)
    requires
        upto <= u32::MAX,
    ensures
        flood(id, from, content, upto).len() == (if id < upto {
            upto - 1
        } else {
            upto as int
        }),
        forall|k: int|
            0 <= k < flood(id, from, content, upto).len() ==> #[trigger] flood(
                id,
                from,
                content,
                upto,
            )[k] == (MessageView {
                from,
                to: (if k < id {
                    k
                } else {
                    k + 1
                }) as NodeIdentifier,
                content,
            }),
    decreases upto,
{
    if upto > 0 {
        flood_reaches_every_other_node(id, from, content, (upto - 1) as nat);
    }
}

/// A node passes over a message that bears its own identifier as sender:
/// nothing changes and nothing is sent.
pub proof fn own_message_ignored(state: NodeView, message: MessageView)
    requires
        message.from == state.id,
    ensures
        state.receive(message) == state,
        state.receive_output(message) == Seq::<MessageView>::empty(),
        state.receive_outcome(message) == Ok::<(), ConsensusError>(()),
{
}

/// Whether a node has taken in what a message carries: the proposed block is
/// stored, or the sender is among the voters recorded for the block.
pub open spec fn observed(state: NodeView, message: MessageView) -> bool {
    match message.content {
        ContentView::Proposal(block) => state.blocks.contains_key(block.digest()),
        ContentView::Vote(digest) => voters_for(state.votes, digest).contains(message.from),
    }
}

/// News is taken in on receipt.
pub proof fn news_is_observed(state: NodeView, message: MessageView)
    requires
        state.well_formed(),
        state.is_news(message),
    ensures
        observed(state.receive(message), message),
{
    if let ContentView::Vote(digest) = message.content {
        with_vote_adds_voter(state.votes, digest, message.from, digest);
    }
}

/// What a node has taken in is no news to it: a second copy of the message
/// changes nothing and is not passed on.
pub proof fn observed_is_no_news(state: NodeView, message: MessageView)
    requires
        observed(state, message),
    ensures
        !state.is_news(message),
        state.receive(message) == state,
        state.receive_output(message) == Seq::<MessageView>::empty(),
{
}

/// What a node has taken in stays taken in, whatever it receives later.
pub proof fn observed_stays_on_receipt(state: NodeView, message: MessageView, later: MessageView)
    requires
        state.well_formed(),
        observed(state, message),
    ensures
        observed(state.receive(later), message),
{
    receive_extends(state, later);
    if let ContentView::Vote(digest) = message.content {
        if let ContentView::Vote(other) = later.content {
            with_vote_adds_voter(state.votes, other, later.from, digest);
        }
    }
}

/// What a node has taken in stays taken in over every tick.
pub proof fn observed_stays_on_tick(state: NodeView, message: MessageView, epoch: Epoch)
    requires
        state.well_formed(),
        observed(state, message),
    ensures
        observed(state.tick(epoch), message),
{
    tick_extends(state, epoch);
    tick_keeps_well_formed(state, epoch);
}

/// A message is news to a node at most once: after its receipt the same
/// message is never news again.
pub proof fn message_is_news_once(state: NodeView, message: MessageView)
    requires
        state.well_formed(),
    ensures
        !state.receive(message).is_news(message),
{
    if state.is_news(message) {
        news_is_observed(state, message);
    }
}

/// A network between two deliveries: its nodes, each at the position of its
/// identifier, and the messages that wait on the queue.
pub struct NetworkView {
    pub nodes: Seq<NodeView>,
    pub queue: Seq<MessageView>,
}

/// Whether a node can take in what a message carries: a vote always, a
/// proposed block if its parent is stored.
pub open spec fn takes(state: NodeView, message: MessageView) -> bool {
    match message.content {
        ContentView::Proposal(block) => state.blocks.contains_key(block.parent),
        ContentView::Vote(digest) => true,
    }
}

impl NetworkView {
    /// Every node is well-formed, stands at the position of its identifier
    /// and knows how many nodes there are.
    pub open spec fn well_formed(self) -> bool {
        &&& self.nodes.len() <= u32::MAX
        &&& forall|i: int|
            0 <= i < self.nodes.len() ==> {
                &&& (#[trigger] self.nodes[i]).well_formed()
                &&& self.nodes[i].id == i
                &&& self.nodes[i].node_count == self.nodes.len()
            }
    }

    /// The network after the message at the front of the queue was delivered.
    pub open spec fn deliver(self) -> NetworkView
        recommends
            self.queue.len() > 0,
    {
        NetworkView {
            nodes: after_delivery(self.nodes, self.queue[0]),
            queue: self.queue.drop_first() + delivery_output(self.nodes, self.queue[0]),
        }
    }

    /// The network after up to `steps` deliveries, fewer if the queue ran
    /// empty before.
    pub open spec fn drain(self, steps: nat) -> NetworkView
        decreases steps,
    {
        if steps == 0 || self.queue.len() == 0 {
            self
        } else {
            self.deliver().drain((steps - 1) as nat)
        }
    }

    /// Whether a copy of `message` for node `to` waits on the queue.
    pub open spec fn queued(self, to: NodeIdentifier, message: MessageView) -> bool {
        exists|k: int|
            0 <= k < self.queue.len() && #[trigger] self.queue[k] == (MessageView {
                to,
                ..message
            })
    }

    /// Whether node `to` has taken `message` in or will be handed a copy of
    /// it.
    pub open spec fn awaited(self, to: NodeIdentifier, message: MessageView) -> bool {
        observed(self.nodes[to as int], message) || self.queued(to, message)
    }
}

/// A delivery keeps the network well-formed.
pub proof fn deliver_keeps_well_formed(network: NetworkView)
    requires
        network.well_formed(),
    ensures
        network.deliver().well_formed(),
        network.deliver().nodes.len() == network.nodes.len(),
{
    let message = network.queue[0];
    if message.to < network.nodes.len() {
        receive_keeps_well_formed(network.nodes[message.to as int], message);
    }
}

/// A delivery loses nothing that a node has taken in, and leaves every node
/// able to take in what it could before.
pub proof fn deliver_keeps_observed(network: NetworkView, to: NodeIdentifier, message: MessageView)
    requires
        network.well_formed(),
        to < network.nodes.len(),
    ensures
        observed(network.nodes[to as int], message) ==> observed(
            network.deliver().nodes[to as int],
            message,
        ),
        takes(network.nodes[to as int], message) ==> takes(
            network.deliver().nodes[to as int],
            message,
        ),
{
    let delivered = network.queue[0];
    if delivered.to == to {
        let state = network.nodes[to as int];
        receive_extends(state, delivered);
        if observed(state, message) {
            observed_stays_on_receipt(state, message, delivered);
        }
        if let ContentView::Proposal(block) = message.content {
            if state.blocks.contains_key(block.parent) {
                assert(state.receive(delivered).blocks.contains_key(block.parent));
            }
        }
    }
}

/// A delivery leaves every awaited message awaited: the copy at the front of
/// the queue is taken in by the node it is addressed to, and every other copy
/// stays on the queue.
pub proof fn deliver_keeps_awaited(network: NetworkView, to: NodeIdentifier, message: MessageView)
    requires
        network.well_formed(),
        network.queue.len() > 0,
        to < network.nodes.len(),
        message.from != to,
        takes(network.nodes[to as int], message),
        network.awaited(to, message),
    ensures
        network.deliver().awaited(to, message),
{
    let after = network.deliver();
    let state = network.nodes[to as int];
    deliver_keeps_observed(network, to, message);
    if !observed(state, message) {
        let k = choose|k: int|
            0 <= k < network.queue.len() && #[trigger] network.queue[k] == (MessageView {
                to,
                ..message
            });
        if k == 0 {
            let copy = network.queue[0];
            assert(after.nodes[to as int] == state.receive(copy));
            assert(state.is_news(copy));
            news_is_observed(state, copy);
        } else {
            assert(after.queue[k - 1] == network.queue[k]);
        }
    }
}

/// Once a node has taken a message in, no delivery makes it news again.
pub proof fn drain_keeps_observed(
    network: NetworkView,
    steps: nat,
    to: NodeIdentifier,
    message: MessageView,
)
    requires
        network.well_formed(),
        to < network.nodes.len(),
        observed(network.nodes[to as int], message),
    ensures
        network.drain(steps).nodes.len() == network.nodes.len(),
        observed(network.drain(steps).nodes[to as int], message),
        !network.drain(steps).nodes[to as int].is_news(message),
    decreases steps,
{
    if steps > 0 && network.queue.len() > 0 {
        deliver_keeps_well_formed(network);
        deliver_keeps_observed(network, to, message);
        drain_keeps_observed(network.deliver(), (steps - 1) as nat, to, message);
    }
}

/// When the queue has been drained, every node has taken in each message
/// that it awaited and could take in.
pub proof fn drain_delivers(
    network: NetworkView,
    steps: nat,
    to: NodeIdentifier,
    message: MessageView,
)
    requires
        network.well_formed(),
        to < network.nodes.len(),
        message.from != to,
        takes(network.nodes[to as int], message),
        network.awaited(to, message),
        network.drain(steps).queue.len() == 0,
    ensures
        network.drain(steps).nodes.len() == network.nodes.len(),
        observed(network.drain(steps).nodes[to as int], message),
    decreases steps,
{
    if steps > 0 && network.queue.len() > 0 {
        deliver_keeps_well_formed(network);
        deliver_keeps_observed(network, to, message);
        deliver_keeps_awaited(network, to, message);
        drain_delivers(network.deliver(), (steps - 1) as nat, to, message);
    }
}

/// Gossip: when a node of a well-formed network has flooded a message of its
/// own and the queue has then been drained, every other node that could take
/// the message in has done so; and from then on the message is no news to it,
/// so that it is taken in once.
pub proof fn gossip_reaches_every_other_node(
    network: NetworkView,
    origin: NodeIdentifier,
    content: ContentView,
    earlier: Seq<MessageView>,
    steps: nat,
    to: NodeIdentifier,
)
    requires
        network.well_formed(),
        network.queue == earlier + flood(origin, origin, content, network.nodes.len()),
        to < network.nodes.len(),
        to != origin,
        takes(network.nodes[to as int], MessageView { from: origin, to: origin, content }),
        network.drain(steps).queue.len() == 0,
    ensures
        network.drain(steps).nodes.len() == network.nodes.len(),
        observed(
            network.drain(steps).nodes[to as int],
            MessageView { from: origin, to: origin, content },
        ),
        !network.drain(steps).nodes[to as int].is_news(
            MessageView { from: origin, to, content },
        ),
{
    let message = MessageView { from: origin, to: origin, content };
    let copies = flood(origin, origin, content, network.nodes.len());
    flood_reaches_every_other_node(origin, origin, content, network.nodes.len());
    let k = if to < origin {
        to as int
    } else {
        to - 1
    };
    assert(copies[k] == MessageView { to, ..message });
    assert(network.queue[earlier.len() + k] == copies[k]);
    assert(network.queued(to, message));
    drain_delivers(network, steps, to, message);
}

/// No copy of a flood is addressed to the node that floods, and a node that
/// is handed a message of its own passes it over.
pub proof fn gossip_spares_the_origin(state: NodeView, content: ContentView, k: int)
    requires
        state.node_count > 0,
        0 <= k < flood(state.id, state.id, content, state.node_count as nat).len(),
    ensures
        flood(state.id, state.id, content, state.node_count as nat)[k].to != state.id,
        state.receive(MessageView { from: state.id, to: state.id, content }) == state,
{
    flood_reaches_every_other_node(state.id, state.id, content, state.node_count as nat);
}

} // verus!
