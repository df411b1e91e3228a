//! The leader schedule: every epoch has one leader among the nodes, and
//! every node computes the same one.

use crate::node::Epoch;
use crate::protocol::{leader_for, NodeView};
use vstd::prelude::*;

verus! {

/// The leader of every epoch is one of the nodes.
pub proof fn leader_in_range(epoch: Epoch, node_count: u32)
    requires
        node_count > 0,
    ensures
        0 <= leader_for(epoch, node_count) < node_count,
{
}

/// Two nodes of networks of the same size compute the same leader for an
/// epoch, whatever else they know.
pub proof fn leader_agreed(one: NodeView, other: NodeView, epoch: Epoch)
    requires
        one.node_count > 0,
        one.node_count == other.node_count,
    ensures
        one.tick(epoch).leader == other.tick(epoch).leader,
        one.tick(epoch).leader == leader_for(epoch, one.node_count),
{
}

} // verus!
