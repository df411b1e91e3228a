//! Every transition of the protocol keeps a node's state well-formed.

use crate::block::{genesis, BlockView};
use crate::message::{ContentView, MessageView};
use crate::node::{Epoch, NodeIdentifier};
use crate::protocol::{
    has_tally, tallies_well_formed, tally_at, tally_slot, with_vote, NodeView, TallyView,
};
use crate::store::{with_block, with_block_keeps_rules, with_notarized_keeps_rules};
use vstd::prelude::*;

verus! {

/// Notarizing a block keeps the state well-formed.
pub proof fn notarize_keeps_well_formed(state: NodeView, hash: Seq<u8>)
    requires
        state.well_formed(),
    ensures
        state.notarize(hash).well_formed(),
{
    let after = state.notarize(hash);
    with_notarized_keeps_rules(state.blocks, hash);
    assert forall|i: int| 0 <= i < after.heads.len() implies {
        &&& after.blocks.contains_key(#[trigger] after.heads[i])
        &&& after.blocks[after.heads[i]].block.notarized
        &&& after.blocks[after.heads[i]].length == after.head_length()
        &&& after.heads[i] == genesis().digest() || after.parent_notarized(after.heads[i])
    } by {
        let head = state.heads[i];
        assert(state.blocks.contains_key(head));
        assert(state.blocks.contains_key(state.heads[0]));
        if head != genesis().digest() {
            assert(state.parent_notarized(head));
            assert(state.blocks.contains_key(state.blocks[head].block.parent));
        }
    }
    assert(state.blocks.contains_key(state.finalized));
}

/// A finalization check keeps the state well-formed.
pub proof fn try_finalize_keeps_well_formed(state: NodeView, hash: Seq<u8>)
    requires
        state.well_formed(),
    ensures
        state.try_finalize(hash).well_formed(),
{
}

/// The fork choice keeps the state well-formed.
pub proof fn adjust_keeps_well_formed(state: NodeView, hash: Seq<u8>)
    requires
        state.well_formed(),
    ensures
        state.adjust(hash).well_formed(),
{
    let after = state.adjust(hash);
    if state.eligible(hash) {
        if state.head_length() < state.blocks[hash].length {
            assert(after.heads =~= seq![hash]);
        } else if state.head_length() == state.blocks[hash].length && !state.heads.contains(hash) {
            assert forall|i: int, j: int|
                0 <= i < after.heads.len() && 0 <= j < after.heads.len() && i != j implies
                after.heads[i] != after.heads[j] by {
                if i == state.heads.len() {
                    assert(state.heads.contains(state.heads[j]));
                } else if j == state.heads.len() {
                    assert(state.heads.contains(state.heads[i]));
                }
            }
            assert(after.heads[0] == state.heads[0]);
            assert forall|i: int| 0 <= i < after.heads.len() implies {
                &&& after.blocks.contains_key(#[trigger] after.heads[i])
                &&& after.blocks[after.heads[i]].block.notarized
                &&& after.blocks[after.heads[i]].length == after.head_length()
                &&& after.heads[i] == genesis().digest() || after.parent_notarized(
                    after.heads[i],
                )
            } by {
                if i < state.heads.len() {
                    assert(after.heads[i] == state.heads[i]);
                }
            }
        }
    }
}

/// Dealing with one tally keeps the state well-formed and touches neither the
/// tallies nor the node's identity.
pub proof fn tick_tally_keeps_well_formed(state: NodeView, tally: TallyView)
    requires
        state.well_formed(),
    ensures
        state.tick_tally(tally).well_formed(),
        state.tick_tally(tally).votes == state.votes,
        state.tick_tally(tally).id == state.id,
        state.tick_tally(tally).node_count == state.node_count,
        state.tick_tally(tally).leader == state.leader,
{
    if state.reached_quorum(tally.voters) {
        notarize_keeps_well_formed(state, tally.digest);
        try_finalize_keeps_well_formed(state.notarize(tally.digest), tally.digest);
        adjust_keeps_well_formed(
            state.notarize(tally.digest).try_finalize(tally.digest),
            tally.digest,
        );
    } else {
        adjust_keeps_well_formed(state, tally.digest);
    }
}

/// Dealing with the first tallies keeps the state well-formed and touches
/// neither the tallies nor the node's identity.
pub proof fn tick_votes_keeps_well_formed(state: NodeView, upto: nat)
    requires
        state.well_formed(),
        upto <= state.votes.len(),
    ensures
        state.tick_votes(upto).well_formed(),
        state.tick_votes(upto).votes == state.votes,
        state.tick_votes(upto).id == state.id,
        state.tick_votes(upto).node_count == state.node_count,
        state.tick_votes(upto).leader == state.leader,
    decreases upto,
{
    if upto > 0 {
        tick_votes_keeps_well_formed(state, (upto - 1) as nat);
        tick_tally_keeps_well_formed(
            state.tick_votes((upto - 1) as nat),
            state.votes[upto - 1],
        );
    }
}

/// Storing a block keeps the state well-formed.
pub proof fn store_keeps_well_formed(state: NodeView, block: BlockView)
    requires
        state.well_formed(),
    ensures
        (NodeView { blocks: with_block(state.blocks, block), ..state }).well_formed(),
{
    let after = NodeView { blocks: with_block(state.blocks, block), ..state };
    with_block_keeps_rules(state.blocks, block);
    assert(state.blocks.contains_key(state.heads[0]));
    assert forall|i: int| 0 <= i < after.heads.len() implies {
        &&& after.blocks.contains_key(#[trigger] after.heads[i])
        &&& after.blocks[after.heads[i]].block.notarized
        &&& after.blocks[after.heads[i]].length == after.head_length()
        &&& after.heads[i] == genesis().digest() || after.parent_notarized(after.heads[i])
    } by {
        let head = state.heads[i];
        assert(state.blocks.contains_key(head));
        if head != genesis().digest() {
            assert(state.parent_notarized(head));
            assert(state.blocks.contains_key(state.blocks[head].block.parent));
        }
    }
    assert(state.blocks.contains_key(state.finalized));
}

/// A tick keeps the state well-formed.
pub proof fn tick_keeps_well_formed(state: NodeView, epoch: Epoch)
    requires
        state.well_formed(),
    ensures
        state.tick(epoch).well_formed(),
        state.tick(epoch).id == state.id,
        state.tick(epoch).node_count == state.node_count,
        state.tick(epoch).votes == state.votes,
{
    tick_votes_keeps_well_formed(state, state.votes.len());
    let counted = state.tick_counted(epoch);
    assert(counted.well_formed());
    if counted.leader == counted.id {
        store_keeps_well_formed(counted, counted.proposal(epoch));
    }
}

/// Tallying a vote keeps the tallies well-formed.
pub proof fn with_vote_keeps_well_formed(
    votes: Seq<TallyView>,
    digest: Seq<u8>,
    voter: NodeIdentifier,
)
    requires
        tallies_well_formed(votes),
    ensures
        tallies_well_formed(with_vote(votes, digest, voter)),
{
    let after = with_vote(votes, digest, voter);
    if has_tally(votes, digest) {
        let at = tally_slot(votes, digest);
        assert(tally_at(votes, at, digest));
        assert forall|i: int, j: int| 0 <= i < j < after.len() implies (#[trigger] after[i]).digest
            != (#[trigger] after[j]).digest by {
            assert(after[i].digest == votes[i].digest);
            assert(after[j].digest == votes[j].digest);
        }
        assert forall|i: int| 0 <= i < after.len() implies (#[trigger] after[i]).voters.finite()
            && after[i].voters.len() > 0 by {
            if i != at {
                assert(after[i] == votes[i]);
            } else {
                assert(votes[i].voters.finite());
                assert(after[i].voters.contains(voter));
            }
        }
    } else {
        assert forall|i: int, j: int| 0 <= i < j < after.len() implies (#[trigger] after[i]).digest
            != (#[trigger] after[j]).digest by {
            if j == votes.len() {
                assert(after[i] == votes[i]);
                if votes[i].digest == digest {
                    assert(tally_at(votes, i, digest));
                }
            } else {
                assert(after[i] == votes[i] && after[j] == votes[j]);
            }
        }
        assert forall|i: int| 0 <= i < after.len() implies (#[trigger] after[i]).voters.finite()
            && after[i].voters.len() > 0 by {
            if i < votes.len() {
                assert(after[i] == votes[i]);
            } else {
                assert(after[i].voters.contains(voter));
            }
        }
    }
}

/// The receipt of a message keeps the state well-formed.
pub proof fn receive_keeps_well_formed(state: NodeView, message: MessageView)
    requires
        state.well_formed(),
    ensures
        state.receive(message).well_formed(),
        state.receive(message).id == state.id,
        state.receive(message).node_count == state.node_count,
{
    if state.is_news(message) {
        match message.content {
            ContentView::Proposal(block) => {
                store_keeps_well_formed(state, block);
            },
            ContentView::Vote(digest) => {
                with_vote_keeps_well_formed(state.votes, digest, message.from);
            },
        }
    }
}

} // verus!
