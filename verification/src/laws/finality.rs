//! Finality: the finalized head moves by the rule of three alone, and
//! does not fall back where the votes came in the order of the chains.

use crate::block::genesis;
use crate::invariants::{tick_tally_keeps_well_formed, tick_votes_keeps_well_formed};
use crate::laws::notarization::{
    extends, receive_extends, tick_tally_blocks, tick_tally_extends, tick_votes_dom,
    tick_votes_extends, tick_votes_frame, tick_votes_notarizes_by_quorum,
};
use crate::message::{ContentView, MessageView};
use crate::node::{Epoch, NodeIdentifier};
use crate::protocol::{has_tally, tally_at, tally_slot, NodeView, TallyView};
use crate::store::{parent_is_held, with_block_keeps_rules, with_notarized_keeps_rules};
use vstd::prelude::*;

verus! {

/// Three blocks in a row: each the parent of the next, all stored and
/// notarized, created in three consecutive epochs.
pub open spec fn three_consecutive(
    state: NodeView,
    grandparent: Seq<u8>,
    parent: Seq<u8>,
    child: Seq<u8>,
) -> bool {
    &&& state.blocks.contains_key(grandparent)
    &&& state.blocks.contains_key(parent)
    &&& state.blocks.contains_key(child)
    &&& state.blocks[child].block.parent == parent
    &&& state.blocks[parent].block.parent == grandparent
    &&& state.blocks[grandparent].block.notarized
    &&& state.blocks[parent].block.notarized
    &&& state.blocks[child].block.notarized
    &&& state.blocks[grandparent].block.epoch + 1 == state.blocks[parent].block.epoch
    &&& state.blocks[parent].block.epoch + 1 == state.blocks[child].block.epoch
}

/// Whether the block under `hash` stands in the middle of three blocks in a
/// row.
pub open spec fn finalizable(state: NodeView, hash: Seq<u8>) -> bool {
    exists|grandparent: Seq<u8>, child: Seq<u8>| #[trigger]
        three_consecutive(state, grandparent, hash, child)
}

/// A finalization check on a block makes the block's parent the finalized
/// head if and only if the block, its parent and its grandparent are three
/// blocks in a row; otherwise the finalized head stays.
pub proof fn finalizes_iff_three_consecutive(state: NodeView, child: Seq<u8>)
    ensures
        state.closes_three(child) <==> state.blocks.contains_key(child) && exists|
            grandparent: Seq<u8>,
        | #[trigger]
            three_consecutive(state, grandparent, state.blocks[child].block.parent, child),
        state.closes_three(child) ==> state.try_finalize(child).finalized
            == state.blocks[child].block.parent,
        !state.closes_three(child) ==> state.try_finalize(child) == state,
{
    if state.closes_three(child) {
        let parent = state.blocks[child].block.parent;
        assert(three_consecutive(state, state.blocks[parent].block.parent, parent, child));
    }
}

/// A block can be finalized by a check on one of its children if and only if
/// it stands in the middle of three blocks in a row.
pub proof fn finalizable_iff_some_child_closes(state: NodeView, hash: Seq<u8>)
    ensures
        finalizable(state, hash) <==> exists|child: Seq<u8>|
            state.blocks.contains_key(child) && state.blocks[child].block.parent == hash
                && #[trigger] state.closes_three(child),
{
    if finalizable(state, hash) {
        let (grandparent, child) = choose|grandparent: Seq<u8>, child: Seq<u8>| #[trigger]
            three_consecutive(state, grandparent, hash, child);
        assert(state.closes_three(child));
    }
    if exists|child: Seq<u8>|
        state.blocks.contains_key(child) && state.blocks[child].block.parent == hash
            && #[trigger] state.closes_three(child) {
        let child = choose|child: Seq<u8>|
            state.blocks.contains_key(child) && state.blocks[child].block.parent == hash
                && #[trigger] state.closes_three(child);
        assert(three_consecutive(state, state.blocks[hash].block.parent, hash, child));
    }
}

/// Three blocks in a row stay three blocks in a row while no block and no
/// notarization is lost.
pub proof fn three_consecutive_stays(
    before: NodeView,
    after: NodeView,
    grandparent: Seq<u8>,
    parent: Seq<u8>,
    child: Seq<u8>,
)
    requires
        three_consecutive(before, grandparent, parent, child),
        extends(after.blocks, before.blocks),
    ensures
        three_consecutive(after, grandparent, parent, child),
{
}

/// A block that closes three blocks in a row goes on doing so, with the same
/// parent, while no block and no notarization is lost.
pub proof fn closes_three_stays(before: NodeView, after: NodeView, hash: Seq<u8>)
    requires
        before.closes_three(hash),
        extends(after.blocks, before.blocks),
    ensures
        after.closes_three(hash),
        after.blocks[hash].block.parent == before.blocks[hash].block.parent,
{
    let parent = before.blocks[hash].block.parent;
    assert(before.blocks.contains_key(hash));
    assert(before.blocks.contains_key(parent));
    assert(before.blocks.contains_key(before.blocks[parent].block.parent));
}

/// A tick drops the finalization check for a tally if and only if the tally
/// has reached the quorum and its block, or the parent of its block, was not
/// stored when the tick began.
pub proof fn check_dropped_iff_unknown(state: NodeView, index: nat)
    requires
        index < state.votes.len(),
    ensures
        state.tick_votes(index).check_dropped(state.votes[index as int]) <==> state.reached_quorum(
            state.votes[index as int].voters,
        ) && !state.knows_with_parent(state.votes[index as int].digest),
{
    let tally = state.votes[index as int];
    let before = state.tick_votes(index);
    tick_votes_frame(state, index);
    tick_votes_dom(state, index);
    if state.blocks.contains_key(tally.digest) {
        tick_votes_notarizes_by_quorum(state, index, tally.digest);
        assert(before.blocks.contains_key(tally.digest));
    } else {
        assert(!before.blocks.contains_key(tally.digest));
    }
    assert(forall|k: Seq<u8>| before.blocks.contains_key(k) == state.blocks.contains_key(k));
}

/// The finalized head is the genesis block or stands in the middle of three
/// blocks in a row.
pub open spec fn finality_justified(state: NodeView) -> bool {
    state.finalized == genesis().digest() || finalizable(state, state.finalized)
}

/// A node starts with a justified finalized head.
pub proof fn initial_finality_justified(id: NodeIdentifier, node_count: u32)
    ensures
        finality_justified(NodeView::initial(id, node_count)),
{
}

/// A justified finalized head stays justified while it stays where it is
/// and no block and no notarization is lost.
pub proof fn finality_carries_over(before: NodeView, after: NodeView)
    requires
        finality_justified(before),
        extends(after.blocks, before.blocks),
        after.finalized == before.finalized,
    ensures
        finality_justified(after),
{
    if before.finalized != genesis().digest() {
        let (grandparent, child) = choose|grandparent: Seq<u8>, child: Seq<u8>| #[trigger]
            three_consecutive(before, grandparent, before.finalized, child);
        three_consecutive_stays(before, after, grandparent, before.finalized, child);
    }
}

/// A finalization check leaves the finalized head justified.
pub proof fn try_finalize_keeps_finality_justified(state: NodeView, hash: Seq<u8>)
    requires
        finality_justified(state),
    ensures
        finality_justified(state.try_finalize(hash)),
{
    let after = state.try_finalize(hash);
    if state.closes_three(hash) {
        let parent = state.blocks[hash].block.parent;
        assert(three_consecutive(after, state.blocks[parent].block.parent, parent, hash));
    }
}

proof fn tick_tally_keeps_finality_justified(state: NodeView, tally: TallyView)
    requires
        state.well_formed(),
        finality_justified(state),
    ensures
        finality_justified(state.tick_tally(tally)),
{
    let after = state.tick_tally(tally);
    if state.reached_quorum(tally.voters) {
        let notarized = state.notarize(tally.digest);
        with_notarized_keeps_rules(state.blocks, tally.digest);
        finality_carries_over(state, notarized);
        if notarized.closes_three(tally.digest) {
            let parent = notarized.blocks[tally.digest].block.parent;
            assert(three_consecutive(
                notarized,
                notarized.blocks[parent].block.parent,
                parent,
                tally.digest,
            ));
            assert(three_consecutive(
                after,
                notarized.blocks[parent].block.parent,
                parent,
                tally.digest,
            ));
        } else {
            finality_carries_over(notarized, after);
        }
    } else {
        finality_carries_over(state, after);
    }
}

proof fn tick_votes_keeps_finality_justified(state: NodeView, upto: nat)
    requires
        state.well_formed(),
        finality_justified(state),
        upto <= state.votes.len(),
    ensures
        finality_justified(state.tick_votes(upto)),
    decreases upto,
{
    if upto > 0 {
        tick_votes_keeps_finality_justified(state, (upto - 1) as nat);
        tick_votes_keeps_well_formed(state, (upto - 1) as nat);
        tick_tally_keeps_finality_justified(
            state.tick_votes((upto - 1) as nat),
            state.votes[upto - 1],
        );
    }
}

/// A tick finalizes by the rule of three alone: if the finalized head was
/// justified before the tick, it is justified after it.
pub proof fn tick_keeps_finality_justified(state: NodeView, epoch: Epoch)
    requires
        state.well_formed(),
        finality_justified(state),
    ensures
        finality_justified(state.tick(epoch)),
{
    tick_votes_keeps_finality_justified(state, state.votes.len());
    tick_votes_keeps_well_formed(state, state.votes.len());
    let counted = state.tick_counted(epoch);
    let voted = state.tick_votes(state.votes.len());
    assert(extends(counted.blocks, voted.blocks));
    finality_carries_over(voted, counted);
    with_block_keeps_rules(counted.blocks, counted.proposal(epoch));
    finality_carries_over(counted, state.tick(epoch));
}

/// The receipt of a message never moves the finalized head, and leaves it
/// justified.
pub proof fn receive_keeps_finality_justified(state: NodeView, message: MessageView)
    requires
        state.well_formed(),
        finality_justified(state),
    ensures
        state.receive(message).finalized == state.finalized,
        finality_justified(state.receive(message)),
{
    receive_extends(state, message);
    finality_carries_over(state, state.receive(message));
}

/// Whether the tally at `index` justifies the finalized head: it has reached
/// the quorum, and its block closes three blocks in a row of which the
/// finalized head is the middle one.
pub open spec fn anchors(state: NodeView, index: int) -> bool {
    &&& 0 <= index < state.votes.len()
    &&& state.reached_quorum(state.votes[index].voters)
    &&& state.closes_three(state.votes[index].digest)
    &&& state.blocks[state.votes[index].digest].block.parent == state.finalized
}

/// The finalized head is the genesis block or justified by a tally.
pub open spec fn finality_anchored(state: NodeView) -> bool {
    state.finalized == genesis().digest() || exists|index: int| #[trigger] anchors(state, index)
}

/// Whether the tallies of stored blocks stand in the order of their chain
/// lengths, shorter chains first.
pub open spec fn tallied_by_length(state: NodeView) -> bool {
    forall|i: int, j: int|
        0 <= i < j < state.votes.len() && state.blocks.contains_key(
            (#[trigger] state.votes[i]).digest,
        ) && state.blocks.contains_key((#[trigger] state.votes[j]).digest)
            ==> state.blocks[state.votes[i].digest].length
            <= state.blocks[state.votes[j].digest].length
}

/// Dealing with one tally leaves the finalized head where it is or moves it
/// to the middle of the three blocks in a row that the block of this tally
/// closes.
proof fn tick_tally_moves_by_rule(state: NodeView, tally: TallyView)
    requires
        state.well_formed(),
    ensures
        ({
            let after = state.tick_tally(tally);
            let fires = state.reached_quorum(tally.voters) && state.notarize(
                tally.digest,
            ).closes_three(tally.digest);
            &&& fires ==> after.closes_three(tally.digest) && after.finalized
                == after.blocks[tally.digest].block.parent
            &&& !fires ==> after.finalized == state.finalized
        }),
{
    tick_tally_blocks(state, tally);
}

proof fn tick_tally_keeps_anchored(state: NodeView, index: int)
    requires
        state.well_formed(),
        0 <= index < state.votes.len(),
        finality_anchored(state),
    ensures
        finality_anchored(state.tick_tally(state.votes[index])),
{
    let tally = state.votes[index];
    let after = state.tick_tally(tally);
    tick_tally_keeps_well_formed(state, tally);
    tick_tally_extends(state, tally);
    tick_tally_moves_by_rule(state, tally);
    if state.reached_quorum(tally.voters) && state.notarize(tally.digest).closes_three(
        tally.digest,
    ) {
        assert(anchors(after, index));
    } else if state.finalized != genesis().digest() {
        let anchor = choose|anchor: int| #[trigger] anchors(state, anchor);
        closes_three_stays(state, after, state.votes[anchor].digest);
        assert(anchors(after, anchor));
    }
}

proof fn tick_votes_keeps_anchored(state: NodeView, upto: nat)
    requires
        state.well_formed(),
        upto <= state.votes.len(),
        finality_anchored(state),
    ensures
        finality_anchored(state.tick_votes(upto)),
    decreases upto,
{
    if upto > 0 {
        let before = state.tick_votes((upto - 1) as nat);
        tick_votes_keeps_anchored(state, (upto - 1) as nat);
        tick_votes_keeps_well_formed(state, (upto - 1) as nat);
        tick_tally_keeps_anchored(before, upto - 1);
    }
}

/// Once a tick has dealt with a tally that moves the finalized head, the
/// finalized head is justified by that tally or by one behind it.
proof fn tick_votes_settles(state: NodeView, start: nat, upto: nat)
    requires
        state.well_formed(),
        start < upto <= state.votes.len(),
        state.reached_quorum(state.votes[start as int].voters),
        state.tick_votes(start).notarize(state.votes[start as int].digest).closes_three(
            state.votes[start as int].digest,
        ),
    ensures
        exists|index: int|
            start <= index < upto && #[trigger] anchors(state.tick_votes(upto), index),
    decreases upto,
{
    let before = state.tick_votes((upto - 1) as nat);
    let tally = state.votes[upto - 1];
    let after = state.tick_votes(upto);
    tick_votes_keeps_well_formed(state, (upto - 1) as nat);
    tick_tally_keeps_well_formed(before, tally);
    tick_tally_extends(before, tally);
    tick_tally_moves_by_rule(before, tally);
    if before.reached_quorum(tally.voters) && before.notarize(tally.digest).closes_three(
        tally.digest,
    ) {
        assert(anchors(after, upto - 1));
    } else {
        tick_votes_settles(state, start, (upto - 1) as nat);
        let anchor = choose|index: int|
            start <= index < upto - 1 && #[trigger] anchors(before, index);
        closes_three_stays(before, after, state.votes[anchor].digest);
        assert(anchors(after, anchor));
    }
}

/// A node starts with an anchored finalized head.
pub proof fn initial_finality_anchored(id: NodeIdentifier, node_count: u32)
    ensures
        finality_anchored(NodeView::initial(id, node_count)),
{
}

/// The receipt of a message leaves the finalized head anchored.
pub proof fn receive_keeps_finality_anchored(state: NodeView, message: MessageView)
    requires
        state.well_formed(),
        finality_anchored(state),
    ensures
        finality_anchored(state.receive(message)),
{
    let after = state.receive(message);
    receive_extends(state, message);
    if state.finalized != genesis().digest() {
        let anchor = choose|anchor: int| #[trigger] anchors(state, anchor);
        closes_three_stays(state, after, state.votes[anchor].digest);
        if let ContentView::Vote(digest) = message.content {
            if state.is_news(message) {
                if has_tally(state.votes, digest) {
                    let at = tally_slot(state.votes, digest);
                    assert(tally_at(state.votes, at, digest));
                    if at == anchor {
                        let voters = state.votes[at].voters;
                        assert(voters.finite());
                        assert(voters.insert(message.from).len() >= voters.len());
                    }
                }
            }
        }
        assert(anchors(after, anchor));
    }
}

/// The block of a tally that justifies the finalized head ends a chain one
/// block longer than the finalized chain.
proof fn anchor_is_one_ahead(state: NodeView, index: int)
    requires
        state.well_formed(),
        anchors(state, index),
        !state.blocks.contains_key(genesis().parent),
    ensures
        state.blocks.contains_key(state.votes[index].digest),
        state.blocks[state.votes[index].digest].length == state.blocks[state.finalized].length
            + 1,
{
    let block = state.votes[index].digest;
    assert(state.blocks.contains_key(block));
    assert(state.blocks.contains_key(state.blocks[block].block.parent));
    assert(block != genesis().digest());
    parent_is_held(state.blocks, block);
}

/// Where the finalized head is justified by a tally before the tallies are
/// dealt with, it is justified afterwards by that tally or by one behind it.
proof fn tick_votes_moves_anchor_on(state: NodeView, first: int)
    requires
        state.well_formed(),
        anchors(state, first),
    ensures
        exists|last: int|
            first <= last < state.votes.len() && #[trigger] anchors(
                state.tick_votes(state.votes.len()),
                last,
            ),
{
    let block = state.votes[first].digest;
    let reached = state.tick_votes(first as nat);
    tick_votes_extends(state, first as nat);
    tick_votes_keeps_well_formed(state, first as nat);
    tick_tally_extends(reached, state.votes[first]);
    closes_three_stays(state, reached, block);
    closes_three_stays(reached, reached.notarize(block), block);
    tick_votes_settles(state, first as nat, state.votes.len());
}

/// Over the tallies of a tick the finalized head never falls back, under the
/// conditions of `tick_never_regresses`.
proof fn tick_votes_never_regresses(state: NodeView)
    requires
        state.well_formed(),
        tallied_by_length(state),
        finality_anchored(state),
        !state.blocks.contains_key(genesis().parent),
    ensures
        ({
            let voted = state.tick_votes(state.votes.len());
            voted.blocks[voted.finalized].length >= state.blocks[state.finalized].length
        }),
{
    let all = state.votes.len();
    let voted = state.tick_votes(all);
    tick_votes_keeps_well_formed(state, all);
    tick_votes_dom(state, all);
    assert(voted.blocks.contains_key(voted.finalized));
    assert(state.blocks.contains_key(state.finalized));
    if state.finalized != genesis().digest() {
        let first = choose|anchor: int| #[trigger] anchors(state, anchor);
        tick_votes_moves_anchor_on(state, first);
        let last = choose|last: int| first <= last < all && #[trigger] anchors(voted, last);
        anchor_is_one_ahead(state, first);
        anchor_is_one_ahead(voted, last);
        let older = state.votes[first].digest;
        let newer = state.votes[last].digest;
        assert(state.blocks.contains_key(newer));
        tick_votes_notarizes_by_quorum(state, all, newer);
        assert(state.blocks[older].length <= state.blocks[newer].length);
    }
}

/// The finalized head never falls back over a tick, where the tallies stand
/// in the order of their chain lengths, the finalized head is anchored, and
/// the parent that the genesis block names is not stored: the chain that ends
/// in the finalized head after the tick is at least as long as the one
/// before. The finalized head stays anchored.
pub proof fn tick_never_regresses(state: NodeView, epoch: Epoch)
    requires
        state.well_formed(),
        tallied_by_length(state),
        finality_anchored(state),
        !state.blocks.contains_key(genesis().parent),
    ensures
        finality_anchored(state.tick(epoch)),
        state.tick(epoch).blocks[state.tick(epoch).finalized].length
            >= state.blocks[state.finalized].length,
{
    let all = state.votes.len();
    let voted = state.tick_votes(all);
    let counted = state.tick_counted(epoch);
    let after = state.tick(epoch);
    tick_votes_never_regresses(state);
    tick_votes_keeps_well_formed(state, all);
    tick_votes_keeps_anchored(state, all);
    with_block_keeps_rules(counted.blocks, counted.proposal(epoch));
    assert(voted.blocks.contains_key(voted.finalized));
    assert(after.blocks[after.finalized] == voted.blocks[voted.finalized]);
    if voted.finalized != genesis().digest() {
        let anchor = choose|anchor: int| #[trigger] anchors(voted, anchor);
        assert(extends(after.blocks, voted.blocks));
        closes_three_stays(voted, after, voted.votes[anchor].digest);
        assert(anchors(after, anchor));
    }
}

} // verus!
