//! Notarization: a tick notarizes exactly the blocks whose tallies have
//! reached the quorum, a vote counts once, and nothing stored is lost.

use crate::invariants::{tick_votes_keeps_well_formed, with_vote_keeps_well_formed};
use crate::message::{ContentView, MessageView};
use crate::node::{Epoch, NodeIdentifier};
use crate::protocol::{
    has_tally, quorum, tallies_well_formed, tally_at, tally_slot, voters_for, with_vote, NodeView,
    TallyView,
};
use crate::store::{with_block_keeps_rules, with_notarized, with_notarized_keeps_rules, StoredView};
use crate::tally::tally_slot_unique;
use vstd::prelude::*;

verus! {

/// Whether one of the first `upto` tallies is for the block under `hash` and
/// has reached the quorum.
pub open spec fn quorum_among(state: NodeView, hash: Seq<u8>, upto: nat) -> bool {
    exists|i: int|
        0 <= i < upto && tally_at(state.votes, i, hash) && state.reached_quorum(
            state.votes[i].voters,
        )
}

/// Dealing with one tally changes the blocks in one way only: the block of a
/// tally that has reached the quorum is notarized.
pub proof fn tick_tally_blocks(state: NodeView, tally: TallyView)
    ensures
        state.tick_tally(tally).blocks == (if state.reached_quorum(tally.voters) {
            with_notarized(state.blocks, tally.digest)
        } else {
            state.blocks
        }),
        state.tick_tally(tally).node_count == state.node_count,
        state.tick_tally(tally).votes == state.votes,
{
}

/// Dealing with tallies changes neither the tallies nor the number of nodes.
pub proof fn tick_votes_frame(state: NodeView, upto: nat)
    ensures
        state.tick_votes(upto).node_count == state.node_count,
        state.tick_votes(upto).votes == state.votes,
    decreases upto,
{
    if upto > 0 {
        tick_votes_frame(state, (upto - 1) as nat);
        tick_tally_blocks(state.tick_votes((upto - 1) as nat), state.votes[upto - 1]);
    }
}

/// Dealing with tallies neither adds nor removes a block.
pub proof fn tick_votes_dom(state: NodeView, upto: nat)
    ensures
        state.tick_votes(upto).blocks.dom() == state.blocks.dom(),
    decreases upto,
{
    if upto > 0 {
        let before = state.tick_votes((upto - 1) as nat);
        tick_votes_dom(state, (upto - 1) as nat);
        tick_tally_blocks(before, state.votes[upto - 1]);
        assert(state.tick_votes(upto).blocks.dom() =~= before.blocks.dom());
    }
}

/// Dealing with tallies neither adds nor removes a block, nor changes the
/// content or length of one; and a block is notarized afterwards if and only
/// if it was before or one of the tallies dealt with is its own and has reached
/// the quorum.
pub proof fn tick_votes_notarizes_by_quorum(state: NodeView, upto: nat, hash: Seq<u8>)
    requires
        upto <= state.votes.len(),
        state.blocks.contains_key(hash),
    ensures
        state.tick_votes(upto).blocks.dom() == state.blocks.dom(),
        state.tick_votes(upto).blocks[hash].length == state.blocks[hash].length,
        state.tick_votes(upto).blocks[hash].block.same_content(state.blocks[hash].block),
        state.tick_votes(upto).blocks[hash].block.notarized <==> state.blocks[hash].block.notarized
            || quorum_among(state, hash, upto),
    decreases upto,
{
    if upto == 0 {
        assert(!quorum_among(state, hash, 0));
    } else {
        let before = state.tick_votes((upto - 1) as nat);
        let tally = state.votes[upto - 1];
        let after = state.tick_votes(upto);
        tick_votes_notarizes_by_quorum(state, (upto - 1) as nat, hash);
        tick_votes_frame(state, (upto - 1) as nat);
        tick_tally_blocks(before, tally);
        assert(after == before.tick_tally(tally));
        let last = state.reached_quorum(tally.voters) && tally.digest == hash;
        assert(before.blocks.contains_key(hash));
        assert(after.blocks.dom() =~= before.blocks.dom());
        assert(after.blocks[hash].block.notarized == (before.blocks[hash].block.notarized
            || last));
        assert(quorum_among(state, hash, upto) == (quorum_among(state, hash, (upto - 1) as nat)
            || last)) by {
            if quorum_among(state, hash, (upto - 1) as nat) {
                let i = choose|i: int|
                    0 <= i < upto - 1 && tally_at(state.votes, i, hash) && state.reached_quorum(
                        state.votes[i].voters,
                    );
                assert(0 <= i < upto && tally_at(state.votes, i, hash) && state.reached_quorum(
                    state.votes[i].voters,
                ));
            }
            if last {
                assert(tally_at(state.votes, upto - 1, hash));
            }
            if quorum_among(state, hash, upto) {
                let i = choose|i: int|
                    0 <= i < upto && tally_at(state.votes, i, hash) && state.reached_quorum(
                        state.votes[i].voters,
                    );
                if i < upto - 1 {
                    assert(quorum_among(state, hash, (upto - 1) as nat));
                }
            }
        }
    }
}

/// A tick notarizes exactly the blocks whose tally has reached the quorum: a
/// stored block is notarized after the tick if and only if it was notarized
/// before or the distinct voters recorded for it are at least two thirds of
/// the nodes, rounded down.
pub proof fn tick_notarizes_by_quorum(state: NodeView, epoch: Epoch, hash: Seq<u8>)
    requires
        state.well_formed(),
        state.blocks.contains_key(hash),
    ensures
        state.tick(epoch).blocks.contains_key(hash),
        state.tick(epoch).blocks[hash].block.notarized <==> state.blocks[hash].block.notarized || (
        has_tally(state.votes, hash) && voters_for(state.votes, hash).len() >= quorum(
            state.node_count,
        )),
{
    let all = state.votes.len();
    tick_votes_notarizes_by_quorum(state, all, hash);
    tick_votes_frame(state, all);
    tick_votes_keeps_well_formed(state, all);
    let counted = state.tick_counted(epoch);
    assert(counted.blocks.contains_key(hash));
    with_block_keeps_rules(counted.blocks, counted.proposal(epoch));
    if quorum_among(state, hash, all) {
        let i = choose|i: int|
            0 <= i < all && tally_at(state.votes, i, hash) && state.reached_quorum(
                state.votes[i].voters,
            );
        tally_slot_unique(state.votes, i);
    }
    if has_tally(state.votes, hash) {
        let i = tally_slot(state.votes, hash);
        assert(tally_at(state.votes, i, hash));
        tally_slot_unique(state.votes, i);
    }
}

/// The voters recorded after a vote: the voter joins those of the block
/// voted for, and the voters of every other block stay as they were.
pub proof fn with_vote_adds_voter(
    votes: Seq<TallyView>,
    digest: Seq<u8>,
    voter: NodeIdentifier,
    other: Seq<u8>,
)
    requires
        tallies_well_formed(votes),
    ensures
        voters_for(with_vote(votes, digest, voter), digest) == voters_for(votes, digest).insert(
            voter,
        ),
        other != digest ==> voters_for(with_vote(votes, digest, voter), other) == voters_for(
            votes,
            other,
        ),
{
    let after = with_vote(votes, digest, voter);
    with_vote_keeps_well_formed(votes, digest, voter);
    if has_tally(votes, digest) {
        let at = tally_slot(votes, digest);
        assert(tally_at(votes, at, digest));
        assert(tally_at(after, at, digest));
        tally_slot_unique(after, at);
        if other != digest {
            if has_tally(votes, other) {
                let i = tally_slot(votes, other);
                assert(tally_at(votes, i, other));
                assert(tally_at(after, i, other));
                tally_slot_unique(after, i);
            } else if has_tally(after, other) {
                let i = tally_slot(after, other);
                assert(tally_at(after, i, other));
                assert(tally_at(votes, i, other));
            }
        }
    } else {
        let at = votes.len() as int;
        assert(tally_at(after, at, digest));
        tally_slot_unique(after, at);
        if other != digest {
            if has_tally(votes, other) {
                let i = tally_slot(votes, other);
                assert(tally_at(votes, i, other));
                assert(tally_at(after, i, other));
                tally_slot_unique(after, i);
            } else if has_tally(after, other) {
                let i = tally_slot(after, other);
                assert(tally_at(after, i, other));
                assert(tally_at(votes, i, other));
            }
        }
    }
}

/// A vote counts once: the receipt of a vote raises the number of distinct
/// voters for its block by one if the voter is another node that had not
/// voted for the block, and leaves it as it was otherwise; a second receipt of
/// the same vote changes nothing at all.
pub proof fn vote_counts_once(
    state: NodeView,
    from: NodeIdentifier,
    to: NodeIdentifier,
    digest: Seq<u8>,
)
    requires
        state.well_formed(),
    ensures
        ({
            let vote = MessageView { from, to, content: ContentView::Vote(digest) };
            let after = state.receive(vote);
            &&& voters_for(after.votes, digest).len() == voters_for(state.votes, digest).len() + (
            if from != state.id && !voters_for(state.votes, digest).contains(from) {
                1nat
            } else {
                0nat
            })
            &&& after.receive(vote) == after
        }),
{
    let vote = MessageView { from, to, content: ContentView::Vote(digest) };
    with_vote_adds_voter(state.votes, digest, from, digest);
    if has_tally(state.votes, digest) {
        let i = tally_slot(state.votes, digest);
        assert(tally_at(state.votes, i, digest));
    }
}

/// Notarization is idempotent: a block that is notarized again stays as it
/// is.
pub proof fn notarize_idempotent(state: NodeView, hash: Seq<u8>)
    ensures
        state.notarize(hash).notarize(hash) == state.notarize(hash),
{
    let once = state.notarize(hash).blocks;
    let twice = state.notarize(hash).notarize(hash).blocks;
    assert(twice =~= once);
}

/// Whether every block of `before` stands in `after` with the same content
/// and chain length, and notarized if it was.
pub open spec fn extends(
    after: Map<Seq<u8>, StoredView>,
    before: Map<Seq<u8>, StoredView>,
) -> bool {
    forall|k: Seq<u8>| #[trigger]
        before.contains_key(k) ==> {
            &&& after.contains_key(k)
            &&& after[k].block.same_content(before[k].block)
            &&& after[k].length == before[k].length
            &&& before[k].block.notarized ==> after[k].block.notarized
        }
}

/// Dealing with one tally loses no block and no notarization, and neither
/// does the notarization of its block.
pub proof fn tick_tally_extends(state: NodeView, tally: TallyView)
    requires
        state.well_formed(),
    ensures
        extends(state.tick_tally(tally).blocks, state.blocks),
        extends(state.notarize(tally.digest).blocks, state.blocks),
{
    tick_tally_blocks(state, tally);
    with_notarized_keeps_rules(state.blocks, tally.digest);
}

/// Dealing with tallies loses no block and no notarization.
pub proof fn tick_votes_extends(state: NodeView, upto: nat)
    requires
        upto <= state.votes.len(),
    ensures
        extends(state.tick_votes(upto).blocks, state.blocks),
{
    assert forall|k: Seq<u8>| #[trigger] state.blocks.contains_key(k) implies {
        let after = state.tick_votes(upto).blocks;
        &&& after.contains_key(k)
        &&& after[k].block.same_content(state.blocks[k].block)
        &&& after[k].length == state.blocks[k].length
        &&& state.blocks[k].block.notarized ==> after[k].block.notarized
    } by {
        tick_votes_notarizes_by_quorum(state, upto, k);
    }
}

/// A tick loses no block and no notarization: a block, once stored, stays
/// stored as it is, and once notarized, stays notarized.
pub proof fn tick_extends(state: NodeView, epoch: Epoch)
    requires
        state.well_formed(),
    ensures
        extends(state.tick(epoch).blocks, state.blocks),
{
    tick_votes_extends(state, state.votes.len());
    tick_votes_keeps_well_formed(state, state.votes.len());
    let counted = state.tick_counted(epoch);
    with_block_keeps_rules(counted.blocks, counted.proposal(epoch));
    assert forall|k: Seq<u8>| #[trigger] state.blocks.contains_key(k) implies {
        let after = state.tick(epoch).blocks;
        &&& after.contains_key(k)
        &&& after[k].block.same_content(state.blocks[k].block)
        &&& after[k].length == state.blocks[k].length
        &&& state.blocks[k].block.notarized ==> after[k].block.notarized
    } by {
        assert(counted.blocks.contains_key(k));
    }
}

/// The receipt of a message loses no block and no notarization.
pub proof fn receive_extends(state: NodeView, message: MessageView)
    requires
        state.well_formed(),
    ensures
        extends(state.receive(message).blocks, state.blocks),
{
    if let ContentView::Proposal(block) = message.content {
        with_block_keeps_rules(state.blocks, block);
    }
}

} // verus!
