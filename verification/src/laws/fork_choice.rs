//! Fork choice: the heads are tied, and the blocks that the fork choice has
//! looked at are taken into account.

use crate::block::genesis;
use crate::invariants::{
    notarize_keeps_well_formed, tick_keeps_well_formed, tick_votes_keeps_well_formed,
    try_finalize_keeps_well_formed,
};
use crate::laws::notarization::{quorum_among, tick_votes_dom, tick_votes_notarizes_by_quorum};
use crate::node::Epoch;
use crate::protocol::{has_tally, tally_at, tally_slot, NodeView, TallyView};
use crate::store::{parent_is_held, with_block_keeps_rules, with_notarized_keeps_rules};
use crate::tally::tally_slot_unique;
use vstd::prelude::*;

verus! {

/// Whether the fork choice has taken the stored block under `hash` into
/// account: its chain is no longer than those of the heads, and if it is as
/// long, the block is one of the heads.
pub open spec fn covered(state: NodeView, hash: Seq<u8>) -> bool {
    &&& state.blocks[hash].length <= state.head_length()
    &&& state.blocks[hash].length == state.head_length() ==> state.heads.contains(hash)
}

/// All heads are stored and notarized and end chains of one length, and each
/// is the genesis block or has a notarized parent.
pub proof fn heads_are_tied(state: NodeView, i: int, j: int)
    requires
        state.well_formed(),
        0 <= i < state.heads.len(),
        0 <= j < state.heads.len(),
    ensures
        state.blocks.contains_key(state.heads[i]),
        state.blocks[state.heads[i]].length == state.blocks[state.heads[j]].length,
        state.heads[i] == genesis().digest() || state.eligible(state.heads[i]),
        i != j ==> state.heads[i] != state.heads[j],
{
}

/// The fork choice on a notarized block with a notarized parent: a chain
/// longer than the heads' makes the block the only head, a chain as long adds
/// the block to the heads, and a shorter chain changes nothing. Afterwards
/// the block is taken into account.
pub proof fn adjust_covers(state: NodeView, hash: Seq<u8>)
    requires
        state.well_formed(),
        state.eligible(hash),
    ensures
        state.head_length() < state.blocks[hash].length ==> state.adjust(hash).heads == seq![hash],
        state.head_length() == state.blocks[hash].length ==> state.adjust(hash).heads.to_set()
            == state.heads.to_set().insert(hash),
        state.head_length() > state.blocks[hash].length ==> state.adjust(hash).heads
            == state.heads,
        covered(state.adjust(hash), hash),
        state.adjust(hash).head_length() >= state.head_length(),
{
    let after = state.adjust(hash);
    if state.head_length() < state.blocks[hash].length {
        assert(after.heads[0] == hash);
    } else if state.head_length() == state.blocks[hash].length {
        if state.heads.contains(hash) {
            assert(state.heads.to_set().insert(hash) =~= state.heads.to_set());
        } else {
            assert(after.heads[0] == state.heads[0]);
            assert(after.heads[state.heads.len() as int] == hash);
            assert forall|h: Seq<u8>| after.heads.to_set().contains(h)
                == state.heads.to_set().insert(hash).contains(h) by {
                if after.heads.contains(h) {
                    let i = choose|i: int| 0 <= i < after.heads.len() && after.heads[i] == h;
                    if i < state.heads.len() {
                        assert(state.heads[i] == h);
                    }
                }
                if state.heads.contains(h) {
                    let i = choose|i: int| 0 <= i < state.heads.len() && state.heads[i] == h;
                    assert(after.heads[i] == h);
                }
            }
            assert(after.heads.to_set() =~= state.heads.to_set().insert(hash));
        }
    }
}

/// The fork choice is idempotent: a second look at the same block changes
/// nothing.
pub proof fn adjust_idempotent(state: NodeView, hash: Seq<u8>)
    requires
        state.well_formed(),
    ensures
        state.adjust(hash).adjust(hash) == state.adjust(hash),
{
    let after = state.adjust(hash);
    if state.eligible(hash) {
        adjust_covers(state, hash);
        if state.head_length() < state.blocks[hash].length {
            assert(after.heads[0] == hash);
        } else if state.head_length() == state.blocks[hash].length && !state.heads.contains(
            hash,
        ) {
            assert(after.heads[0] == state.heads[0]);
            assert(after.heads[state.heads.len() as int] == hash);
        }
    }
}

/// The fork choice on one block leaves every other block taken into account
/// that was so before, and never shortens the heads' chains.
pub proof fn adjust_keeps_covered(state: NodeView, hash: Seq<u8>, other: Seq<u8>)
    requires
        state.well_formed(),
        covered(state, other),
    ensures
        covered(state.adjust(hash), other),
        state.adjust(hash).head_length() >= state.head_length(),
{
    let after = state.adjust(hash);
    if state.eligible(hash) {
        if state.head_length() < state.blocks[hash].length {
            assert(after.heads[0] == hash);
        } else if state.head_length() == state.blocks[hash].length && !state.heads.contains(
            hash,
        ) {
            assert(after.heads[0] == state.heads[0]);
            if state.heads.contains(other) {
                let i = choose|i: int| 0 <= i < state.heads.len() && state.heads[i] == other;
                assert(after.heads[i] == other);
            }
        }
    }
}

proof fn tick_tally_keeps_covered(state: NodeView, tally: TallyView, other: Seq<u8>)
    requires
        state.well_formed(),
        state.blocks.contains_key(other),
        covered(state, other),
    ensures
        covered(state.tick_tally(tally), other),
{
    let counted = if state.reached_quorum(tally.voters) {
        state.notarize(tally.digest).try_finalize(tally.digest)
    } else {
        state
    };
    with_notarized_keeps_rules(state.blocks, tally.digest);
    assert(state.blocks.contains_key(state.heads[0]));
    assert(covered(counted, other));
    if state.reached_quorum(tally.voters) {
        notarize_keeps_well_formed(state, tally.digest);
        try_finalize_keeps_well_formed(
            state.notarize(tally.digest),
            tally.digest,
        );
    }
    adjust_keeps_covered(counted, tally.digest, other);
}

/// Once a tick has dealt with a tally whose block was notarized with a
/// notarized parent at that moment, the fork choice has taken the block into
/// account, and it stays so while the tick deals with the tallies behind it.
pub proof fn tick_votes_covers(state: NodeView, upto: nat, index: nat)
    requires
        state.well_formed(),
        index < upto <= state.votes.len(),
        state.tick_votes((index + 1) as nat).eligible(state.votes[index as int].digest),
    ensures
        covered(state.tick_votes(upto), state.votes[index as int].digest),
    decreases upto,
{
    let hash = state.votes[index as int].digest;
    let before = state.tick_votes((upto - 1) as nat);
    let tally = state.votes[upto - 1];
    tick_votes_keeps_well_formed(state, (upto - 1) as nat);
    if upto == index + 1 {
        let counted = if before.reached_quorum(tally.voters) {
            before.notarize(hash).try_finalize(hash)
        } else {
            before
        };
        if before.reached_quorum(tally.voters) {
            notarize_keeps_well_formed(before, hash);
            try_finalize_keeps_well_formed(before.notarize(hash), hash);
        }
        assert(counted.adjust(hash) == state.tick_votes(upto));
        assert(counted.adjust(hash).blocks == counted.blocks);
        assert(counted.eligible(hash));
        adjust_covers(counted, hash);
    } else {
        tick_votes_covers(state, (upto - 1) as nat, index);
        tick_votes_dom(state, (index + 1) as nat);
        tick_votes_dom(state, (upto - 1) as nat);
        tick_tally_keeps_covered(before, tally, hash);
    }
}

/// After a tick the fork choice has taken into account every block with a
/// tally that was notarized, with a notarized parent, when the tick began:
/// no such block ends a longer chain than the heads, and each that ends a
/// chain as long is one of the heads.
pub proof fn tick_covers(state: NodeView, epoch: Epoch, hash: Seq<u8>)
    requires
        state.well_formed(),
        has_tally(state.votes, hash),
        state.eligible(hash),
    ensures
        covered(state.tick(epoch), hash),
{
    let index = tally_slot(state.votes, hash);
    assert(tally_at(state.votes, index, hash));
    let all = state.votes.len();
    let parent = state.blocks[hash].block.parent;
    tick_votes_notarizes_by_quorum(state, (index + 1) as nat, hash);
    tick_votes_notarizes_by_quorum(state, (index + 1) as nat, parent);
    tick_votes_covers(state, all, index as nat);
    tick_votes_keeps_well_formed(state, all);
    tick_votes_dom(state, all);
    let counted = state.tick_counted(epoch);
    assert(covered(counted, hash));
    assert(counted.blocks.contains_key(hash));
    assert(counted.blocks.contains_key(counted.heads[0]));
    with_block_keeps_rules(counted.blocks, counted.proposal(epoch));
}

/// Whether the votes came in the order of the chains: every notarized block
/// but the genesis block has a tally, and the tally of a stored block stands
/// behind that of its parent.
pub open spec fn tallied_in_chain_order(state: NodeView) -> bool {
    &&& forall|hash: Seq<u8>| #[trigger]
        state.blocks.contains_key(hash) && state.blocks[hash].block.notarized && hash
            != genesis().digest() ==> has_tally(state.votes, hash)
    &&& forall|i: int, j: int|
        0 <= i < state.votes.len() && 0 <= j < state.votes.len() && state.blocks.contains_key(
            (#[trigger] state.votes[i]).digest,
        ) && (#[trigger] state.votes[j]).digest == state.blocks[state.votes[i].digest].block.parent
            ==> j < i
}

/// Where the votes came in the order of the chains, a tick leaves the fork
/// choice complete: every notarized block with a notarized parent is taken
/// into account.
pub proof fn tick_heads_are_longest(state: NodeView, epoch: Epoch, hash: Seq<u8>)
    requires
        state.well_formed(),
        tallied_in_chain_order(state),
        state.tick(epoch).eligible(hash),
    ensures
        covered(state.tick(epoch), hash),
{
    let all = state.votes.len();
    let root = genesis().digest();
    let counted = state.tick_counted(epoch);
    let after = state.tick(epoch);
    tick_keeps_well_formed(state, epoch);
    tick_votes_keeps_well_formed(state, all);
    tick_votes_dom(state, all);
    with_block_keeps_rules(counted.blocks, counted.proposal(epoch));
    let parent = after.blocks[hash].block.parent;
    // Neither the block nor its parent is the proposal of this tick, which is
    // not notarized.
    assert(counted.blocks.contains_key(hash));
    assert(counted.blocks.contains_key(parent));
    assert(state.blocks.contains_key(hash));
    assert(state.blocks.contains_key(parent));
    assert(after.blocks.contains_key(after.heads[0]));
    assert(counted.blocks.contains_key(counted.heads[0]));
    tick_votes_notarizes_by_quorum(state, all, hash);
    tick_votes_notarizes_by_quorum(state, all, parent);
    if hash == root {
        assert(after.blocks[root].length == 1);
        if after.head_length() == 1 {
            let head = after.heads[0];
            if head != root {
                parent_is_held(after.blocks, head);
                assert(after.blocks.contains_key(after.blocks[head].block.parent));
            }
        }
    } else {
        if quorum_among(state, hash, all) {
            let i = choose|i: int|
                0 <= i < all && tally_at(state.votes, i, hash) && state.reached_quorum(
                    state.votes[i].voters,
                );
            assert(has_tally(state.votes, hash));
        }
        let index = tally_slot(state.votes, hash);
        assert(tally_at(state.votes, index, hash));
        tally_slot_unique(state.votes, index);
        let step = (index + 1) as nat;
        tick_votes_notarizes_by_quorum(state, step, hash);
        tick_votes_notarizes_by_quorum(state, step, parent);
        tick_votes_dom(state, step);
        assert(quorum_among(state, hash, all) ==> quorum_among(state, hash, step)) by {
            if quorum_among(state, hash, all) {
                let i = choose|i: int|
                    0 <= i < all && tally_at(state.votes, i, hash) && state.reached_quorum(
                        state.votes[i].voters,
                    );
                tally_slot_unique(state.votes, i);
                assert(i == index);
            }
        }
        assert(quorum_among(state, parent, all) ==> quorum_among(state, parent, step)) by {
            if quorum_among(state, parent, all) {
                let j = choose|j: int|
                    0 <= j < all && tally_at(state.votes, j, parent) && state.reached_quorum(
                        state.votes[j].voters,
                    );
                assert(state.votes[index].digest == hash);
                assert(state.votes[j].digest == parent);
                assert(state.blocks[hash].block.parent == parent);
                assert(j < index);
            }
        }
        assert(state.tick_votes(step).eligible(hash));
        tick_votes_covers(state, all, index as nat);
    }
}

/// Where every notarized block with a notarized parent is taken into account,
/// the heads are exactly the longest of these blocks, or the genesis block
/// alone if there is no such block.
pub proof fn covered_heads_are_exact(state: NodeView, hash: Seq<u8>)
    requires
        state.well_formed(),
        forall|other: Seq<u8>| #[trigger] state.eligible(other) ==> covered(state, other),
    ensures
        state.heads.contains(hash) <==> (if exists|other: Seq<u8>| #[trigger]
            state.eligible(other) {
            &&& state.eligible(hash)
            &&& forall|other: Seq<u8>| #[trigger]
                state.eligible(other) ==> state.blocks[other].length <= state.blocks[hash].length
        } else {
            hash == genesis().digest()
        }),
{
    let root = genesis().digest();
    assert(state.blocks.contains_key(state.heads[0]));
    if exists|other: Seq<u8>| #[trigger] state.eligible(other) {
        let witness = choose|other: Seq<u8>| #[trigger] state.eligible(other);
        assert(covered(state, witness));
        assert(state.blocks.contains_key(state.blocks[witness].block.parent));
        if witness != root {
            parent_is_held(state.blocks, witness);
            assert(state.blocks[witness].length >= 2);
        }
        if state.heads.contains(hash) {
            let i = choose|i: int| 0 <= i < state.heads.len() && state.heads[i] == hash;
            assert(state.blocks.contains_key(state.heads[i]));
            if hash == root && !state.eligible(hash) {
                // The genesis block heads a chain of one block, and so would
                // every eligible block then; but such a block is the genesis
                // block itself, which is not eligible here.
                assert(state.head_length() == 1);
                assert(witness == root);
            }
            assert forall|other: Seq<u8>| #[trigger]
                state.eligible(other) implies state.blocks[other].length
                <= state.blocks[hash].length by {
                assert(covered(state, other));
            }
        }
        if state.eligible(hash) && (forall|other: Seq<u8>| #[trigger]
            state.eligible(other) ==> state.blocks[other].length <= state.blocks[hash].length) {
            assert(covered(state, hash));
            let head = state.heads[0];
            if head == root && !state.eligible(head) {
                assert(state.head_length() == 1);
                assert(witness == root);
            }
            assert(state.eligible(head));
        }
    } else {
        if state.heads.contains(hash) {
            let i = choose|i: int| 0 <= i < state.heads.len() && state.heads[i] == hash;
            assert(state.blocks.contains_key(state.heads[i]));
            if hash != root {
                assert(state.eligible(hash));
            }
        }
        if hash == root {
            let head = state.heads[0];
            if head != root {
                assert(state.eligible(head));
            }
        }
    }
}

} // verus!
