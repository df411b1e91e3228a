//! The vote book: one tally of distinct voters for each block voted on.

use crate::node::{NodeIdentifier, Vote};
use crate::protocol::{
    has_tally, tallies_well_formed, tally_at, tally_slot, voters_for, with_vote, TallyView,
};
use crate::utils::{hash_eq, BlockHash};
use vstd::prelude::*;

verus! {

#[derive(Debug)]
struct Tally {
    digest: BlockHash,
    vote: Vote,
}

spec fn tally_view(tally: Tally) -> TallyView {
    TallyView { digest: tally.digest@, voters: tally.vote.voters() }
}

/// The tallies of a node, in the order in which their first votes came.
#[derive(Debug)]
pub struct VoteBook {
    tallies: Vec<Tally>,
}

impl View for VoteBook {
    type V = Seq<TallyView>;

    closed spec fn view(&self) -> Seq<TallyView> {
        Seq::new(self.tallies@.len(), |i: int| tally_view(self.tallies@[i]))
    }
}

/// In a well-formed sequence of tallies the tally of a block stands at one
/// position only.
pub proof fn tally_slot_unique(votes: Seq<TallyView>, i: int)
    requires
        tallies_well_formed(votes),
        0 <= i < votes.len(),
    ensures
        has_tally(votes, votes[i].digest),
        tally_slot(votes, votes[i].digest) == i,
        voters_for(votes, votes[i].digest) == votes[i].voters,
{
    let digest = votes[i].digest;
    assert(tally_at(votes, i, digest));
    let j = tally_slot(votes, digest);
    assert(tally_at(votes, j, digest));
    if j < i {
        assert(votes[j].digest != votes[i].digest);
    } else if i < j {
        assert(votes[i].digest != votes[j].digest);
    }
}

impl VoteBook {
    /// One tally per block, and each count is the number of its voters.
    pub closed spec fn well_formed(&self) -> bool {
        &&& tallies_well_formed(self@)
        &&& forall|i: int|
            0 <= i < self.tallies@.len() ==> (#[trigger] self.tallies@[i]).vote.well_formed()
    }

    /// Whether every tally can still count one more vote.
    pub open spec fn has_room(&self) -> bool {
        forall|i: int| 0 <= i < self@.len() ==> (#[trigger] self@[i]).voters.len() < u32::MAX
    }

    /// A well-formed book holds well-formed tallies.
    pub proof fn well_formed_tallies(&self)
        requires
            self.well_formed(),
        ensures
            tallies_well_formed(self@),
    {
    }

    /// A book without tallies.
    pub fn new() -> (book: Self)
        ensures
            book.well_formed(),
            book@ == Seq::<TallyView>::empty(),
    {
        let book = VoteBook { tallies: Vec::new() };
        assert(book@ =~= Seq::<TallyView>::empty());
        book
    }

    /// The number of tallies.
    pub fn len(&self) -> (len: usize)
        ensures
            len == self@.len(),
    {
        self.tallies.len()
    }

    /// The digest of the block that the tally at `index` is for.
    pub fn digest_at(&self, index: usize) -> (digest: BlockHash)
        requires
            index < self@.len(),
        ensures
            digest@ == self@[index as int].digest,
    {
        self.tallies[index].digest
    }

    /// The number of votes in the tally at `index`.
    pub fn votes_at(&self, index: usize) -> (votes: u32)
        requires
            self.well_formed(),
            index < self@.len(),
        ensures
            votes == self@[index as int].voters.len(),
    {
        self.tallies[index].vote.get_votes()
    }

    fn find(&self, hash: &BlockHash) -> (found: Option<usize>)
        ensures
            match found {
                Some(i) => tally_at(self@, i as int, hash@),
                None => !has_tally(self@, hash@),
            },
    {
        let mut i: usize = 0;
        while i < self.tallies.len()
            invariant
                i <= self.tallies@.len(),
                self@.len() == self.tallies@.len(),
                forall|j: int| 0 <= j < i ==> !tally_at(self@, j, hash@),
            decreases self.tallies@.len() - i,
        {
            if hash_eq(&self.tallies[i].digest, hash) {
                return Some(i);
            }
            i += 1;
        }
        proof {
            if has_tally(self@, hash@) {
                let j = tally_slot(self@, hash@);
                assert(tally_at(self@, j, hash@));
            }
        }
        None
    }

    /// The number of distinct voters recorded for the block under `hash`.
    pub fn votes_for(&self, hash: &BlockHash) -> (votes: u32)
        requires
            self.well_formed(),
        ensures
            votes == voters_for(self@, hash@).len(),
    {
        match self.find(hash) {
            Some(i) => {
                proof {
                    tally_slot_unique(self@, i as int);
                }
                self.tallies[i].vote.get_votes()
            },
            None => 0,
        }
    }

    /// Whether `voter` has voted for the block under `hash`.
    pub fn has_voted(&self, hash: &BlockHash, voter: NodeIdentifier) -> (voted: bool)
        requires
            self.well_formed(),
        ensures
            voted == voters_for(self@, hash@).contains(voter),
    {
        match self.find(hash) {
            Some(i) => {
                proof {
                    tally_slot_unique(self@, i as int);
                }
                self.tallies[i].vote.has_voted(voter)
            },
            None => false,
        }
    }

    /// Records the vote of `voter` for the block under `block_hash`. Returns
    /// whether the vote was new; a repeated vote changes nothing.
    pub fn record_vote(&mut self, block_hash: &BlockHash, voter: NodeIdentifier) -> (fresh: bool)
        requires
            old(self).well_formed(),
            voters_for(old(self)@, block_hash@).len() < u32::MAX,
        ensures
            final(self).well_formed(),
            fresh == !voters_for(old(self)@, block_hash@).contains(voter),
            final(self)@ == (if fresh {
                with_vote(old(self)@, block_hash@, voter)
            } else {
                old(self)@
            }),
    {
        match self.find(block_hash) {
            Some(i) => {
                proof {
                    tally_slot_unique(self@, i as int);
                }
                let ghost before = self@;
                let ghost tallies_before = self.tallies@;
                let fresh = self.tallies[i].vote.record_vote(voter);
                proof {
                    assert(self.tallies@.len() == tallies_before.len());
                    assert(forall|j: int|
                        0 <= j < tallies_before.len() && j != i ==> self.tallies@[j]
                            == tallies_before[j]);
                    assert(self.tallies@[i as int].digest == tallies_before[i as int].digest);
                    if fresh {
                        assert(self@ =~= with_vote(before, block_hash@, voter));
                    } else {
                        assert(before[i as int].voters.insert(voter) =~= before[i as int].voters);
                        assert(self@ =~= before);
                    }
                    assert(tallies_well_formed(self@));
                }
                fresh
            },
            None => {
                let ghost before = self@;
                let mut vote = Vote::new();
                let fresh = vote.record_vote(voter);
                self.tallies.push(Tally { digest: *block_hash, vote });
                proof {
                    assert(self@ =~= with_vote(before, block_hash@, voter));
                    assert forall|i: int, j: int| 0 <= i < j < self@.len() implies (
                    #[trigger] self@[i]).digest != (#[trigger] self@[j]).digest by {
                        if j == before.len() {
                            assert(self@[i] == before[i]);
                            if before[i].digest == block_hash@ {
                                assert(tally_at(before, i, block_hash@));
                            }
                        } else {
                            assert(self@[i] == before[i] && self@[j] == before[j]);
                        }
                    }
                    assert forall|i: int| 0 <= i < self@.len() implies (
                    #[trigger] self@[i]).voters.finite() && self@[i].voters.len() > 0 by {
                        if i < before.len() {
                            assert(self@[i] == before[i]);
                        }
                    }
                }
                fresh
            },
        }
    }
}

} // verus!
