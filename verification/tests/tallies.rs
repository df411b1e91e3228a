use std::collections::HashSet;
use streamlet::block::Block;
use streamlet::error::ConsensusError;
use streamlet::message::{MessageContent, ProposalMessage, VoteMessage};
use streamlet::node::Vote;
use streamlet::store::BlockStore;
use streamlet::tally::VoteBook;

#[test]
fn proposal_message_wraps_the_block() {
    let block = Block::new(1, [2u8; 64]);
    let message = ProposalMessage::new(3, 4, block);
    assert_eq!(message.from, 3);
    assert_eq!(message.to, 4);
    match message.content {
        MessageContent::Proposal(proposal) => {
            assert_eq!(proposal.block.digest(), block.digest());
            assert_eq!(proposal.block.creation_epoch, 1);
            assert!(!proposal.block.is_notarized);
        }
        MessageContent::Vote(_) => panic!("a proposal was expected"),
    }
}

#[test]
fn vote_message_wraps_the_digest() {
    let message = VoteMessage::new(5, 6, [7u8; 64]);
    assert_eq!(message.from, 5);
    assert_eq!(message.to, 6);
    match message.content {
        MessageContent::Vote(vote) => assert_eq!(vote.block_digest, [7u8; 64]),
        MessageContent::Proposal(_) => panic!("a vote was expected"),
    }
}

#[test]
fn vote_counts_and_voters_move_separately() {
    let mut vote = Vote(0, HashSet::new());
    assert_eq!(vote.get_votes(), 0);
    assert!(!vote.has_voted(3));
    vote.increment();
    assert_eq!(vote.get_votes(), 1);
    assert!(!vote.has_voted(3));
    vote.add_voter(3);
    assert_eq!(vote.get_votes(), 1);
    assert!(vote.has_voted(3));
    assert!(!vote.has_voted(4));
}

#[test]
fn new_vote_is_empty() {
    let vote = Vote::new();
    assert_eq!(vote.get_votes(), 0);
    assert!(!vote.has_voted(0));
}

#[test]
fn repeated_votes_never_advance_the_count() {
    let mut vote = Vote::new();
    assert!(vote.record_vote(1));
    assert!(!vote.record_vote(1));
    assert!(vote.record_vote(2));
    assert!(!vote.record_vote(2));
    assert!(!vote.record_vote(1));
    assert_eq!(vote.get_votes(), 2);
    assert!(vote.has_voted(1));
    assert!(vote.has_voted(2));
    assert!(!vote.has_voted(3));
}

#[test]
fn vote_book_keeps_one_tally_per_block() {
    let mut book = VoteBook::new();
    assert_eq!(book.len(), 0);
    assert_eq!(book.votes_for(&[1u8; 64]), 0);
    assert!(book.record_vote(&[1u8; 64], 10));
    assert!(book.record_vote(&[2u8; 64], 10));
    assert!(book.record_vote(&[1u8; 64], 11));
    assert!(!book.record_vote(&[1u8; 64], 10));
    assert_eq!(book.len(), 2);
    assert_eq!(book.digest_at(0), [1u8; 64]);
    assert_eq!(book.digest_at(1), [2u8; 64]);
    assert_eq!(book.votes_at(0), 2);
    assert_eq!(book.votes_at(1), 1);
    assert_eq!(book.votes_for(&[1u8; 64]), 2);
    assert_eq!(book.votes_for(&[2u8; 64]), 1);
    assert_eq!(book.votes_for(&[3u8; 64]), 0);
    assert!(book.has_voted(&[1u8; 64], 11));
    assert!(!book.has_voted(&[2u8; 64], 11));
    assert!(!book.has_voted(&[3u8; 64], 10));
}

#[test]
fn new_store_holds_genesis_with_length_one() {
    let store = BlockStore::new();
    let genesis = Block::genesis_block();
    assert_eq!(store.len(), 1);
    assert!(store.contains(&genesis.digest()));
    let (block, length) = store.get(&genesis.digest()).unwrap();
    assert_eq!(length, 1);
    assert!(block.is_notarized);
    assert_eq!(block.creation_epoch, 0);
    assert!(store.get(&[0u8; 64]).is_none());
    assert!(!store.contains(&[0u8; 64]));
}

#[test]
fn insert_derives_the_chain_length_from_the_parent() {
    let mut store = BlockStore::new();
    let genesis = Block::genesis_block().digest();
    let first = Block::new(1, genesis);
    let second = Block::new(2, first.digest());
    let sibling = Block::new(3, genesis);
    assert_eq!(store.insert(first), Ok(first.digest()));
    assert_eq!(store.insert(second), Ok(second.digest()));
    assert_eq!(store.insert(sibling), Ok(sibling.digest()));
    assert_eq!(store.len(), 4);
    assert_eq!(store.get(&first.digest()).unwrap().1, 2);
    assert_eq!(store.get(&second.digest()).unwrap().1, 3);
    assert_eq!(store.get(&sibling.digest()).unwrap().1, 2);
    assert!(!store.get(&second.digest()).unwrap().0.is_notarized);
}

#[test]
fn insert_refuses_a_block_with_unknown_parent() {
    let mut store = BlockStore::new();
    let orphan = Block::new(1, [0u8; 64]);
    assert_eq!(store.insert(orphan), Err(ConsensusError::ParentUnknown));
    assert_eq!(store.len(), 1);
    assert!(!store.contains(&orphan.digest()));
}

#[test]
fn insert_keeps_a_block_that_is_already_stored() {
    let mut store = BlockStore::new();
    let first = Block::new(1, Block::genesis_block().digest());
    assert_eq!(store.insert(first), Ok(first.digest()));
    assert!(store.notarize(&first.digest()));
    assert_eq!(store.insert(first), Ok(first.digest()));
    assert_eq!(store.len(), 2);
    assert!(store.get(&first.digest()).unwrap().0.is_notarized);
}

#[test]
fn store_notarize_is_idempotent_and_skips_unknown_blocks() {
    let mut store = BlockStore::new();
    let first = Block::new(1, Block::genesis_block().digest());
    store.insert(first).unwrap();
    assert!(!store.get(&first.digest()).unwrap().0.is_notarized);
    assert!(store.notarize(&first.digest()));
    assert!(store.get(&first.digest()).unwrap().0.is_notarized);
    assert!(store.notarize(&first.digest()));
    assert!(store.get(&first.digest()).unwrap().0.is_notarized);
    assert_eq!(store.get(&first.digest()).unwrap().1, 2);
    assert!(!store.notarize(&[0u8; 64]));
    assert_eq!(store.len(), 2);
}
