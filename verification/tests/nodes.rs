use std::collections::VecDeque;
use streamlet::block::Block;
use streamlet::error::ConsensusError;
use streamlet::message::{Message, MessageContent, ProposalMessage, VoteMessage};
use streamlet::node::honest_node::HonestNode;
use streamlet::node::BaseNode;
use streamlet::utils::BlockHash;

fn genesis_digest() -> BlockHash {
    Block::genesis_block().digest()
}

fn expected_leader(epoch: u64, node_count: u32) -> u32 {
    let digest = ring::digest::digest(&ring::digest::SHA512, &epoch.to_le_bytes());
    let sum: u32 = digest.as_ref().iter().map(|byte| *byte as u32).sum();
    sum % node_count
}

fn vote_digest(message: &Message) -> BlockHash {
    match message.content {
        MessageContent::Vote(vote) => vote.block_digest,
        MessageContent::Proposal(_) => panic!("a vote was expected"),
    }
}

fn proposed_block(message: &Message) -> Block {
    match message.content {
        MessageContent::Proposal(proposal) => proposal.block,
        MessageContent::Vote(_) => panic!("a proposal was expected"),
    }
}

/// Stores `block` in `node` by way of a proposal from node 99.
fn store(node: &mut HonestNode, block: Block) {
    let mut queue = VecDeque::new();
    let outcome = node.on_message_received(&ProposalMessage::new(99, node.id(), block), &mut queue);
    assert_eq!(outcome, Ok(()));
}

#[test]
fn new_node_knows_genesis_alone() {
    let node = HonestNode::new(2, 4);
    assert_eq!(node.id(), 2);
    assert_eq!(node.node_count(), 4);
    assert_eq!(node.current_leader(), 0);
    assert_eq!(node.finalized_head(), genesis_digest());
    assert_eq!(node.longest_notarized_heads(), &vec![genesis_digest()]);
    let (block, length) = node.block(&genesis_digest()).unwrap();
    assert!(block.is_notarized);
    assert_eq!(length, 1);
    assert_eq!(node.votes_for(&genesis_digest()), 0);
    assert!(node.can_grow());
}

#[test]
fn leader_is_the_byte_sum_of_the_epoch_hash_modulo_the_node_count() {
    let node = HonestNode::new(0, 7);
    for epoch in [0u64, 1, 2, 3, 255, 256, 1 << 40, u64::MAX] {
        assert_eq!(node.calculate_leader_id(epoch), expected_leader(epoch, 7));
    }
}

#[test]
fn leader_is_in_range_and_the_same_on_every_node() {
    for node_count in [1u32, 2, 3, 4, 10, 1000] {
        let first = HonestNode::new(0, node_count);
        let last = HonestNode::new(node_count - 1, node_count);
        for epoch in 0u64..50 {
            let leader = first.calculate_leader_id(epoch);
            assert!(leader < node_count);
            assert_eq!(leader, last.calculate_leader_id(epoch));
            assert_eq!(leader, first.calculate_leader_id(epoch));
        }
    }
}

#[test]
fn is_leader_agrees_with_the_schedule() {
    for id in 0u32..4 {
        let node = HonestNode::new(id, 4);
        for epoch in 1u64..20 {
            assert_eq!(node.is_leader(epoch), expected_leader(epoch, 4) == id);
        }
    }
}

#[test]
fn quorum_is_two_thirds_rounded_down() {
    let four = HonestNode::new(0, 4);
    assert!(!four.can_block_be_notarized(1));
    assert!(four.can_block_be_notarized(2));
    assert!(four.can_block_be_notarized(3));
    let three = HonestNode::new(0, 3);
    assert!(!three.can_block_be_notarized(1));
    assert!(three.can_block_be_notarized(2));
    let seven = HonestNode::new(0, 7);
    assert!(!seven.can_block_be_notarized(3));
    assert!(seven.can_block_be_notarized(4));
    let one = HonestNode::new(0, 1);
    assert!(one.can_block_be_notarized(0));
    let two = HonestNode::new(0, 2);
    assert!(!two.can_block_be_notarized(0));
    assert!(two.can_block_be_notarized(1));
}

#[test]
fn quorum_of_the_largest_network_does_not_overflow() {
    let node = HonestNode::new(0, u32::MAX);
    assert!(!node.can_block_be_notarized(2_863_311_529));
    assert!(node.can_block_be_notarized(2_863_311_530));
}

#[test]
fn broadcast_copies_the_message_to_every_other_node() {
    let node = HonestNode::new(1, 4);
    let mut queue = VecDeque::new();
    queue.push_back(VoteMessage::new(8, 9, [1u8; 64]));
    let vote = VoteMessage::new(3, 1, [6u8; 64]);
    node.broadcast(&vote, &mut queue);
    assert_eq!(queue.len(), 4);
    assert_eq!(queue[0].from, 8);
    let targets: Vec<u32> = queue.iter().skip(1).map(|message| message.to).collect();
    assert_eq!(targets, vec![0, 2, 3]);
    for message in queue.iter().skip(1) {
        assert_eq!(message.from, 3);
        assert_eq!(vote_digest(message), [6u8; 64]);
    }
}

#[test]
fn broadcast_from_a_node_outside_the_network_reaches_all() {
    let node = HonestNode::new(9, 3);
    let mut queue = VecDeque::new();
    node.broadcast(&VoteMessage::new(9, 9, [0u8; 64]), &mut queue);
    let targets: Vec<u32> = queue.iter().map(|message| message.to).collect();
    assert_eq!(targets, vec![0, 1, 2]);
}

#[test]
fn broadcast_in_a_network_of_one_sends_nothing() {
    let node = HonestNode::new(0, 1);
    let mut queue = VecDeque::new();
    node.broadcast(&VoteMessage::new(0, 0, [0u8; 64]), &mut queue);
    assert!(queue.is_empty());
}

#[test]
fn can_block_be_finalized_wants_notarization_and_the_expected_epoch() {
    let node = HonestNode::new(0, 4);
    let mut block = Block::new(5, [0u8; 64]);
    assert!(!node.can_block_be_finalized(&block, 5));
    block.notarize();
    assert!(node.can_block_be_finalized(&block, 5));
    assert!(!node.can_block_be_finalized(&block, 4));
    assert!(!node.can_block_be_finalized(&block, 6));
}

#[test]
fn own_message_is_ignored() {
    let mut node = HonestNode::new(1, 4);
    let block = Block::new(1, genesis_digest());
    let mut queue = VecDeque::new();
    let outcome = node.on_message_received(&ProposalMessage::new(1, 1, block), &mut queue);
    assert_eq!(outcome, Ok(()));
    assert!(queue.is_empty());
    assert!(node.block(&block.digest()).is_none());
    let outcome = node.on_message_received(&VoteMessage::new(1, 1, block.digest()), &mut queue);
    assert_eq!(outcome, Ok(()));
    assert!(queue.is_empty());
    assert_eq!(node.votes_for(&block.digest()), 0);
}

#[test]
fn proposal_atop_a_head_is_stored_voted_on_and_passed_on() {
    let mut node = HonestNode::new(1, 4);
    let block = Block::new(1, genesis_digest());
    let mut queue = VecDeque::new();
    let outcome = node.on_message_received(&ProposalMessage::new(2, 2, block), &mut queue);
    assert_eq!(outcome, Ok(()));
    let (stored, length) = node.block(&block.digest()).unwrap();
    assert_eq!(length, 2);
    assert!(!stored.is_notarized);
    assert_eq!(stored.digest(), block.digest());
    assert_eq!(queue.len(), 4);
    assert_eq!(queue[0].from, 1);
    assert_eq!(queue[0].to, node.current_leader());
    assert_eq!(vote_digest(&queue[0]), block.digest());
    let targets: Vec<u32> = queue.iter().skip(1).map(|message| message.to).collect();
    assert_eq!(targets, vec![0, 2, 3]);
    for message in queue.iter().skip(1) {
        assert_eq!(message.from, 2);
        assert_eq!(proposed_block(message).digest(), block.digest());
    }
}

#[test]
fn proposal_off_the_heads_is_stored_and_passed_on_without_a_vote() {
    let mut node = HonestNode::new(0, 3);
    let first = Block::new(1, genesis_digest());
    store(&mut node, first);
    let second = Block::new(2, first.digest());
    let mut queue = VecDeque::new();
    let outcome = node.on_message_received(&ProposalMessage::new(2, 0, second), &mut queue);
    assert_eq!(outcome, Ok(()));
    assert_eq!(node.block(&second.digest()).unwrap().1, 3);
    assert_eq!(queue.len(), 2);
    for message in queue.iter() {
        assert_eq!(message.from, 2);
        assert_eq!(proposed_block(message).digest(), second.digest());
    }
    assert_eq!(queue[0].to, 1);
    assert_eq!(queue[1].to, 2);
}

#[test]
fn repeated_proposal_is_passed_over() {
    let mut node = HonestNode::new(1, 4);
    let block = Block::new(1, genesis_digest());
    store(&mut node, block);
    let mut queue = VecDeque::new();
    let outcome = node.on_message_received(&ProposalMessage::new(2, 1, block), &mut queue);
    assert_eq!(outcome, Ok(()));
    assert!(queue.is_empty());
    let outcome = node.on_message_received(&ProposalMessage::new(3, 1, block), &mut queue);
    assert_eq!(outcome, Ok(()));
    assert!(queue.is_empty());
}

#[test]
fn proposal_with_unknown_parent_is_dropped_with_an_error() {
    let mut node = HonestNode::new(1, 4);
    let orphan = Block::new(2, [0u8; 64]);
    let mut queue = VecDeque::new();
    let outcome = node.on_message_received(&ProposalMessage::new(2, 1, orphan), &mut queue);
    assert_eq!(outcome, Err(ConsensusError::ParentUnknown));
    assert!(queue.is_empty());
    assert!(node.block(&orphan.digest()).is_none());
    assert_eq!(node.longest_notarized_heads(), &vec![genesis_digest()]);
}

#[test]
fn vote_is_tallied_once_and_passed_on_once() {
    let mut node = HonestNode::new(0, 4);
    let digest = [4u8; 64];
    let mut queue = VecDeque::new();
    let outcome = node.on_message_received(&VoteMessage::new(2, 0, digest), &mut queue);
    assert_eq!(outcome, Ok(()));
    assert_eq!(node.votes_for(&digest), 1);
    let targets: Vec<u32> = queue.iter().map(|message| message.to).collect();
    assert_eq!(targets, vec![1, 2, 3]);
    for message in queue.iter() {
        assert_eq!(message.from, 2);
        assert_eq!(vote_digest(message), digest);
    }
    let mut again = VecDeque::new();
    let outcome = node.on_message_received(&VoteMessage::new(2, 3, digest), &mut again);
    assert_eq!(outcome, Ok(()));
    assert!(again.is_empty());
    assert_eq!(node.votes_for(&digest), 1);
    let outcome = node.on_message_received(&VoteMessage::new(3, 0, digest), &mut again);
    assert_eq!(outcome, Ok(()));
    assert_eq!(again.len(), 3);
    assert_eq!(node.votes_for(&digest), 2);
}

#[test]
fn notarize_block_marks_a_stored_block_and_skips_others() {
    let mut node = HonestNode::new(0, 4);
    let block = Block::new(1, genesis_digest());
    store(&mut node, block);
    node.notarize_block(block.digest());
    assert!(node.block(&block.digest()).unwrap().0.is_notarized);
    node.notarize_block(block.digest());
    assert!(node.block(&block.digest()).unwrap().0.is_notarized);
    node.notarize_block([0u8; 64]);
    assert!(node.block(&[0u8; 64]).is_none());
}

#[test]
fn finalization_needs_three_consecutive_notarized_epochs() {
    let mut node = HonestNode::new(0, 4);
    let first = Block::new(1, genesis_digest());
    let second = Block::new(2, first.digest());
    let third = Block::new(3, second.digest());
    store(&mut node, first);
    store(&mut node, second);
    store(&mut node, third);
    assert_eq!(node.try_finalize_chain(third.digest()), Ok(false));
    node.notarize_block(third.digest());
    assert_eq!(node.try_finalize_chain(third.digest()), Ok(false));
    node.notarize_block(second.digest());
    assert_eq!(node.try_finalize_chain(third.digest()), Ok(false));
    assert_eq!(node.finalized_head(), genesis_digest());
    node.notarize_block(first.digest());
    assert_eq!(node.try_finalize_chain(third.digest()), Ok(true));
    assert_eq!(node.finalized_head(), second.digest());
    assert_eq!(node.try_finalize_chain(second.digest()), Ok(true));
    assert_eq!(node.finalized_head(), first.digest());
}

#[test]
fn finalization_skips_a_gap_in_the_epochs() {
    let mut node = HonestNode::new(0, 4);
    let first = Block::new(1, genesis_digest());
    let second = Block::new(3, first.digest());
    let third = Block::new(4, second.digest());
    for block in [first, second, third] {
        store(&mut node, block);
        node.notarize_block(block.digest());
    }
    assert_eq!(node.try_finalize_chain(third.digest()), Ok(false));
    assert_eq!(node.try_finalize_chain(second.digest()), Ok(false));
    assert_eq!(node.finalized_head(), genesis_digest());
}

#[test]
fn finalization_of_an_unknown_block_is_an_error() {
    let mut node = HonestNode::new(0, 4);
    assert_eq!(node.try_finalize_chain([0u8; 64]), Err(ConsensusError::ParentUnknown));
    assert_eq!(node.finalized_head(), genesis_digest());
}

#[test]
fn finalization_of_genesis_reports_its_unknown_parent() {
    let mut node = HonestNode::new(0, 4);
    assert_eq!(node.try_finalize_chain(genesis_digest()), Err(ConsensusError::ParentUnknown));
    assert_eq!(node.finalized_head(), genesis_digest());
}

#[test]
fn finalization_of_a_child_of_genesis_finds_no_grandparent() {
    let mut node = HonestNode::new(0, 4);
    let first = Block::new(1, genesis_digest());
    store(&mut node, first);
    node.notarize_block(first.digest());
    assert_eq!(node.try_finalize_chain(first.digest()), Ok(false));
    assert_eq!(node.finalized_head(), genesis_digest());
}

#[test]
fn longer_notarized_chain_replaces_the_heads() {
    let mut node = HonestNode::new(0, 4);
    let first = Block::new(1, genesis_digest());
    store(&mut node, first);
    let (unnotarized, length) = node.block(&first.digest()).unwrap();
    node.adjust_longest_chain_head(&unnotarized, length);
    assert_eq!(node.longest_notarized_heads(), &vec![genesis_digest()]);
    node.notarize_block(first.digest());
    let (notarized, length) = node.block(&first.digest()).unwrap();
    assert_eq!(length, 2);
    node.adjust_longest_chain_head(&notarized, length);
    assert_eq!(node.longest_notarized_heads(), &vec![first.digest()]);
}

#[test]
fn equal_notarized_chain_joins_the_heads_once() {
    let mut node = HonestNode::new(0, 4);
    let first = Block::new(1, genesis_digest());
    let rival = Block::new(2, genesis_digest());
    for block in [first, rival] {
        store(&mut node, block);
        node.notarize_block(block.digest());
    }
    let (stored_first, first_length) = node.block(&first.digest()).unwrap();
    let (stored_rival, rival_length) = node.block(&rival.digest()).unwrap();
    node.adjust_longest_chain_head(&stored_first, first_length);
    node.adjust_longest_chain_head(&stored_rival, rival_length);
    assert_eq!(node.longest_notarized_heads(), &vec![first.digest(), rival.digest()]);
    node.adjust_longest_chain_head(&stored_rival, rival_length);
    node.adjust_longest_chain_head(&stored_first, first_length);
    assert_eq!(node.longest_notarized_heads(), &vec![first.digest(), rival.digest()]);
}

#[test]
fn shorter_chain_and_unnotarized_parent_leave_the_heads() {
    let mut node = HonestNode::new(0, 4);
    let first = Block::new(1, genesis_digest());
    let second = Block::new(2, first.digest());
    let third = Block::new(3, second.digest());
    let short = Block::new(4, genesis_digest());
    for block in [first, second, third, short] {
        store(&mut node, block);
    }
    node.notarize_block(third.digest());
    let (stored_third, third_length) = node.block(&third.digest()).unwrap();
    node.adjust_longest_chain_head(&stored_third, third_length);
    assert_eq!(node.longest_notarized_heads(), &vec![genesis_digest()]);
    node.notarize_block(first.digest());
    node.notarize_block(second.digest());
    let (stored_second, second_length) = node.block(&second.digest()).unwrap();
    node.adjust_longest_chain_head(&stored_second, second_length);
    assert_eq!(node.longest_notarized_heads(), &vec![second.digest()]);
    node.notarize_block(short.digest());
    let (stored_short, short_length) = node.block(&short.digest()).unwrap();
    assert_eq!(short_length, 2);
    node.adjust_longest_chain_head(&stored_short, short_length);
    assert_eq!(node.longest_notarized_heads(), &vec![second.digest()]);
}

#[test]
fn tick_notarizes_at_the_quorum_and_not_below() {
    let mut node = HonestNode::new(0, 4);
    let first = Block::new(1, genesis_digest());
    store(&mut node, first);
    let mut queue = VecDeque::new();
    node.on_message_received(&VoteMessage::new(1, 0, first.digest()), &mut queue).unwrap();
    node.at_time(50, &mut VecDeque::new());
    assert!(!node.block(&first.digest()).unwrap().0.is_notarized);
    node.on_message_received(&VoteMessage::new(1, 0, first.digest()), &mut queue).unwrap();
    node.at_time(51, &mut VecDeque::new());
    assert!(!node.block(&first.digest()).unwrap().0.is_notarized);
    node.on_message_received(&VoteMessage::new(2, 0, first.digest()), &mut queue).unwrap();
    node.at_time(52, &mut VecDeque::new());
    assert!(node.block(&first.digest()).unwrap().0.is_notarized);
}

#[test]
fn tick_skips_votes_for_blocks_that_are_not_stored() {
    let mut node = HonestNode::new(0, 1);
    let mut queue = VecDeque::new();
    node.on_message_received(&VoteMessage::new(3, 0, [0u8; 64]), &mut queue).unwrap();
    let dropped = node.at_time(1, &mut queue);
    assert_eq!(dropped, vec![[0u8; 64]]);
    assert!(node.block(&[0u8; 64]).is_none());
    assert_eq!(node.finalized_head(), genesis_digest());
    assert_eq!(node.longest_notarized_heads(), &vec![genesis_digest()]);
}

#[test]
fn tick_sets_the_leader_and_the_leader_proposes_atop_its_first_head() {
    let epoch = 1u64;
    let leader = expected_leader(epoch, 4);
    let mut node = HonestNode::new(leader, 4);
    let mut queue = VecDeque::new();
    node.at_time(epoch, &mut queue);
    assert_eq!(node.current_leader(), leader);
    let expected = Block::new(epoch, genesis_digest());
    assert_eq!(queue.len(), 3);
    for message in queue.iter() {
        assert_eq!(message.from, leader);
        assert_ne!(message.to, leader);
        assert_eq!(proposed_block(message).digest(), expected.digest());
        assert!(!proposed_block(message).is_notarized);
    }
    let (stored, length) = node.block(&expected.digest()).unwrap();
    assert_eq!(length, 2);
    assert!(!stored.is_notarized);
    let other = (leader + 1) % 4;
    let mut follower = HonestNode::new(other, 4);
    let mut silent = VecDeque::new();
    follower.at_time(epoch, &mut silent);
    assert!(silent.is_empty());
    assert_eq!(follower.current_leader(), leader);
    assert!(follower.block(&expected.digest()).is_none());
}

#[test]
fn tick_moves_the_finalized_head_to_the_newest_block_of_three() {
    let mut node = HonestNode::new(0, 1);
    let first = Block::new(1, genesis_digest());
    let second = Block::new(2, first.digest());
    let third = Block::new(3, second.digest());
    let mut queue = VecDeque::new();
    for block in [first, second, third] {
        store(&mut node, block);
        node.on_message_received(&VoteMessage::new(5, 0, block.digest()), &mut queue).unwrap();
    }
    let dropped = node.at_time(900, &mut queue);
    assert!(dropped.is_empty());
    for block in [first, second, third] {
        assert!(node.block(&block.digest()).unwrap().0.is_notarized);
    }
    assert_eq!(node.finalized_head(), second.digest());
    assert_eq!(node.longest_notarized_heads(), &vec![third.digest()]);
}

#[test]
fn tick_reports_the_checks_that_name_unknown_blocks() {
    let mut node = HonestNode::new(0, 4);
    let first = Block::new(1, genesis_digest());
    store(&mut node, first);
    let mut queue = VecDeque::new();
    for voter in [1u32, 2] {
        for digest in [[9u8; 64], genesis_digest(), first.digest()] {
            node.on_message_received(&VoteMessage::new(voter, 0, digest), &mut queue).unwrap();
        }
    }
    node.on_message_received(&VoteMessage::new(1, 0, [8u8; 64]), &mut queue).unwrap();
    let dropped = node.at_time(70, &mut VecDeque::new());
    assert_eq!(dropped, vec![[9u8; 64], genesis_digest()]);
    assert!(node.block(&first.digest()).unwrap().0.is_notarized);
    assert_eq!(node.longest_notarized_heads(), &vec![first.digest()]);
    assert_eq!(node.finalized_head(), genesis_digest());
}
