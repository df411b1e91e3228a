use std::collections::VecDeque;
use streamlet::block::Block;
use streamlet::error::ConsensusError;
use streamlet::message::{Message, VoteMessage};
use streamlet::network::{deliver_next, tick_all};
use streamlet::node::honest_node::HonestNode;
use streamlet::utils::BlockHash;

fn network(node_count: u32) -> Vec<HonestNode> {
    (0..node_count).map(|id| HonestNode::new(id, node_count)).collect()
}

/// Runs one epoch: ticks every node, then delivers until the queue is empty.
/// Returns the number of messages delivered.
fn run_epoch(nodes: &mut Vec<HonestNode>, epoch: u64) -> usize {
    let mut queue: VecDeque<Message> = VecDeque::new();
    let dropped = tick_all(nodes, epoch, &mut queue);
    assert_eq!(dropped.len(), nodes.len());
    assert!(dropped.iter().all(|checks| checks.is_empty()));
    let mut delivered = 0;
    while let Some(outcome) = deliver_next(nodes, &mut queue) {
        assert_eq!(outcome, Ok(()));
        delivered += 1;
        assert!(delivered < 10_000);
    }
    delivered
}

fn leader_of(nodes: &[HonestNode], epoch: u64) -> u32 {
    nodes[0].calculate_leader_id(epoch)
}

fn is_notarized(node: &HonestNode, digest: &BlockHash) -> bool {
    node.block(digest).unwrap().0.is_notarized
}

#[test]
fn deliver_next_on_an_empty_queue_does_nothing() {
    let mut nodes = network(2);
    let mut queue = VecDeque::new();
    assert_eq!(deliver_next(&mut nodes, &mut queue), None);
    assert!(queue.is_empty());
}

#[test]
fn deliver_next_drops_a_message_for_an_unknown_node() {
    let mut nodes = network(2);
    let mut queue = VecDeque::new();
    queue.push_back(VoteMessage::new(0, 2, [1u8; 64]));
    queue.push_back(VoteMessage::new(0, 1, [1u8; 64]));
    assert_eq!(
        deliver_next(&mut nodes, &mut queue),
        Some(Err(ConsensusError::UnroutableDestination))
    );
    assert_eq!(queue.len(), 1);
    assert_eq!(nodes[0].votes_for(&[1u8; 64]), 0);
    assert_eq!(nodes[1].votes_for(&[1u8; 64]), 0);
    assert_eq!(deliver_next(&mut nodes, &mut queue), Some(Ok(())));
    assert_eq!(nodes[1].votes_for(&[1u8; 64]), 1);
    assert_eq!(queue.len(), 1);
    assert_eq!(queue[0].to, 0);
    assert_eq!(queue[0].from, 0);
}

#[test]
fn deliver_next_reports_an_unknown_parent() {
    let mut nodes = network(2);
    let mut queue = VecDeque::new();
    queue.push_back(streamlet::message::ProposalMessage::new(0, 1, Block::new(3, [0u8; 64])));
    assert_eq!(deliver_next(&mut nodes, &mut queue), Some(Err(ConsensusError::ParentUnknown)));
    assert!(queue.is_empty());
}

#[test]
fn tick_all_ticks_every_node_in_order() {
    let mut nodes = network(4);
    let mut queue = VecDeque::new();
    tick_all(&mut nodes, 1, &mut queue);
    let leader = leader_of(&nodes, 1);
    for node in nodes.iter() {
        assert_eq!(node.current_leader(), leader);
    }
    assert_eq!(queue.len(), 3);
    for message in queue.iter() {
        assert_eq!(message.from, leader);
        assert_ne!(message.to, leader);
    }
}

#[test]
fn gossip_reaches_every_other_node_once_within_the_epoch() {
    let mut nodes = network(5);
    run_epoch(&mut nodes, 1);
    let leader = leader_of(&nodes, 1);
    let proposed = Block::new(1, Block::genesis_block().digest());
    for node in nodes.iter() {
        let (_, length) = node.block(&proposed.digest()).unwrap();
        assert_eq!(length, 2);
        let expected_votes = if node.id() == leader { 4 } else { 3 };
        assert_eq!(node.votes_for(&proposed.digest()), expected_votes);
    }
    let mut queue = VecDeque::new();
    let origin = (leader + 1) % 5;
    for to in 0..5u32 {
        if to != origin {
            queue.push_back(VoteMessage::new(origin, to, proposed.digest()));
        }
    }
    let mut delivered = 0;
    while let Some(outcome) = deliver_next(&mut nodes, &mut queue) {
        assert_eq!(outcome, Ok(()));
        delivered += 1;
    }
    assert_eq!(delivered, 4);
    for node in nodes.iter() {
        let expected_votes = if node.id() == leader { 4 } else { 3 };
        assert_eq!(node.votes_for(&proposed.digest()), expected_votes);
    }
}

#[test]
fn four_nodes_notarize_by_the_second_epoch_and_finalize_by_the_fourth() {
    let mut nodes = network(4);
    let genesis = Block::genesis_block().digest();
    let first = Block::new(1, genesis);
    let second = Block::new(2, first.digest());
    let third = Block::new(3, second.digest());
    let fourth = Block::new(4, third.digest());

    run_epoch(&mut nodes, 1);
    let leader = leader_of(&nodes, 1);
    for node in nodes.iter() {
        assert_eq!(node.current_leader(), leader);
        assert_eq!(node.block(&first.digest()).unwrap().1, 2);
        assert!(!is_notarized(node, &first.digest()));
        let expected_votes = if node.id() == leader { 3 } else { 2 };
        assert_eq!(node.votes_for(&first.digest()), expected_votes);
        assert_eq!(node.longest_notarized_heads(), &vec![genesis]);
        assert_eq!(node.finalized_head(), genesis);
    }

    run_epoch(&mut nodes, 2);
    for node in nodes.iter() {
        assert!(is_notarized(node, &first.digest()));
        assert_eq!(node.longest_notarized_heads(), &vec![first.digest()]);
        assert_eq!(node.block(&second.digest()).unwrap().1, 3);
        assert!(!is_notarized(node, &second.digest()));
        assert_eq!(node.finalized_head(), genesis);
    }

    run_epoch(&mut nodes, 3);
    for node in nodes.iter() {
        assert!(is_notarized(node, &second.digest()));
        assert_eq!(node.longest_notarized_heads(), &vec![second.digest()]);
        assert_eq!(node.finalized_head(), first.digest());
        assert_eq!(node.block(&third.digest()).unwrap().1, 4);
    }

    run_epoch(&mut nodes, 4);
    for node in nodes.iter() {
        assert!(is_notarized(node, &third.digest()));
        assert_eq!(node.longest_notarized_heads(), &vec![third.digest()]);
        assert_eq!(node.finalized_head(), second.digest());
        assert_eq!(node.block(&fourth.digest()).unwrap().1, 5);
        assert!(!is_notarized(node, &fourth.digest()));
    }
}

#[test]
fn single_node_leads_every_epoch_with_a_quorum_of_zero() {
    let mut nodes = network(1);
    let genesis = Block::genesis_block().digest();
    assert!(nodes[0].can_block_be_notarized(0));
    for epoch in 1u64..6 {
        assert!(nodes[0].is_leader(epoch));
        assert_eq!(run_epoch(&mut nodes, epoch), 0);
        assert_eq!(nodes[0].current_leader(), 0);
        let proposed = Block::new(epoch, genesis);
        assert_eq!(nodes[0].block(&proposed.digest()).unwrap().1, 2);
        assert_eq!(nodes[0].votes_for(&proposed.digest()), 0);
    }
}

#[test]
fn single_node_notarizes_a_voted_block_on_the_next_tick() {
    let mut nodes = network(1);
    let genesis = Block::genesis_block().digest();
    run_epoch(&mut nodes, 1);
    let first = Block::new(1, genesis);
    assert!(!is_notarized(&nodes[0], &first.digest()));
    let mut queue = VecDeque::new();
    queue.push_back(VoteMessage::new(1, 0, first.digest()));
    assert_eq!(deliver_next(&mut nodes, &mut queue), Some(Ok(())));
    assert!(queue.is_empty());
    run_epoch(&mut nodes, 2);
    assert!(is_notarized(&nodes[0], &first.digest()));
    assert_eq!(nodes[0].longest_notarized_heads(), &vec![first.digest()]);
    let second = Block::new(2, first.digest());
    assert_eq!(nodes[0].block(&second.digest()).unwrap().1, 3);
}
