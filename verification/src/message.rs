//! Messages that nodes exchange: block proposals and votes.

use crate::block::{Block, BlockView};
use crate::node::NodeIdentifier;
use crate::utils::BlockHash;
use vstd::prelude::*;

verus! {

/// The proposal of a block.
#[derive(Copy, Clone, Debug)]
pub struct ProposalMessage {
    pub block: Block,
}

/// A vote for the block with a given digest.
#[derive(Copy, Clone, Debug)]
pub struct VoteMessage {
    pub block_digest: BlockHash,
}

/// What a message carries.
#[derive(Copy, Clone, Debug)]
pub enum MessageContent {
    Proposal(ProposalMessage),
    Vote(VoteMessage),
}

/// A message on its way from one node to another. The sender named is the
/// node whose proposal or vote it is, also on copies that others pass on.
#[derive(Copy, Clone, Debug)]
pub struct Message {
    pub from: NodeIdentifier,
    pub to: NodeIdentifier,
    pub content: MessageContent,
}

/// What a message carries, as a mathematical value.
pub enum ContentView {
    /// A proposed block.
    Proposal(BlockView),
    /// A vote for the block with this digest.
    Vote(Seq<u8>),
}

/// A message as a mathematical value.
pub struct MessageView {
    pub from: NodeIdentifier,
    pub to: NodeIdentifier,
    pub content: ContentView,
}

impl View for MessageContent {
    type V = ContentView;

    open spec fn view(&self) -> ContentView {
        match *self {
            MessageContent::Proposal(proposal) => ContentView::Proposal(proposal.block@),
            MessageContent::Vote(vote) => ContentView::Vote(vote.block_digest@),
        }
    }
}

impl View for Message {
    type V = MessageView;

    open spec fn view(&self) -> MessageView {
        MessageView { from: self.from, to: self.to, content: self.content@ }
    }
}

/// The views of a sequence of messages, in order.
pub open spec fn message_views(messages: Seq<Message>) -> Seq<MessageView> {
    Seq::new(messages.len(), |i: int| messages[i]@)
}

/// The views of a queue that got one more message are the views of the
/// queue before, and that of the message behind them.
pub proof fn message_views_push(messages: Seq<Message>, message: Message)
    ensures
        message_views(messages.push(message)) == message_views(messages).push(message@),
{
    assert(message_views(messages.push(message)) =~= message_views(messages).push(message@));
}

impl ProposalMessage {
    /// A message from `from` to `to` that proposes `block`.
    pub fn new(from: NodeIdentifier, to: NodeIdentifier, block: Block) -> (message: Message)
        ensures
            message@ == (MessageView { from, to, content: ContentView::Proposal(block@) }),
    {
        Message { from, to, content: MessageContent::Proposal(Self { block }) }
    }
}

impl VoteMessage {
    /// A message from `from` to `to` that votes for the block with digest
    /// `block_digest`.
    pub fn new(from: NodeIdentifier, to: NodeIdentifier, block_digest: BlockHash) -> (message:
        Message)
        ensures
            message@ == (MessageView { from, to, content: ContentView::Vote(block_digest@) }),
    {
        Message { from, to, content: MessageContent::Vote(Self { block_digest }) }
    }
}

} // verus!
