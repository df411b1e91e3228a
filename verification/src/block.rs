//! Blocks and their content-derived identity.

use crate::node::Epoch;
use crate::utils::{
    be_bytes, be_bytes_injective, be_bytes_round_trip, push_be_bytes, push_hash, sha512,
    sha512_digest, BlockHash,
};
use vstd::prelude::*;

verus! {

/// The epoch of the genesis block; proposals start one epoch later.
pub const INIT_EPOCH: Epoch = 0;

/// A block of the chain.
#[derive(Copy, Clone, Debug)]
pub struct Block {
    pub parent_digest: BlockHash,
    pub transaction: BlockHash,
    pub creation_epoch: Epoch,
    pub is_notarized: bool,
}

/// A block as a mathematical value: its digests as byte sequences.
pub struct BlockView {
    pub parent: Seq<u8>,
    pub payload: Seq<u8>,
    pub epoch: Epoch,
    pub notarized: bool,
}

/// The placeholder payload of a block created in `epoch`.
pub open spec fn payload_for(epoch: Epoch) -> Seq<u8> {
    sha512(be_bytes(epoch))
}

/// The bytes that are hashed to identify a block: parent digest, payload and
/// big-endian creation epoch, in this order.
pub open spec fn preimage(parent: Seq<u8>, payload: Seq<u8>, epoch: Epoch) -> Seq<u8> {
    parent + payload + be_bytes(epoch)
}

/// The genesis block: created at the initial epoch, notarized from the start,
/// with the payload digest of that epoch standing in for a parent.
pub open spec fn genesis() -> BlockView {
    BlockView {
        parent: payload_for(INIT_EPOCH),
        payload: payload_for(INIT_EPOCH),
        epoch: INIT_EPOCH,
        notarized: true,
    }
}

impl BlockView {
    /// The identity of the block. The notarization flag takes no part in it.
    pub open spec fn digest(self) -> Seq<u8> {
        sha512(preimage(self.parent, self.payload, self.epoch))
    }

    /// The same block with its notarization flag set.
    pub open spec fn notarized(self) -> BlockView {
        BlockView { notarized: true, ..self }
    }

    /// Whether two blocks agree on every field that identifies them.
    pub open spec fn same_content(self, other: BlockView) -> bool {
        &&& self.parent == other.parent
        &&& self.payload == other.payload
        &&& self.epoch == other.epoch
    }
}

impl View for Block {
    type V = BlockView;

    open spec fn view(&self) -> BlockView {
        BlockView {
            parent: self.parent_digest@,
            payload: self.transaction@,
            epoch: self.creation_epoch,
            notarized: self.is_notarized,
        }
    }
}

impl Block {
    /// A block created in `epoch` atop the block named by `parent_digest`,
    /// not yet notarized.
    pub fn new(epoch: Epoch, parent_digest: BlockHash) -> (block: Self)
        ensures
            block@ == (BlockView {
                parent: parent_digest@,
                payload: payload_for(epoch),
                epoch,
                notarized: false,
            }),
    {
        let mut bytes: Vec<u8> = Vec::new();
        push_be_bytes(&mut bytes, epoch);
        assert(bytes@ =~= be_bytes(epoch));
        Self {
            parent_digest,
            transaction: sha512_digest(bytes.as_slice()),
            creation_epoch: epoch,
            is_notarized: false,
        }
    }

    /// The genesis block.
    pub fn genesis_block() -> (block: Self)
        ensures
            block@ == genesis(),
    {
        let mut bytes: Vec<u8> = Vec::new();
        push_be_bytes(&mut bytes, INIT_EPOCH);
        assert(bytes@ =~= be_bytes(INIT_EPOCH));
        let mut block = Self::new(INIT_EPOCH, sha512_digest(bytes.as_slice()));
        block.notarize();
        block
    }

    /// Marks the block notarized; a second call changes nothing.
    pub fn notarize(&mut self)
        ensures
            final(self)@ == old(self)@.notarized(),
    {
        self.is_notarized = true;
    }

    /// The digest that identifies the block: the hash of its parent digest,
    /// payload and big-endian creation epoch.
    pub fn digest(&self) -> (hash: BlockHash)
        ensures
            hash@ == self@.digest(),
    {
        let mut bytes: Vec<u8> = Vec::new();
        push_hash(&mut bytes, &self.parent_digest);
        push_hash(&mut bytes, &self.transaction);
        push_be_bytes(&mut bytes, self.creation_epoch);
        assert(bytes@ =~= preimage(self@.parent, self@.payload, self@.epoch));
        sha512_digest(bytes.as_slice())
    }
}

/// Blocks that agree on parent digest, payload and creation epoch have the
/// same digest, whatever their notarization flags: recomputing a digest over
/// unchanged fields gives the same bytes.
pub proof fn digest_stable(a: Block, b: Block)
    requires
        a@.same_content(b@),
    ensures
        a@.digest() == b@.digest(),
        a@.notarized().digest() == a@.digest(),
{
}

/// The hashed bytes determine the three identifying fields: blocks that differ
/// in parent digest, payload or creation epoch are hashed from different bytes.
pub proof fn preimage_injective(a: Block, b: Block)
    requires
        !a@.same_content(b@),
    ensures
        preimage(a@.parent, a@.payload, a@.epoch) != preimage(b@.parent, b@.payload, b@.epoch),
{
    let pa = preimage(a@.parent, a@.payload, a@.epoch);
    let pb = preimage(b@.parent, b@.payload, b@.epoch);
    be_bytes_round_trip(a@.epoch);
    be_bytes_round_trip(b@.epoch);
    if pa == pb {
        assert(pa.subrange(0, 64) =~= a@.parent);
        assert(pb.subrange(0, 64) =~= b@.parent);
        assert(pa.subrange(64, 128) =~= a@.payload);
        assert(pb.subrange(64, 128) =~= b@.payload);
        assert(pa.subrange(128, 136) =~= be_bytes(a@.epoch));
        assert(pb.subrange(128, 136) =~= be_bytes(b@.epoch));
        be_bytes_injective(a@.epoch, b@.epoch);
    }
}

/// Whether the hash tells two inputs apart unless they are the same input.
pub open spec fn collision_free(x: Seq<u8>, y: Seq<u8>) -> bool {
    sha512(x) == sha512(y) ==> x == y
}

/// Changing any one of parent digest, payload and creation epoch changes the
/// digest, provided the hash does not collide on the two blocks' bytes.
pub proof fn digest_sensitive(a: Block, b: Block)
    requires
        !a@.same_content(b@),
        collision_free(
            preimage(a@.parent, a@.payload, a@.epoch),
            preimage(b@.parent, b@.payload, b@.epoch),
        ),
    ensures
        a@.digest() != b@.digest(),
{
    preimage_injective(a, b);
}

} // verus!
